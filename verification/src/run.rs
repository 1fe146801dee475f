//! The per-binary pipeline decisions: build the page URL, classify the HTTP
//! status, turn one fetched page into one outcome, and process a whole run of
//! binaries so that one binary's failure never touches the others.

use vstd::prelude::*;
use crate::dom::Document;
use crate::extract::{Example, example_views, report};
use crate::text::seq_views;

verus! {

/// The fixed base under which every binary's page lives.
pub open spec fn url_base_spec() -> Seq<char> {
    "https://gtfobins.github.io/gtfobins/"@
}

/// The page URL of one binary: the fixed base followed by the binary's name.
pub fn build_url(bin: &str) -> (r: String)
    ensures
        r@ == url_base_spec() + bin@,
{
    let base = String::from_str("https://gtfobins.github.io/gtfobins/");
    base.concat(bin)
}

/// The technique name as it appears in a page anchor: spaces become dashes.
pub open spec fn anchor_id_spec(s: Seq<char>) -> Seq<char> {
    s.map_values(|c: char| if c == ' ' { '-' } else { c })
}

/// Turn a technique name into its anchor id: every space becomes a dash.
pub fn anchor_id(exploit: &str) -> (r: String)
    ensures
        r@ == anchor_id_spec(exploit@),
{
    let n = exploit.unicode_len();
    let mut out = String::new();
    proof {
        assert(out@ =~= anchor_id_spec(exploit@.subrange(0, 0)));
    }
    let mut i: usize = 0;
    while i < n
        invariant
            i <= n,
            n == exploit@.len(),
            out@ == anchor_id_spec(exploit@.subrange(0, i as int)),
        decreases n - i,
    {
        let c = exploit.get_char(i);
        if c == ' ' {
            out.append("-");
            proof {
                reveal_strlit("-");
                assert(out@ =~= anchor_id_spec(exploit@.subrange(0, i as int + 1)));
            }
        } else {
            let piece = exploit.substring_char(i, i + 1);
            out.append(piece);
            proof {
                assert(out@ =~= anchor_id_spec(exploit@.subrange(0, i as int + 1)));
            }
        }
        i = i + 1;
    }
    proof {
        assert(exploit@.subrange(0, n as int) =~= exploit@);
    }
    out
}

/// The deep link shown for a found section: the page URL, `/#`, and the
/// technique's anchor id.
pub fn deep_link(url: &str, exploit: &str) -> (r: String)
    ensures
        r@ == url@ + "/#"@ + anchor_id_spec(exploit@),
{
    let a = anchor_id(exploit);
    let s = String::from_str(url);
    let s = s.concat("/#");
    s.concat(a.as_str())
}

/// Whether an HTTP status code counts as success.
pub fn status_is_success(status: u16) -> (r: bool)
    ensures
        r == (200 <= status < 300),
{
    200 <= status && status < 300
}

/// What the fetch of one binary's page gave: a network failure, a page that
/// could not be parsed at all, or a parsed response with its HTTP status.
pub enum PageFetch {
    NetworkError,
    ParseError,
    Response { status: u16, doc: Document },
}

/// The outcome of one binary: a recoverable failure, a section that is absent
/// (which is not an error), or the extracted content.
pub enum BinOutcome {
    FetchFailed,
    ParseFailed,
    NotFound,
    Found { description: Vec<String>, examples: Vec<Example> },
}

/// What the outcome of one binary must look like, given what its fetch gave:
/// failures map to the matching failure outcome, a missing section maps to
/// `NotFound`, and a present section maps to exactly the extracted
/// description and examples.
pub open spec fn outcome_matches(fetch: PageFetch, anchor: Seq<char>, out: BinOutcome) -> bool {
    match fetch {
        PageFetch::NetworkError => out is FetchFailed,
        PageFetch::ParseError => out is ParseFailed,
        PageFetch::Response { status, doc } => {
            if !(200 <= status < 300) {
                out is FetchFailed
            } else if !doc.anchor_exists(anchor) {
                out is NotFound
            } else {
                out matches BinOutcome::Found { description, examples } && seq_views(description@)
                    == doc.description_spec(doc.first_anchor(anchor)) && example_views(examples@)
                    == doc.examples_spec()
            }
        },
    }
}

/// Decide the outcome of one binary from what its fetch gave: a non-success
/// status is a fetch failure, an absent section is `NotFound`, and a present
/// section yields the extracted description and examples.
pub fn bin_outcome(fetch: &PageFetch, anchor: &str) -> (r: BinOutcome)
    requires
        *fetch matches PageFetch::Response { doc, .. } ==> doc.wf(),
    ensures
        outcome_matches(*fetch, anchor@, r),
{
    match fetch {
        PageFetch::NetworkError => BinOutcome::FetchFailed,
        PageFetch::ParseError => BinOutcome::ParseFailed,
        PageFetch::Response { status, doc } => {
            if !status_is_success(*status) {
                BinOutcome::FetchFailed
            } else {
                let rep = report(doc, anchor);
                if rep.found {
                    BinOutcome::Found { description: rep.description, examples: rep.examples }
                } else {
                    BinOutcome::NotFound
                }
            }
        },
    }
}

/// Process a whole run: one outcome per fetched page, in the order the
/// binaries were requested. Each outcome depends on its own page alone, so a
/// failure for one binary never disturbs the others.
pub fn process_all(fetches: &Vec<PageFetch>, anchor: &str) -> (r: Vec<BinOutcome>)
    requires
        forall|k: int|
            #![trigger fetches@[k]]
            0 <= k < fetches@.len() ==> (fetches@[k] matches PageFetch::Response { doc, .. }
                ==> doc.wf()),
    ensures
        r@.len() == fetches@.len(),
        forall|k: int|
            0 <= k < r@.len() ==> outcome_matches(fetches@[k], anchor@, #[trigger] r@[k]),
{
    let n = fetches.len();
    let mut out: Vec<BinOutcome> = Vec::new();
    let mut i: usize = 0;
    while i < n
        invariant
            i <= n,
            n == fetches@.len(),
            out@.len() == i,
            forall|k: int|
                #![trigger fetches@[k]]
                0 <= k < fetches@.len() ==> (fetches@[k] matches PageFetch::Response { doc, .. }
                    ==> doc.wf()),
            forall|k: int|
                0 <= k < i ==> outcome_matches(fetches@[k], anchor@, #[trigger] out@[k]),
        decreases n - i,
    {
        let o = bin_outcome(&fetches[i], anchor);
        out.push(o);
        i = i + 1;
    }
    out
}

} // verus!
