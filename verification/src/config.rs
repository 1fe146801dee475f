//! Configuration rules of a run: the fixed vocabulary of technique
//! identifiers, validation of the required inputs, splitting the requested
//! binary names, and the error taxonomy. Absence of optional page content is
//! never an error; only structural failures are.

use vstd::prelude::*;
use crate::text::{seq_views, str_eq, trim, trim_spec, lemma_seq_views_push};

verus! {

/// The structural failures of a run. A missing section, description or
/// example is expected content absence and is not represented here.
pub enum AppError {
    /// The requested technique is not in the recognized vocabulary.
    InvalidExploit(String),
    /// A required input (bins or exploit) is missing.
    MissingFlags,
    /// A page could not be fetched, or answered with a non-success status.
    FetchFailed(String),
    /// A page could not be parsed at all.
    ParseFailed,
}

/// The fixed, closed vocabulary of recognized technique identifiers.
pub open spec fn valid_exploits_spec() -> Seq<Seq<char>> {
    seq![
        "bind-shell"@,
        "capabilities"@,
        "bin"@,
        "file-download"@,
        "file-read"@,
        "file-upload"@,
        "file-write"@,
        "library-load"@,
        "limited-suid"@,
        "non-interactive-bind-shell"@,
        "non-interactive-reverse-shell"@,
        "reverse-shell"@,
        "shell"@,
        "sudo"@,
        "suid"@,
    ]
}

/// Whether `s` is a recognized technique identifier.
pub open spec fn is_valid_exploit_spec(s: Seq<char>) -> bool {
    valid_exploits_spec().contains(s)
}

/// The recognized technique identifiers, in their fixed order.
pub fn valid_exploits() -> (r: Vec<String>)
    ensures
        seq_views(r@) == valid_exploits_spec(),
{
    let mut v: Vec<String> = Vec::new();
    v.push(String::from_str("bind-shell"));
    v.push(String::from_str("capabilities"));
    v.push(String::from_str("bin"));
    v.push(String::from_str("file-download"));
    v.push(String::from_str("file-read"));
    v.push(String::from_str("file-upload"));
    v.push(String::from_str("file-write"));
    v.push(String::from_str("library-load"));
    v.push(String::from_str("limited-suid"));
    v.push(String::from_str("non-interactive-bind-shell"));
    v.push(String::from_str("non-interactive-reverse-shell"));
    v.push(String::from_str("reverse-shell"));
    v.push(String::from_str("shell"));
    v.push(String::from_str("sudo"));
    v.push(String::from_str("suid"));
    proof {
        assert(seq_views(v@) =~= valid_exploits_spec());
    }
    v
}

/// Whether `exploit` is a recognized technique identifier.
pub fn is_valid_exploit(exploit: &str) -> (r: bool)
    ensures
        r == is_valid_exploit_spec(exploit@),
{
    let v = valid_exploits();
    let n = v.len();
    let mut i: usize = 0;
    while i < n
        invariant
            i <= n,
            n == v@.len(),
            seq_views(v@) == valid_exploits_spec(),
            forall|k: int| 0 <= k < i ==> valid_exploits_spec()[k] != exploit@,
        decreases n - i,
    {
        if str_eq(v[i].as_str(), exploit) {
            proof {
                assert(valid_exploits_spec()[i as int] == exploit@);
            }
            return true;
        }
        proof {
            assert(valid_exploits_spec()[i as int] == seq_views(v@)[i as int]);
        }
        i = i + 1;
    }
    proof {
        if valid_exploits_spec().contains(exploit@) {
            let w = choose|k: int|
                0 <= k < valid_exploits_spec().len() && valid_exploits_spec()[k] == exploit@;
            assert(valid_exploits_spec()[w] != exploit@);
        }
    }
    false
}

/// Validate the two required inputs before any page is fetched: both must be
/// present, and the technique must come from the fixed vocabulary. An invalid
/// technique is a fatal configuration error, not a per-binary one.
pub fn validate_required_flag_values(bins: &str, exploit: &str) -> (r: Result<(), AppError>)
    ensures
        r is Ok <==> (bins@.len() > 0 && exploit@.len() > 0 && is_valid_exploit_spec(exploit@)),
        (bins@.len() == 0 || exploit@.len() == 0) ==> r == Err::<(), AppError>(
            AppError::MissingFlags,
        ),
        (bins@.len() > 0 && exploit@.len() > 0 && !is_valid_exploit_spec(exploit@)) ==> (
        r matches Err(AppError::InvalidExploit(m)) && m@ == exploit@),
{
    if bins.is_empty() || exploit.is_empty() {
        return Err(AppError::MissingFlags);
    }
    if !is_valid_exploit(exploit) {
        return Err(AppError::InvalidExploit(exploit.to_owned()));
    }
    Ok(())
}

/// Index of the first comma in `s`, or its length when there is none.
pub open spec fn first_comma(s: Seq<char>) -> int
    decreases s.len(),
{
    if s.len() == 0 {
        0
    } else if s[0] == ',' {
        0
    } else {
        1 + first_comma(s.drop_first())
    }
}

pub proof fn lemma_first_comma_bounds(s: Seq<char>)
    ensures
        0 <= first_comma(s) <= s.len(),
        first_comma(s) < s.len() ==> s[first_comma(s)] == ',',
        forall|k: int| 0 <= k < first_comma(s) ==> s[k] != ',',
    decreases s.len(),
{
    if s.len() > 0 && s[0] != ',' {
        lemma_first_comma_bounds(s.drop_first());
        assert forall|k: int| 0 <= k < first_comma(s) implies s[k] != ',' by {
            if k > 0 {
                assert(s.drop_first()[k - 1] != ',');
            }
        }
    }
}

proof fn lemma_first_comma_at(s: Seq<char>, i: int)
    requires
        0 <= i <= s.len(),
        forall|k: int| 0 <= k < i ==> s[k] != ',',
        i == s.len() || s[i] == ',',
    ensures
        first_comma(s) == i,
    decreases i,
{
    if i == 0 {
    } else {
        let t = s.drop_first();
        assert forall|k: int| 0 <= k < i - 1 implies t[k] != ',' by {
            assert(s[k + 1] != ',');
        }
        lemma_first_comma_at(t, i - 1);
    }
}

/// The comma-separated fields of `s`, in order. A string without commas is a
/// single field; an empty string is a single empty field.
pub open spec fn split_commas(s: Seq<char>) -> Seq<Seq<char>>
    decreases s.len(),
{
    let i = first_comma(s);
    if i >= s.len() {
        seq![s]
    } else {
        proof {
            lemma_first_comma_bounds(s);
        }
        seq![s.subrange(0, i)] + split_commas(s.subrange(i + 1, s.len() as int))
    }
}

/// The comma-separated fields of `s`, each trimmed, in order.
pub open spec fn split_trimmed(s: Seq<char>) -> Seq<Seq<char>> {
    split_commas(s).map_values(|t: Seq<char>| trim_spec(t))
}

/// Split the requested binary names on commas and trim each, preserving
/// their order.
pub fn split_bins(bins: &str) -> (r: Vec<String>)
    ensures
        seq_views(r@) == split_trimmed(bins@),
{
    let n = bins.unicode_len();
    let mut out: Vec<String> = Vec::new();
    proof {
        assert(bins@.subrange(0, n as int) =~= bins@);
        assert(seq_views(out@) =~= Seq::<Seq<char>>::empty());
        assert(Seq::<Seq<char>>::empty() + split_trimmed(bins@) =~= split_trimmed(bins@));
    }
    let mut start: usize = 0;
    let mut i: usize = 0;
    while i < n
        invariant
            start <= i <= n,
            n == bins@.len(),
            forall|k: int| start <= k < i ==> bins@[k] != ',',
            split_trimmed(bins@) == seq_views(out@) + split_trimmed(
                bins@.subrange(start as int, n as int),
            ),
        decreases n - i,
    {
        if bins.get_char(i) == ',' {
            let piece = bins.substring_char(start, i);
            let t = trim(piece);
            proof {
                let suffix = bins@.subrange(start as int, n as int);
                let rest = bins@.subrange(i as int + 1, n as int);
                assert forall|k: int| 0 <= k < i - start implies suffix[k] != ',' by {
                    assert(bins@[start + k] != ',');
                }
                assert(suffix[i - start] == ',');
                lemma_first_comma_at(suffix, i - start);
                assert(suffix.subrange(0, i - start) =~= bins@.subrange(start as int, i as int));
                assert(suffix.subrange(i - start + 1, suffix.len() as int) =~= rest);
                assert(split_commas(suffix) == seq![bins@.subrange(start as int, i as int)]
                    + split_commas(rest));
                assert(split_trimmed(suffix) =~= seq![trim_spec(
                    bins@.subrange(start as int, i as int),
                )] + split_trimmed(rest));
                lemma_seq_views_push(out@, t);
                assert(seq_views(out@.push(t)) =~= seq_views(out@) + seq![t@]);
                assert(seq_views(out@) + split_trimmed(suffix) =~= seq_views(out@.push(t))
                    + split_trimmed(rest));
            }
            out.push(t);
            start = i + 1;
        }
        i = i + 1;
    }
    let piece = bins.substring_char(start, n);
    let t = trim(piece);
    proof {
        let suffix = bins@.subrange(start as int, n as int);
        assert forall|k: int| 0 <= k < suffix.len() implies suffix[k] != ',' by {
            assert(bins@[start + k] != ',');
        }
        lemma_first_comma_at(suffix, suffix.len() as int);
        assert(split_commas(suffix) == seq![suffix]);
        assert(split_trimmed(suffix) =~= seq![trim_spec(suffix)]);
        lemma_seq_views_push(out@, t);
        assert(seq_views(out@) + split_trimmed(suffix) =~= seq_views(out@.push(t)));
    }
    out.push(t);
    out
}

} // verus!
