//! The extraction core: locate a technique section by its anchor id, collect
//! the description paragraphs that follow it up to the examples block, and
//! pull the ordered (caption lines, code fragments) pairs out of the first
//! examples block of the document.

use vstd::prelude::*;
use crate::dom::{Document, NodeData};
use crate::dom::{node_has_class, node_tag_is, text_content};
use crate::text::{seq_views, trim, trim_spec, lemma_seq_views_push};

verus! {

/// An example extracted from one list item: its caption lines (one per
/// paragraph in the item, in document order) and its code fragments
/// (one per `code` element under a `pre`, in document order). Either side
/// may be empty; absence is not an error.
pub struct Example {
    pub captions: Vec<String>,
    pub codes: Vec<String>,
}

/// The mathematical value of an [`Example`].
#[verifier::ext_equal]
pub ghost struct ExampleV {
    pub captions: Seq<Seq<char>>,
    pub codes: Seq<Seq<char>>,
}

impl View for Example {
    type V = ExampleV;

    open spec fn view(&self) -> ExampleV {
        ExampleV { captions: seq_views(self.captions@), codes: seq_views(self.codes@) }
    }
}

/// The sequence of example values behind a sequence of examples.
pub open spec fn example_views(v: Seq<Example>) -> Seq<ExampleV> {
    v.map_values(|e: Example| e@)
}

impl Document {
    /// The marker element that opens the examples block: any element carrying
    /// the class token `examples`.
    pub open spec fn is_examples_block(self, i: int) -> bool {
        self.is_element(i) && self.has_class(i, "examples"@)
    }

    /// Whether some element of the document carries `a` as its id.
    pub open spec fn anchor_exists(self, a: Seq<char>) -> bool {
        exists|i: int| 0 <= i < self.len() && self.id_of(i) == Some(a)
    }

    /// Index of the first node at or after `i` whose id is `a`, or the
    /// document length when there is none.
    pub open spec fn first_anchor_from(self, i: int, a: Seq<char>) -> int
        decreases self.len() - i,
    {
        if i >= self.len() {
            self.len()
        } else if self.id_of(i) == Some(a) {
            i
        } else {
            self.first_anchor_from(i + 1, a)
        }
    }

    /// Index of the first node whose id is `a`, or the document length.
    pub open spec fn first_anchor(self, a: Seq<char>) -> int {
        self.first_anchor_from(0, a)
    }

    proof fn lemma_first_anchor_from(self, i: int, a: Seq<char>)
        requires
            0 <= i <= self.len(),
        ensures
            i <= self.first_anchor_from(i, a) <= self.len(),
            self.first_anchor_from(i, a) < self.len() ==> self.id_of(self.first_anchor_from(i, a))
                == Some(a),
            forall|k: int| i <= k < self.first_anchor_from(i, a) ==> self.id_of(k) != Some(a),
        decreases self.len() - i,
    {
        if i < self.len() && self.id_of(i) != Some(a) {
            self.lemma_first_anchor_from(i + 1, a);
        }
    }

    /// One description contribution: the trimmed text of a paragraph's first
    /// child, when that child is a text node; nothing otherwise.
    pub open spec fn para_contribution(self, i: int) -> Seq<Seq<char>> {
        if self.is_element(i) && self.tag_of(i) == "p"@ && i + 1 < self.end_of(i) && self.is_text(
            i + 1,
        ) {
            seq![trim_spec(self.text_of(i + 1))]
        } else {
            Seq::empty()
        }
    }

    /// The description collected from the sibling walk that starts at
    /// position `i` and may not reach `limit`: paragraph contributions in
    /// document order, cut off at the first examples block.
    pub open spec fn desc_from(self, i: int, limit: int) -> Seq<Seq<char>>
        decreases (if i < limit { limit - i } else { 0 }),
        when self.wf() && 0 <= i && limit <= self.len()
    {
        if i >= limit {
            Seq::empty()
        } else if self.is_examples_block(i) {
            Seq::empty()
        } else {
            proof {
                assert(self.wf_node(i));
            }
            self.para_contribution(i) + self.desc_from(self.end_of(i), limit)
        }
    }

    /// The positions the sibling walk visits before it stops: every sibling
    /// from `i` on, in document order, up to (and excluding) the first
    /// examples block or `limit`.
    pub open spec fn walk_positions(self, i: int, limit: int) -> Seq<int>
        decreases (if i < limit { limit - i } else { 0 }),
        when self.wf() && 0 <= i && limit <= self.len()
    {
        if i >= limit {
            Seq::empty()
        } else if self.is_examples_block(i) {
            Seq::empty()
        } else {
            proof {
                assert(self.wf_node(i));
            }
            seq![i] + self.walk_positions(self.end_of(i), limit)
        }
    }

    /// Where the sibling walk from `i` stops: the position of the first
    /// examples block it meets, or `limit` when it meets none.
    pub open spec fn walk_stop(self, i: int, limit: int) -> int
        decreases (if i < limit { limit - i } else { 0 }),
        when self.wf() && 0 <= i && limit <= self.len()
    {
        if i >= limit {
            limit
        } else if self.is_examples_block(i) {
            i
        } else {
            proof {
                assert(self.wf_node(i));
            }
            self.walk_stop(self.end_of(i), limit)
        }
    }

    /// The description of the section at `s`: the contributions of its
    /// following siblings, in document order, up to the examples block.
    pub open spec fn description_spec(self, s: int) -> Seq<Seq<char>> {
        match self.node(s).parent {
            Some(p) => self.desc_from(self.end_of(s), self.end_of(p as int)),
            None => Seq::empty(),
        }
    }

    /// The positions whose contributions make up `description_spec(s)`.
    pub open spec fn description_positions(self, s: int) -> Seq<int> {
        match self.node(s).parent {
            Some(p) => self.walk_positions(self.end_of(s), self.end_of(p as int)),
            None => Seq::empty(),
        }
    }

    /// Where the description walk of the section at `s` stops; a section
    /// without a parent has no siblings, no walk, and stop position zero.
    pub open spec fn description_stop(self, s: int) -> int {
        match self.node(s).parent {
            Some(p) => self.walk_stop(self.end_of(s), self.end_of(p as int)),
            None => 0,
        }
    }

    /// Index of the first examples block at or after `i`, or the document
    /// length when there is none.
    pub open spec fn first_block_from(self, i: int) -> int
        decreases self.len() - i,
    {
        if i >= self.len() {
            self.len()
        } else if self.is_examples_block(i) {
            i
        } else {
            self.first_block_from(i + 1)
        }
    }

    /// Whether the document holds an examples block at all.
    pub open spec fn has_examples_block(self) -> bool {
        exists|i: int| 0 <= i < self.len() && self.is_examples_block(i)
    }

    proof fn lemma_first_block_from(self, i: int)
        requires
            0 <= i <= self.len(),
        ensures
            i <= self.first_block_from(i) <= self.len(),
            self.first_block_from(i) < self.len() ==> self.is_examples_block(
                self.first_block_from(i),
            ),
            forall|k: int| i <= k < self.first_block_from(i) ==> !self.is_examples_block(k),
        decreases self.len() - i,
    {
        if i < self.len() && !self.is_examples_block(i) {
            self.lemma_first_block_from(i + 1);
        }
    }

    /// The positions of the list items in `[from, to)`, in document order.
    pub open spec fn lis_in(self, from: int, to: int) -> Seq<int>
        decreases to - from,
    {
        if from >= to {
            Seq::empty()
        } else {
            (if self.is_element(from) && self.tag_of(from) == "li"@ {
                seq![from]
            } else {
                Seq::empty()
            }) + self.lis_in(from + 1, to)
        }
    }

    /// The caption lines contributed by the paragraph elements in
    /// `[from, to)`: the trimmed text content of each, in document order.
    pub open spec fn caps_in(self, from: int, to: int) -> Seq<Seq<char>>
        decreases to - from,
    {
        if from >= to {
            Seq::empty()
        } else {
            (if self.is_element(from) && self.tag_of(from) == "p"@ {
                seq![trim_spec(self.text_content_spec(from))]
            } else {
                Seq::empty()
            }) + self.caps_in(from + 1, to)
        }
    }

    /// Whether the node at `c` lies inside the subtree of some `pre` element.
    pub open spec fn has_pre_ancestor(self, c: int) -> bool {
        exists|j: int|
            0 <= j < c && self.is_element(j) && self.tag_of(j) == "pre"@ && c < self.end_of(j)
    }

    /// A code fragment source: a `code` element inside a `pre`.
    pub open spec fn code_at(self, i: int) -> bool {
        self.is_element(i) && self.tag_of(i) == "code"@ && self.has_pre_ancestor(i)
    }

    /// The code fragments contributed by the `code`-inside-`pre` elements in
    /// `[from, to)`: the trimmed text content of each, in document order.
    pub open spec fn codes_in(self, from: int, to: int) -> Seq<Seq<char>>
        decreases to - from,
    {
        if from >= to {
            Seq::empty()
        } else {
            (if self.code_at(from) {
                seq![trim_spec(self.text_content_spec(from))]
            } else {
                Seq::empty()
            }) + self.codes_in(from + 1, to)
        }
    }

    /// The example extracted from the list item at `li`.
    pub open spec fn example_at(self, li: int) -> ExampleV {
        ExampleV {
            captions: self.caps_in(li + 1, self.end_of(li)),
            codes: self.codes_in(li + 1, self.end_of(li)),
        }
    }

    /// The examples of the list items at the given positions, in order.
    pub open spec fn examples_of_lis(self, lis: Seq<int>) -> Seq<ExampleV> {
        lis.map_values(|li: int| self.example_at(li))
    }

    /// The list-item positions of the first examples block, in document
    /// order; empty when there is no examples block.
    pub open spec fn block_list_items(self) -> Seq<int> {
        let b = self.first_block_from(0);
        if b == self.len() {
            Seq::empty()
        } else {
            self.lis_in(b + 1, self.end_of(b))
        }
    }

    /// All examples of the document: one per list item of the first examples
    /// block, in document order; none when there is no examples block.
    pub open spec fn examples_spec(self) -> Seq<ExampleV> {
        self.examples_of_lis(self.block_list_items())
    }

    proof fn lemma_lis_in_snoc(self, from: int, to: int)
        requires
            from <= to,
        ensures
            self.lis_in(from, to + 1) == self.lis_in(from, to) + (if self.is_element(to)
                && self.tag_of(to) == "li"@ {
                seq![to]
            } else {
                Seq::<int>::empty()
            }),
        decreases to - from,
    {
        let tail = if self.is_element(to) && self.tag_of(to) == "li"@ {
            seq![to]
        } else {
            Seq::<int>::empty()
        };
        if from == to {
            assert(self.lis_in(from, to) == Seq::<int>::empty());
            assert(self.lis_in(from + 1, to + 1) == Seq::<int>::empty());
            assert(self.lis_in(from, to + 1) =~= self.lis_in(from, to) + tail);
        } else {
            self.lemma_lis_in_snoc(from + 1, to);
            assert(self.lis_in(from, to + 1) == (if self.is_element(from) && self.tag_of(from)
                == "li"@ {
                seq![from]
            } else {
                Seq::<int>::empty()
            }) + self.lis_in(from + 1, to + 1));
            assert(self.lis_in(from, to + 1) =~= self.lis_in(from, to) + tail);
        }
    }

    proof fn lemma_caps_in_snoc(self, from: int, to: int)
        requires
            from <= to,
        ensures
            self.caps_in(from, to + 1) == self.caps_in(from, to) + (if self.is_element(to)
                && self.tag_of(to) == "p"@ {
                seq![trim_spec(self.text_content_spec(to))]
            } else {
                Seq::<Seq<char>>::empty()
            }),
        decreases to - from,
    {
        let tail = if self.is_element(to) && self.tag_of(to) == "p"@ {
            seq![trim_spec(self.text_content_spec(to))]
        } else {
            Seq::<Seq<char>>::empty()
        };
        if from == to {
            assert(self.caps_in(from, to) == Seq::<Seq<char>>::empty());
            assert(self.caps_in(from + 1, to + 1) == Seq::<Seq<char>>::empty());
            assert(self.caps_in(from, to + 1) =~= self.caps_in(from, to) + tail);
        } else {
            self.lemma_caps_in_snoc(from + 1, to);
            assert(self.caps_in(from, to + 1) == (if self.is_element(from) && self.tag_of(from)
                == "p"@ {
                seq![trim_spec(self.text_content_spec(from))]
            } else {
                Seq::<Seq<char>>::empty()
            }) + self.caps_in(from + 1, to + 1));
            assert(self.caps_in(from, to + 1) =~= self.caps_in(from, to) + tail);
        }
    }

    proof fn lemma_codes_in_snoc(self, from: int, to: int)
        requires
            from <= to,
        ensures
            self.codes_in(from, to + 1) == self.codes_in(from, to) + (if self.code_at(to) {
                seq![trim_spec(self.text_content_spec(to))]
            } else {
                Seq::<Seq<char>>::empty()
            }),
        decreases to - from,
    {
        let tail = if self.code_at(to) {
            seq![trim_spec(self.text_content_spec(to))]
        } else {
            Seq::<Seq<char>>::empty()
        };
        if from == to {
            assert(self.codes_in(from, to) == Seq::<Seq<char>>::empty());
            assert(self.codes_in(from + 1, to + 1) == Seq::<Seq<char>>::empty());
            assert(self.codes_in(from, to + 1) =~= self.codes_in(from, to) + tail);
        } else {
            self.lemma_codes_in_snoc(from + 1, to);
            assert(self.codes_in(from, to + 1) == (if self.code_at(from) {
                seq![trim_spec(self.text_content_spec(from))]
            } else {
                Seq::<Seq<char>>::empty()
            }) + self.codes_in(from + 1, to + 1));
            assert(self.codes_in(from, to + 1) =~= self.codes_in(from, to) + tail);
        }
    }
}

/// Find the unique element whose id attribute is `anchor`: the first match in
/// document order, or `None` when the document has no such element. A miss is
/// the expected outcome for most binaries, not an error.
pub fn locate(doc: &Document, anchor: &str) -> (r: Option<usize>)
    ensures
        match r {
            Some(i) => i < doc.nodes@.len() && doc.id_of(i as int) == Some(anchor@) && i as int
                == doc.first_anchor(anchor@) && doc.anchor_exists(anchor@),
            None => !doc.anchor_exists(anchor@),
        },
{
    let n = doc.nodes.len();
    let mut i: usize = 0;
    while i < n
        invariant
            i <= n,
            n == doc.nodes@.len(),
            forall|k: int| 0 <= k < i ==> doc.id_of(k) != Some(anchor@),
        decreases n - i,
    {
        let found = match &doc.nodes[i].data {
            NodeData::Element { id: Some(id), .. } => crate::text::str_eq(id.as_str(), anchor),
            _ => false,
        };
        if found {
            proof {
                assert(doc.id_of(i as int) == Some(anchor@));
                doc.lemma_first_anchor_from(0, anchor@);
                if doc.first_anchor(anchor@) < i as int {
                    assert(doc.id_of(doc.first_anchor(anchor@)) != Some(anchor@));
                }
                if doc.first_anchor(anchor@) > i as int {
                    assert(doc.id_of(i as int) != Some(anchor@));
                }
            }
            return Some(i);
        }
        proof {
            assert(doc.id_of(i as int) != Some(anchor@));
        }
        i = i + 1;
    }
    proof {
        if doc.anchor_exists(anchor@) {
            let w = choose|j: int| 0 <= j < doc.len() && doc.id_of(j) == Some(anchor@);
            assert(doc.id_of(w) != Some(anchor@));
        }
    }
    None
}

/// Find the first element of the document carrying the `examples` class, in
/// document order.
fn find_examples_block(doc: &Document) -> (r: Option<usize>)
    ensures
        match r {
            Some(b) => b < doc.nodes@.len() && doc.is_examples_block(b as int) && b as int
                == doc.first_block_from(0),
            None => !doc.has_examples_block() && doc.first_block_from(0) == doc.len(),
        },
{
    let n = doc.nodes.len();
    let mut b: usize = 0;
    while b < n
        invariant
            b <= n,
            n == doc.nodes@.len(),
            forall|k: int| 0 <= k < b ==> !doc.is_examples_block(k),
        decreases n - b,
    {
        if node_has_class(doc, b, "examples") {
            proof {
                assert(doc.is_examples_block(b as int));
                doc.lemma_first_block_from(0);
                if doc.first_block_from(0) < b as int {
                    assert(!doc.is_examples_block(doc.first_block_from(0)));
                }
                if doc.first_block_from(0) > b as int {
                    assert(!doc.is_examples_block(b as int));
                }
            }
            return Some(b);
        }
        proof {
            assert(!doc.is_examples_block(b as int));
        }
        b = b + 1;
    }
    proof {
        doc.lemma_first_block_from(0);
        if doc.first_block_from(0) < doc.len() {
            assert(doc.is_examples_block(doc.first_block_from(0)));
        }
        if doc.has_examples_block() {
            let w = choose|j: int| 0 <= j < doc.len() && doc.is_examples_block(j);
            assert(!doc.is_examples_block(w));
        }
    }
    None
}

/// Collect the description of the section at `section`: walk its following
/// siblings in document order; each paragraph element whose first child is a
/// text node contributes that text, trimmed; the walk stops at the first
/// element carrying the `examples` class, which contributes nothing.
pub fn extract_description(doc: &Document, section: usize) -> (r: Vec<String>)
    requires
        doc.wf(),
        section < doc.nodes@.len(),
    ensures
        seq_views(r@) == doc.description_spec(section as int),
{
    let mut out: Vec<String> = Vec::new();
    proof {
        assert(seq_views(out@) =~= Seq::<Seq<char>>::empty());
        assert(doc.wf_node(section as int));
    }
    let p = match doc.nodes[section].parent {
        Some(p) => p,
        None => {
            return out;
        },
    };
    proof {
        assert(doc.wf_node(p as int));
        assert(Seq::<Seq<char>>::empty() + doc.desc_from(
            doc.end_of(section as int),
            doc.end_of(p as int),
        ) =~= doc.desc_from(doc.end_of(section as int), doc.end_of(p as int)));
    }
    let limit = doc.nodes[p].subtree_end;
    let mut cur = doc.nodes[section].subtree_end;
    while cur < limit
        invariant
            doc.wf(),
            limit <= doc.nodes@.len(),
            doc.description_spec(section as int) == seq_views(out@) + doc.desc_from(
                cur as int,
                limit as int,
            ),
        decreases (if cur < limit { limit - cur } else { 0int }),
    {
        proof {
            assert(doc.wf_node(cur as int));
        }
        if node_has_class(doc, cur, "examples") {
            proof {
                assert(doc.desc_from(cur as int, limit as int) =~= Seq::<Seq<char>>::empty());
                assert(seq_views(out@) + Seq::<Seq<char>>::empty() =~= seq_views(out@));
            }
            return out;
        }
        let e = doc.nodes[cur].subtree_end;
        let ghost tail = doc.desc_from(e as int, limit as int);
        proof {
            assert(doc.desc_from(cur as int, limit as int) == doc.para_contribution(cur as int)
                + tail);
        }
        let mut contributed = false;
        if node_tag_is(doc, cur, "p") && cur + 1 < e {
            match &doc.nodes[cur + 1].data {
                NodeData::Text { text } => {
                    let t = trim(text.as_str());
                    proof {
                        lemma_seq_views_push(out@, t);
                        assert(doc.para_contribution(cur as int) =~= seq![t@]);
                        assert(seq_views(out@) + (seq![t@] + tail) =~= seq_views(out@.push(t))
                            + tail);
                    }
                    out.push(t);
                    contributed = true;
                },
                _ => {},
            }
        }
        if !contributed {
            proof {
                assert(doc.para_contribution(cur as int) =~= Seq::<Seq<char>>::empty());
                assert(seq_views(out@) + (Seq::<Seq<char>>::empty() + tail) =~= seq_views(out@)
                    + tail);
            }
        }
        cur = e;
    }
    proof {
        assert(doc.desc_from(cur as int, limit as int) =~= Seq::<Seq<char>>::empty());
        assert(seq_views(out@) + Seq::<Seq<char>>::empty() =~= seq_views(out@));
    }
    out
}

/// Whether the node at `c` lies inside the subtree of some `pre` element.
fn inside_pre(doc: &Document, c: usize) -> (r: bool)
    requires
        c < doc.nodes@.len(),
    ensures
        r == doc.has_pre_ancestor(c as int),
{
    let mut j: usize = 0;
    while j < c
        invariant
            j <= c,
            c < doc.nodes@.len(),
            forall|k: int|
                0 <= k < j ==> !(doc.is_element(k) && doc.tag_of(k) == "pre"@ && c < doc.end_of(
                    k,
                )),
        decreases c - j,
    {
        if node_tag_is(doc, j, "pre") && c < doc.nodes[j].subtree_end {
            return true;
        }
        j = j + 1;
    }
    false
}

/// Build the example of the list item at `li`: caption lines from its
/// paragraph elements and code fragments from its `code`-inside-`pre`
/// elements, each trimmed, in document order.
fn build_example(doc: &Document, li: usize) -> (ex: Example)
    requires
        doc.wf(),
        li < doc.nodes@.len(),
    ensures
        ex@ == doc.example_at(li as int),
{
    proof {
        assert(doc.wf_node(li as int));
    }
    let to = doc.nodes[li].subtree_end;
    let mut captions: Vec<String> = Vec::new();
    proof {
        assert(seq_views(captions@) =~= doc.caps_in(li + 1, li + 1));
    }
    let mut j: usize = li + 1;
    while j < to
        invariant
            doc.wf(),
            li + 1 <= j <= to,
            to == doc.end_of(li as int),
            to <= doc.nodes@.len(),
            seq_views(captions@) == doc.caps_in(li + 1, j as int),
        decreases to - j,
    {
        proof {
            doc.lemma_caps_in_snoc(li + 1, j as int);
        }
        if node_tag_is(doc, j, "p") {
            let t = text_content(doc, j);
            let c = trim(t.as_str());
            proof {
                lemma_seq_views_push(captions@, c);
                assert(seq_views(captions@).push(c@) =~= doc.caps_in(li + 1, j as int + 1));
            }
            captions.push(c);
        } else {
            proof {
                assert(seq_views(captions@) =~= doc.caps_in(li + 1, j as int + 1));
            }
        }
        j = j + 1;
    }
    let mut codes: Vec<String> = Vec::new();
    proof {
        assert(seq_views(codes@) =~= doc.codes_in(li + 1, li + 1));
    }
    let mut j: usize = li + 1;
    while j < to
        invariant
            doc.wf(),
            li + 1 <= j <= to,
            to == doc.end_of(li as int),
            to <= doc.nodes@.len(),
            seq_views(codes@) == doc.codes_in(li + 1, j as int),
        decreases to - j,
    {
        proof {
            doc.lemma_codes_in_snoc(li + 1, j as int);
        }
        if node_tag_is(doc, j, "code") && inside_pre(doc, j) {
            let t = text_content(doc, j);
            let c = trim(t.as_str());
            proof {
                lemma_seq_views_push(codes@, c);
                assert(seq_views(codes@).push(c@) =~= doc.codes_in(li + 1, j as int + 1));
            }
            codes.push(c);
        } else {
            proof {
                assert(seq_views(codes@) =~= doc.codes_in(li + 1, j as int + 1));
            }
        }
        j = j + 1;
    }
    Example { captions, codes }
}

/// Extract the examples of the document: find the first element carrying the
/// `examples` class, and turn each list item under it into one example, in
/// document order. A document without an examples block yields no examples,
/// which is not an error.
pub fn extract_examples(doc: &Document) -> (r: Vec<Example>)
    requires
        doc.wf(),
    ensures
        example_views(r@) == doc.examples_spec(),
{
    let b = match find_examples_block(doc) {
        None => {
            let out: Vec<Example> = Vec::new();
            proof {
                assert(example_views(out@) =~= doc.examples_spec());
            }
            return out;
        },
        Some(b) => b,
    };
    proof {
        assert(doc.wf_node(b as int));
    }
    let to = doc.nodes[b].subtree_end;
    let mut out: Vec<Example> = Vec::new();
    proof {
        assert(example_views(out@) =~= doc.examples_of_lis(doc.lis_in(b + 1, b + 1)));
    }
    let mut i: usize = b + 1;
    while i < to
        invariant
            doc.wf(),
            b < doc.nodes@.len(),
            b + 1 <= i <= to,
            to == doc.end_of(b as int),
            to <= doc.nodes@.len(),
            example_views(out@) == doc.examples_of_lis(doc.lis_in(b + 1, i as int)),
        decreases to - i,
    {
        proof {
            doc.lemma_lis_in_snoc(b + 1, i as int);
        }
        if node_tag_is(doc, i, "li") {
            let ex = build_example(doc, i);
            proof {
                assert(example_views(out@).push(ex@) =~= doc.examples_of_lis(
                    doc.lis_in(b + 1, i as int + 1),
                ));
                assert(example_views(out@.push(ex)) =~= example_views(out@).push(ex@));
            }
            out.push(ex);
        } else {
            proof {
                assert(example_views(out@) =~= doc.examples_of_lis(
                    doc.lis_in(b + 1, i as int + 1),
                ));
            }
        }
        i = i + 1;
    }
    proof {
        assert(example_views(out@) =~= doc.examples_spec());
    }
    out
}

/// What one page yields for one requested technique: the found flag, the
/// description lines, and the examples. When the section is absent both the
/// description and the examples stay empty.
pub struct SectionReport {
    pub found: bool,
    pub description: Vec<String>,
    pub examples: Vec<Example>,
}

/// Look a technique up in a parsed page: locate its section by anchor id and,
/// when present, extract the description and the examples. An absent section
/// is reported with the flag, never as an error.
pub fn report(doc: &Document, anchor: &str) -> (r: SectionReport)
    requires
        doc.wf(),
    ensures
        r.found == doc.anchor_exists(anchor@),
        !doc.anchor_exists(anchor@) ==> r.description@.len() == 0 && r.examples@.len() == 0,
        doc.anchor_exists(anchor@) ==> seq_views(r.description@) == doc.description_spec(
            doc.first_anchor(anchor@),
        ),
        doc.anchor_exists(anchor@) ==> example_views(r.examples@) == doc.examples_spec(),
{
    match locate(doc, anchor) {
        None => SectionReport { found: false, description: Vec::new(), examples: Vec::new() },
        Some(s) => {
            let description = extract_description(doc, s);
            let examples = extract_examples(doc);
            SectionReport { found: true, description, examples }
        },
    }
}

} // verus!
