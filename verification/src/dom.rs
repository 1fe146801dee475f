//! The document model: an immutable tree of nodes parsed from one HTML page,
//! stored as a flat array in document (pre-order) order. Each node records the
//! exclusive end of its subtree in the array and its parent, so sibling and
//! descendant traversals are index arithmetic: the first child of `i` is
//! `i + 1` (when the subtree is longer than one node), the next sibling of `i`
//! starts at `subtree_end(i)` as long as that stays inside the parent's
//! subtree, and the descendants of `i` are exactly the indices in
//! `(i, subtree_end(i))`.

use vstd::prelude::*;
use crate::text::str_eq;

verus! {

/// The payload of one node.
pub enum NodeData {
    /// An element, with its tag name, optional id attribute, and class tokens.
    Element { tag: String, id: Option<String>, classes: Vec<String> },
    /// A text node.
    Text { text: String },
    /// Anything else in the markup (a comment, a doctype, ...).
    Other,
}

/// One node of a document, at its pre-order position.
pub struct Node {
    pub data: NodeData,
    /// Exclusive end of this node's subtree in the document's node array.
    pub subtree_end: usize,
    /// Index of this node's parent, if it has one.
    pub parent: Option<usize>,
}

/// An immutable parsed document: all nodes, in document order.
pub struct Document {
    pub nodes: Vec<Node>,
}

impl Document {
    /// Number of nodes.
    pub open spec fn len(self) -> int {
        self.nodes@.len() as int
    }

    /// The node at index `i`.
    pub open spec fn node(self, i: int) -> Node {
        self.nodes@[i]
    }

    /// Exclusive end of the subtree rooted at `i`.
    pub open spec fn end_of(self, i: int) -> int {
        self.node(i).subtree_end as int
    }

    pub open spec fn is_element(self, i: int) -> bool {
        self.node(i).data is Element
    }

    pub open spec fn is_text(self, i: int) -> bool {
        self.node(i).data is Text
    }

    /// Tag name of the element at `i`; empty for non-elements.
    pub open spec fn tag_of(self, i: int) -> Seq<char> {
        match self.node(i).data {
            NodeData::Element { tag, .. } => tag@,
            _ => Seq::empty(),
        }
    }

    /// The id attribute of the element at `i`, if any.
    pub open spec fn id_of(self, i: int) -> Option<Seq<char>> {
        match self.node(i).data {
            NodeData::Element { id: Some(id), .. } => Some(id@),
            _ => None,
        }
    }

    /// Class tokens of the element at `i`; empty for non-elements.
    pub open spec fn classes_of(self, i: int) -> Seq<Seq<char>> {
        match self.node(i).data {
            NodeData::Element { classes, .. } => classes@.map_values(|c: String| c@),
            _ => Seq::empty(),
        }
    }

    /// Exact, case-sensitive membership of `name` in the class tokens of `i`.
    pub open spec fn has_class(self, i: int, name: Seq<char>) -> bool {
        exists|k: int| 0 <= k < self.classes_of(i).len() && self.classes_of(i)[k] == name
    }

    /// The text of the text node at `i`; empty for non-text nodes.
    pub open spec fn text_of(self, i: int) -> Seq<char> {
        match self.node(i).data {
            NodeData::Text { text } => text@,
            _ => Seq::empty(),
        }
    }

    /// Local well-formedness of the node at `i`: its subtree interval is
    /// non-empty and in bounds, and lies inside its parent's interval.
    pub open spec fn wf_node(self, i: int) -> bool {
        &&& i < self.end_of(i) <= self.len()
        &&& match self.node(i).parent {
            Some(p) => 0 <= p < i && self.end_of(i) <= self.end_of(p as int),
            None => true,
        }
    }

    /// Well-formedness of the whole document: every node is locally
    /// well-formed and the subtree intervals nest (no two overlap partially).
    pub open spec fn wf(self) -> bool {
        &&& forall|i: int| 0 <= i < self.len() ==> #[trigger] self.wf_node(i)
        &&& forall|i: int, j: int|
            #![trigger self.end_of(i), self.end_of(j)]
            0 <= i < j < self.len() && j < self.end_of(i) ==> self.end_of(j) <= self.end_of(i)
    }

    /// Concatenated text of the text nodes with index in `[from, to)`,
    /// in document order.
    pub open spec fn text_in(self, from: int, to: int) -> Seq<char>
        decreases to - from,
    {
        if from >= to {
            Seq::empty()
        } else {
            (if self.is_text(from) {
                self.text_of(from)
            } else {
                Seq::empty()
            }) + self.text_in(from + 1, to)
        }
    }

    /// The text content of the node at `i`: all text in its subtree,
    /// in document order.
    pub open spec fn text_content_spec(self, i: int) -> Seq<char> {
        self.text_in(i, self.end_of(i))
    }

    /// The first child of `i`, if the subtree holds more than `i` itself.
    pub open spec fn first_child_spec(self, i: int) -> Option<int> {
        if i + 1 < self.end_of(i) {
            Some(i + 1)
        } else {
            None
        }
    }

    /// The next sibling of `i`: the node right after `i`'s subtree, as long
    /// as it still lies inside the parent's subtree.
    pub open spec fn next_sibling_spec(self, i: int) -> Option<int> {
        match self.node(i).parent {
            Some(p) => if self.end_of(i) < self.end_of(p as int) {
                Some(self.end_of(i))
            } else {
                None
            },
            None => None,
        }
    }

    pub proof fn lemma_text_in_snoc(self, from: int, to: int)
        requires
            from <= to,
        ensures
            self.text_in(from, to + 1) == self.text_in(from, to) + (if self.is_text(to) {
                self.text_of(to)
            } else {
                Seq::<char>::empty()
            }),
        decreases to - from,
    {
        let tail = if self.is_text(to) { self.text_of(to) } else { Seq::<char>::empty() };
        let head = if self.is_text(from) { self.text_of(from) } else { Seq::<char>::empty() };
        if from == to {
            assert(self.text_in(from, to) == Seq::<char>::empty());
            assert(self.text_in(from, to + 1) == head + self.text_in(from + 1, to + 1));
            assert(self.text_in(from + 1, to + 1) == Seq::<char>::empty());
            assert(head + Seq::<char>::empty() =~= Seq::<char>::empty() + head);
        } else {
            self.lemma_text_in_snoc(from + 1, to);
            assert(self.text_in(from, to + 1) == head + self.text_in(from + 1, to + 1));
            assert(self.text_in(from, to) == head + self.text_in(from + 1, to));
            assert(head + (self.text_in(from + 1, to) + tail) =~= (head + self.text_in(from + 1, to))
                + tail);
        }
    }
}

/// Whether the element at `i` carries the class token `name` (exact,
/// case-sensitive). False for non-elements.
pub fn node_has_class(doc: &Document, i: usize, name: &str) -> (r: bool)
    requires
        i < doc.nodes@.len(),
    ensures
        r == doc.has_class(i as int, name@),
{
    match &doc.nodes[i].data {
        NodeData::Element { classes, .. } => {
            let n = classes.len();
            let mut k: usize = 0;
            while k < n
                invariant
                    k <= n,
                    n == classes@.len(),
                    classes@.map_values(|c: String| c@) == doc.classes_of(i as int),
                    forall|m: int| 0 <= m < k ==> doc.classes_of(i as int)[m] != name@,
                decreases n - k,
            {
                if str_eq(classes[k].as_str(), name) {
                    assert(doc.classes_of(i as int)[k as int] == name@);
                    return true;
                }
                k = k + 1;
            }
            false
        },
        _ => false,
    }
}

/// Whether the node at `i` is an element with tag name `name`.
pub fn node_tag_is(doc: &Document, i: usize, name: &str) -> (r: bool)
    requires
        i < doc.nodes@.len(),
    ensures
        r == (doc.is_element(i as int) && doc.tag_of(i as int) == name@),
{
    match &doc.nodes[i].data {
        NodeData::Element { tag, .. } => str_eq(tag.as_str(), name),
        _ => false,
    }
}

/// Whether the node at `i` is an element.
pub fn node_is_element(doc: &Document, i: usize) -> (r: bool)
    requires
        i < doc.nodes@.len(),
    ensures
        r == doc.is_element(i as int),
{
    match &doc.nodes[i].data {
        NodeData::Element { .. } => true,
        _ => false,
    }
}

/// The tag name of the node at `i`; empty for non-elements.
pub fn node_tag_name(doc: &Document, i: usize) -> (r: String)
    requires
        i < doc.nodes@.len(),
    ensures
        r@ == doc.tag_of(i as int),
{
    match &doc.nodes[i].data {
        NodeData::Element { tag, .. } => tag.clone(),
        _ => {
            let r = String::new();
            proof {
                assert(r@ =~= doc.tag_of(i as int));
            }
            r
        },
    }
}

/// The id attribute of the node at `i`, if it is an element that has one.
pub fn node_id(doc: &Document, i: usize) -> (r: Option<String>)
    requires
        i < doc.nodes@.len(),
    ensures
        match r {
            Some(id) => doc.id_of(i as int) == Some(id@),
            None => doc.id_of(i as int) is None,
        },
{
    match &doc.nodes[i].data {
        NodeData::Element { id: Some(id), .. } => Some(id.clone()),
        _ => None,
    }
}

/// Whether the node at `i` is a text node.
pub fn node_is_text(doc: &Document, i: usize) -> (r: bool)
    requires
        i < doc.nodes@.len(),
    ensures
        r == doc.is_text(i as int),
{
    match &doc.nodes[i].data {
        NodeData::Text { .. } => true,
        _ => false,
    }
}

/// The first child of the node at `i`, if any.
pub fn first_child(doc: &Document, i: usize) -> (r: Option<usize>)
    requires
        doc.wf(),
        i < doc.nodes@.len(),
    ensures
        r == match doc.first_child_spec(i as int) {
            Some(c) => Some(c as usize),
            None => None::<usize>,
        },
{
    assert(doc.wf_node(i as int));
    let e = doc.nodes[i].subtree_end;
    if i + 1 < e {
        Some(i + 1)
    } else {
        None
    }
}

/// The next sibling of the node at `i`, if any.
pub fn next_sibling(doc: &Document, i: usize) -> (r: Option<usize>)
    requires
        doc.wf(),
        i < doc.nodes@.len(),
    ensures
        r == match doc.next_sibling_spec(i as int) {
            Some(s) => Some(s as usize),
            None => None::<usize>,
        },
{
    assert(doc.wf_node(i as int));
    match doc.nodes[i].parent {
        Some(p) => {
            assert(doc.wf_node(p as int));
            let e = doc.nodes[i].subtree_end;
            if e < doc.nodes[p].subtree_end {
                Some(e)
            } else {
                None
            }
        },
        None => None,
    }
}

/// The text content of the node at `i`: the concatenation of all text in its
/// subtree, in document order.
pub fn text_content(doc: &Document, i: usize) -> (r: String)
    requires
        doc.wf(),
        i < doc.nodes@.len(),
    ensures
        r@ == doc.text_content_spec(i as int),
{
    assert(doc.wf_node(i as int));
    let to = doc.nodes[i].subtree_end;
    let mut out = String::new();
    let mut j: usize = i;
    while j < to
        invariant
            i <= j <= to,
            to == doc.end_of(i as int),
            to <= doc.nodes@.len(),
            out@ == doc.text_in(i as int, j as int),
        decreases to - j,
    {
        match &doc.nodes[j].data {
            NodeData::Text { text } => {
                out.append(text.as_str());
            },
            _ => {},
        }
        proof {
            doc.lemma_text_in_snoc(i as int, j as int);
            assert(out@ =~= doc.text_in(i as int, j as int + 1));
        }
        j = j + 1;
    }
    out
}

/// Check the whole well-formedness invariant of a document, so that unverified
/// callers can establish it before using the extractors.
pub fn check_wf(doc: &Document) -> (r: bool)
    ensures
        r == doc.wf(),
{
    let n = doc.nodes.len();
    let mut i: usize = 0;
    while i < n
        invariant
            i <= n,
            n == doc.nodes@.len(),
            forall|k: int| 0 <= k < i ==> #[trigger] doc.wf_node(k),
        decreases n - i,
    {
        let e = doc.nodes[i].subtree_end;
        if !(i < e && e <= n) {
            proof {
                assert(!doc.wf_node(i as int));
            }
            return false;
        }
        match doc.nodes[i].parent {
            Some(p) => {
                if !(p < i) {
                    proof {
                        assert(!doc.wf_node(i as int));
                    }
                    return false;
                }
                if !(e <= doc.nodes[p].subtree_end) {
                    proof {
                        assert(!doc.wf_node(i as int));
                    }
                    return false;
                }
            },
            None => {},
        }
        assert(doc.wf_node(i as int));
        i = i + 1;
    }
    let mut a: usize = 0;
    while a < n
        invariant
            a <= n,
            n == doc.nodes@.len(),
            forall|k: int| 0 <= k < n ==> #[trigger] doc.wf_node(k),
            forall|k: int, j: int|
                #![trigger doc.end_of(k), doc.end_of(j)]
                0 <= k < a && k < j < n && j < doc.end_of(k) ==> doc.end_of(j) <= doc.end_of(k),
        decreases n - a,
    {
        assert(doc.wf_node(a as int));
        let ea = doc.nodes[a].subtree_end;
        let mut j: usize = a + 1;
        while j < ea
            invariant
                a < j <= ea,
                n == doc.nodes@.len(),
                ea == doc.end_of(a as int),
                ea <= n,
                forall|k: int| 0 <= k < n ==> #[trigger] doc.wf_node(k),
                forall|m: int|
                    #![trigger doc.end_of(m)]
                    a < m < j ==> doc.end_of(m) <= doc.end_of(a as int),
            decreases ea - j,
        {
            if doc.nodes[j].subtree_end > ea {
                proof {
                    assert(doc.end_of(j as int) > doc.end_of(a as int));
                    assert(!doc.wf());
                }
                return false;
            }
            j = j + 1;
        }
        a = a + 1;
    }
    true
}

} // verus!
