//! The general laws of the extraction core, stated over the same spec
//! functions that the executable functions are proved against. The law that an
//! absent anchor yields an empty report is part of `report`'s own contract;
//! the laws below relate the walks, the boundary, and the output order.

use vstd::prelude::*;
use crate::dom::Document;
use crate::extract::ExampleV;

verus! {

proof fn lemma_desc_from_of_empties(doc: Document, i: int, limit: int)
    requires
        doc.wf(),
        0 <= i,
        limit <= doc.len(),
        forall|j: int| #[trigger]
            doc.walk_positions(i, limit).contains(j) ==> doc.para_contribution(j) == Seq::<
                Seq<char>,
            >::empty(),
    ensures
        doc.desc_from(i, limit) == Seq::<Seq<char>>::empty(),
    decreases (if i < limit { limit - i } else { 0 }),
{
    if i >= limit {
    } else if doc.is_examples_block(i) {
    } else {
        assert(doc.wf_node(i));
        let pos = doc.walk_positions(i, limit);
        let rest = doc.walk_positions(doc.end_of(i), limit);
        assert(pos == seq![i] + rest);
        assert(pos[0] == i);
        assert(pos.contains(i));
        assert forall|j: int| rest.contains(j) implies pos.contains(j) by {
            let idx = choose|idx: int| 0 <= idx < rest.len() && rest[idx] == j;
            assert(pos[idx + 1] == j);
        }
        lemma_desc_from_of_empties(doc, doc.end_of(i), limit);
        assert(doc.para_contribution(i) == Seq::<Seq<char>>::empty());
        assert(doc.desc_from(i, limit) =~= Seq::<Seq<char>>::empty());
    }
}

/// A located section with no contributing paragraph among the siblings its
/// walk visits has an empty description: zero paragraph siblings before the
/// boundary yield an empty sequence, not an error.
pub proof fn lemma_description_empty_without_paragraphs(doc: Document, s: int)
    requires
        doc.wf(),
        0 <= s < doc.len(),
        forall|j: int| #[trigger]
            doc.description_positions(s).contains(j) ==> doc.para_contribution(j) == Seq::<
                Seq<char>,
            >::empty(),
    ensures
        doc.description_spec(s) == Seq::<Seq<char>>::empty(),
{
    match doc.node(s).parent {
        Some(p) => {
            assert(doc.wf_node(s));
            assert(doc.wf_node(p as int));
            assert forall|j: int|
                doc.walk_positions(doc.end_of(s), doc.end_of(p as int)).contains(
                    j,
                ) implies doc.para_contribution(j) == Seq::<Seq<char>>::empty() by {
                assert(doc.description_positions(s).contains(j));
            }
            lemma_desc_from_of_empties(doc, doc.end_of(s), doc.end_of(p as int));
        },
        None => {},
    }
}

proof fn lemma_walk_properties(doc: Document, i: int, limit: int)
    requires
        doc.wf(),
        0 <= i,
        limit <= doc.len(),
    ensures
        doc.walk_stop(i, limit) <= limit,
        i <= limit ==> i <= doc.walk_stop(i, limit),
        forall|j: int| #[trigger]
            doc.walk_positions(i, limit).contains(j) ==> i <= j && j < doc.walk_stop(i, limit)
                && !doc.is_examples_block(j) && (doc.end_of(j) <= limit ==> doc.end_of(j)
                <= doc.walk_stop(i, limit)),
        doc.walk_stop(i, limit) < limit ==> doc.is_examples_block(doc.walk_stop(i, limit)),
        forall|k1: int, k2: int|
            0 <= k1 < k2 < doc.walk_positions(i, limit).len() ==> doc.walk_positions(i, limit)[k1]
                < doc.walk_positions(i, limit)[k2],
    decreases (if i < limit { limit - i } else { 0 }),
{
    if i >= limit {
    } else if doc.is_examples_block(i) {
    } else {
        assert(doc.wf_node(i));
        let e = doc.end_of(i);
        lemma_walk_properties(doc, e, limit);
        let pos = doc.walk_positions(i, limit);
        let rest = doc.walk_positions(e, limit);
        let stop = doc.walk_stop(i, limit);
        assert(stop == doc.walk_stop(e, limit));
        assert(pos == seq![i] + rest);
        assert forall|j: int| pos.contains(j) implies i <= j && j < stop && !doc.is_examples_block(
            j,
        ) && (doc.end_of(j) <= limit ==> doc.end_of(j) <= stop) by {
            let idx = choose|idx: int| 0 <= idx < pos.len() && pos[idx] == j;
            if idx == 0 {
                assert(j == i);
            } else {
                assert(rest[idx - 1] == j);
                assert(rest.contains(j));
            }
        }
        assert forall|k1: int, k2: int| 0 <= k1 < k2 < pos.len() implies pos[k1] < pos[k2] by {
            if k1 == 0 {
                assert(pos[k2] == rest[k2 - 1]);
                assert(rest.contains(rest[k2 - 1]));
                assert(e <= pos[k2]);
            } else {
                assert(pos[k1] == rest[k1 - 1]);
                assert(pos[k2] == rest[k2 - 1]);
            }
        }
    }
}

proof fn lemma_desc_entries(doc: Document, i: int, limit: int)
    requires
        doc.wf(),
        0 <= i,
        limit <= doc.len(),
    ensures
        forall|k: int|
            #![trigger doc.desc_from(i, limit)[k]]
            0 <= k < doc.desc_from(i, limit).len() ==> exists|j: int|
                #[trigger] doc.walk_positions(i, limit).contains(j) && doc.para_contribution(j)
                    == seq![doc.desc_from(i, limit)[k]],
    decreases (if i < limit { limit - i } else { 0 }),
{
    if i >= limit {
    } else if doc.is_examples_block(i) {
    } else {
        assert(doc.wf_node(i));
        let e = doc.end_of(i);
        lemma_desc_entries(doc, e, limit);
        let pos = doc.walk_positions(i, limit);
        let rest = doc.walk_positions(e, limit);
        let cont = doc.para_contribution(i);
        let desc = doc.desc_from(i, limit);
        let rdesc = doc.desc_from(e, limit);
        assert(pos == seq![i] + rest);
        assert(desc == cont + rdesc);
        assert(pos[0] == i);
        assert(pos.contains(i));
        assert forall|k: int| #![trigger desc[k]] 0 <= k < desc.len() implies exists|j: int|
            #[trigger] pos.contains(j) && doc.para_contribution(j) == seq![desc[k]] by {
            if k < cont.len() {
                assert(desc[k] == cont[k]);
                assert(cont =~= seq![desc[k]]);
            } else {
                assert(desc[k] == rdesc[k - cont.len()]);
                let j = choose|j: int|
                    #[trigger] rest.contains(j) && doc.para_contribution(j) == seq![
                        rdesc[k - cont.len()],
                    ];
                let idx = choose|idx: int| 0 <= idx < rest.len() && rest[idx] == j;
                assert(pos[idx + 1] == j);
                assert(pos.contains(j));
            }
        }
    }
}

/// The sibling walk is forward-only and order-preserving: the positions the
/// description walk of a section visits increase strictly in document order.
pub proof fn lemma_description_forward_walk(doc: Document, s: int)
    requires
        doc.wf(),
        0 <= s < doc.len(),
    ensures
        forall|k1: int, k2: int|
            0 <= k1 < k2 < doc.description_positions(s).len() ==> doc.description_positions(s)[k1]
                < doc.description_positions(s)[k2],
{
    match doc.node(s).parent {
        Some(p) => {
            assert(doc.wf_node(s));
            assert(doc.wf_node(p as int));
            lemma_walk_properties(doc, doc.end_of(s), doc.end_of(p as int));
        },
        None => {},
    }
}

/// Whether the k-th description entry of the section at `s` is the
/// contribution of some sibling the walk visits.
pub open spec fn entry_is_contributed(doc: Document, s: int, k: int) -> bool {
    exists|j: int|
        #[trigger] doc.description_positions(s).contains(j) && doc.para_contribution(j) == seq![
            doc.description_spec(s)[k],
        ]
}

/// Description text never comes from or after the boundary element: every
/// sibling the walk visits lies strictly before the walk's stop position and
/// is itself no examples block, and whenever a visited sibling contributes a
/// paragraph text, the text node it reads also lies strictly before the stop
/// position — even when the boundary element holds paragraph children of its
/// own, none of them is ever read.
pub proof fn lemma_description_stops_at_boundary(doc: Document, s: int)
    requires
        doc.wf(),
        0 <= s < doc.len(),
    ensures
        forall|j: int| #[trigger]
            doc.description_positions(s).contains(j) ==> s < j && j < doc.description_stop(s)
                && !doc.is_examples_block(j) && (doc.para_contribution(j).len() > 0 ==> j + 1
                < doc.description_stop(s)),
        forall|k: int|
            0 <= k < doc.description_spec(s).len() ==> #[trigger] entry_is_contributed(doc, s, k),
{
    match doc.node(s).parent {
        Some(p) => {
            assert(doc.wf_node(s));
            assert(doc.wf_node(p as int));
            let limit = doc.end_of(p as int);
            lemma_walk_properties(doc, doc.end_of(s), limit);
            lemma_desc_entries(doc, doc.end_of(s), limit);
            assert forall|k: int|
                0 <= k < doc.description_spec(s).len() implies entry_is_contributed(doc, s, k) by {
                assert(doc.description_spec(s) == doc.desc_from(doc.end_of(s), limit));
                assert(doc.description_spec(s)[k] == doc.desc_from(doc.end_of(s), limit)[k]);
                let j = choose|j: int|
                    #[trigger] doc.walk_positions(doc.end_of(s), limit).contains(j)
                        && doc.para_contribution(j) == seq![
                        doc.desc_from(doc.end_of(s), limit)[k],
                    ];
                assert(doc.description_positions(s).contains(j) && doc.para_contribution(j)
                    == seq![doc.description_spec(s)[k]]);
            }
            assert forall|j: int|
                doc.description_positions(s).contains(j) implies s < j && j
                < doc.description_stop(s) && !doc.is_examples_block(j) && (doc.para_contribution(
                j,
            ).len() > 0 ==> j + 1 < doc.description_stop(s)) by {
                assert(doc.end_of(s) <= j);
                if doc.para_contribution(j).len() > 0 {
                    assert(p < j < doc.len());
                    assert(j < doc.end_of(p as int));
                    assert(doc.end_of(j) <= doc.end_of(p as int));
                    assert(j + 1 < doc.end_of(j));
                }
            }
        },
        None => {
            assert(doc.description_spec(s).len() == 0);
        },
    }
}

proof fn lemma_lis_in_props(doc: Document, from: int, to: int)
    ensures
        forall|k: int|
            0 <= k < doc.lis_in(from, to).len() ==> from <= #[trigger] doc.lis_in(from, to)[k] < to
                && doc.is_element(doc.lis_in(from, to)[k]) && doc.tag_of(doc.lis_in(from, to)[k])
                == "li"@,
        forall|k1: int, k2: int|
            0 <= k1 < k2 < doc.lis_in(from, to).len() ==> doc.lis_in(from, to)[k1] < doc.lis_in(
                from,
                to,
            )[k2],
    decreases to - from,
{
    if from >= to {
    } else {
        lemma_lis_in_props(doc, from + 1, to);
        let rest = doc.lis_in(from + 1, to);
        let cur = doc.lis_in(from, to);
        if doc.is_element(from) && doc.tag_of(from) == "li"@ {
            assert(cur == seq![from] + rest);
            assert forall|k: int|
                0 <= k < cur.len() implies from <= cur[k] < to && doc.is_element(cur[k])
                && doc.tag_of(cur[k]) == "li"@ by {
                if k > 0 {
                    assert(cur[k] == rest[k - 1]);
                }
            }
        } else {
            assert(cur =~= rest);
        }
    }
}

/// Examples preserve document order: there is one example per list item of
/// the examples block, the k-th example is exactly the example extracted from
/// the k-th list item, and the list-item positions increase strictly in
/// document order — no reordering by content can occur.
pub proof fn lemma_examples_document_order(doc: Document)
    ensures
        doc.examples_spec().len() == doc.block_list_items().len(),
        forall|k: int|
            0 <= k < doc.examples_spec().len() ==> doc.examples_spec()[k] == doc.example_at(
                #[trigger] doc.block_list_items()[k],
            ),
        forall|k1: int, k2: int|
            0 <= k1 < k2 < doc.block_list_items().len() ==> doc.block_list_items()[k1]
                < doc.block_list_items()[k2],
        forall|k: int|
            0 <= k < doc.block_list_items().len() ==> doc.is_element(
                #[trigger] doc.block_list_items()[k],
            ) && doc.tag_of(doc.block_list_items()[k]) == "li"@,
{
    let b = doc.first_block_from(0);
    if b != doc.len() {
        lemma_lis_in_props(doc, b + 1, doc.end_of(b));
    }
}

/// Extraction is a pure function of the parsed document: any two outputs that
/// meet the extraction contracts for the same document and anchor are equal,
/// so re-running extraction on the same document yields identical output.
pub proof fn lemma_extraction_deterministic(
    doc: Document,
    anchor: Seq<char>,
    d1: Seq<Seq<char>>,
    d2: Seq<Seq<char>>,
    e1: Seq<ExampleV>,
    e2: Seq<ExampleV>,
)
    requires
        d1 == doc.description_spec(doc.first_anchor(anchor)),
        d2 == doc.description_spec(doc.first_anchor(anchor)),
        e1 == doc.examples_spec(),
        e2 == doc.examples_spec(),
    ensures
        d1 == d2,
        e1 == e2,
{
}

} // verus!
