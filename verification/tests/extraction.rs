use rustybins::dom::{
    check_wf, first_child, next_sibling, node_has_class, node_id, node_is_element, node_is_text,
    node_tag_name, text_content, Document, Node, NodeData,
};
use rustybins::extract::{extract_description, extract_examples, locate, report};

fn el(tag: &str, id: Option<&str>, classes: &[&str], end: usize, parent: Option<usize>) -> Node {
    Node {
        data: NodeData::Element {
            tag: tag.to_string(),
            id: id.map(|s| s.to_string()),
            classes: classes.iter().map(|s| s.to_string()).collect(),
        },
        subtree_end: end,
        parent,
    }
}

fn txt(text: &str, end: usize, parent: Option<usize>) -> Node {
    Node {
        data: NodeData::Text { text: text.to_string() },
        subtree_end: end,
        parent,
    }
}

/// A page with a `#sudo` section, two description paragraphs, and one
/// examples block holding one list item with a caption and a code fragment.
fn sudo_page() -> Document {
    let doc = Document {
        nodes: vec![
            el("body", None, &[], 13, None),
            el("h2", Some("sudo"), &[], 2, Some(0)),
            el("p", None, &[], 4, Some(0)),
            txt("Desc A", 4, Some(2)),
            el("p", None, &[], 6, Some(0)),
            txt("Desc B", 6, Some(4)),
            el("div", None, &["examples"], 13, Some(0)),
            el("li", None, &[], 13, Some(6)),
            el("p", None, &[], 10, Some(7)),
            txt("Run sudo", 10, Some(8)),
            el("pre", None, &[], 13, Some(7)),
            el("code", None, &[], 13, Some(10)),
            txt("sudo id", 13, Some(11)),
        ],
    };
    assert!(check_wf(&doc));
    doc
}

#[test]
fn sudo_page_description_and_example() {
    let doc = sudo_page();
    let s = locate(&doc, "sudo").expect("section should be found");
    assert_eq!(s, 1);
    let desc = extract_description(&doc, s);
    assert_eq!(desc, vec!["Desc A".to_string(), "Desc B".to_string()]);
    let examples = extract_examples(&doc);
    assert_eq!(examples.len(), 1);
    assert_eq!(examples[0].captions, vec!["Run sudo".to_string()]);
    assert_eq!(examples[0].codes, vec!["sudo id".to_string()]);
}

#[test]
fn absent_anchor_reports_nothing() {
    let doc = sudo_page();
    assert!(locate(&doc, "suid").is_none());
    let rep = report(&doc, "suid");
    assert!(!rep.found);
    assert!(rep.description.is_empty());
    assert!(rep.examples.is_empty());
}

#[test]
fn found_anchor_report_carries_content() {
    let doc = sudo_page();
    let rep = report(&doc, "sudo");
    assert!(rep.found);
    assert_eq!(rep.description, vec!["Desc A".to_string(), "Desc B".to_string()]);
    assert_eq!(rep.examples.len(), 1);
}

#[test]
fn section_without_paragraphs_has_empty_description() {
    // The section is immediately followed by the examples block.
    let doc = Document {
        nodes: vec![
            el("body", None, &[], 4, None),
            el("h2", Some("shell"), &[], 2, Some(0)),
            el("div", None, &["examples"], 4, Some(0)),
            el("li", None, &[], 4, Some(2)),
        ],
    };
    assert!(check_wf(&doc));
    let s = locate(&doc, "shell").expect("section should be found");
    let desc = extract_description(&doc, s);
    assert!(desc.is_empty());
}

#[test]
fn boundary_paragraphs_are_never_collected() {
    // The examples block itself holds a paragraph child; it must not leak
    // into the description, nor may anything after the boundary.
    let doc = Document {
        nodes: vec![
            el("body", None, &[], 9, None),
            el("h2", Some("suid"), &[], 2, Some(0)),
            el("p", None, &[], 4, Some(0)),
            txt("Before", 4, Some(2)),
            el("div", None, &["examples"], 7, Some(0)),
            el("p", None, &[], 7, Some(4)),
            txt("Inside boundary", 7, Some(5)),
            el("p", None, &[], 9, Some(0)),
            txt("After boundary", 9, Some(7)),
        ],
    };
    assert!(check_wf(&doc));
    let s = locate(&doc, "suid").expect("section should be found");
    let desc = extract_description(&doc, s);
    assert_eq!(desc, vec!["Before".to_string()]);
}

#[test]
fn examples_keep_document_order() {
    let doc = Document {
        nodes: vec![
            el("body", None, &[], 14, None),
            el("div", None, &["examples"], 14, Some(0)),
            el("li", None, &[], 5, Some(1)),
            el("p", None, &[], 5, Some(2)),
            txt("first", 5, Some(3)),
            el("li", None, &[], 9, Some(1)),
            el("pre", None, &[], 9, Some(5)),
            el("code", None, &[], 9, Some(6)),
            txt("second", 9, Some(7)),
            el("li", None, &[], 14, Some(1)),
            el("p", None, &[], 12, Some(9)),
            txt("third", 12, Some(10)),
            el("pre", None, &[], 14, Some(9)),
            el("code", None, &[], 14, Some(12)),
        ],
    };
    assert!(check_wf(&doc));
    let examples = extract_examples(&doc);
    assert_eq!(examples.len(), 3);
    assert_eq!(examples[0].captions, vec!["first".to_string()]);
    assert!(examples[0].codes.is_empty());
    assert!(examples[1].captions.is_empty());
    assert_eq!(examples[1].codes, vec!["second".to_string()]);
    assert_eq!(examples[2].captions, vec!["third".to_string()]);
    assert_eq!(examples[2].codes, vec!["".to_string()]);
}

#[test]
fn rerunning_extraction_gives_identical_output() {
    let doc = sudo_page();
    let s = locate(&doc, "sudo").expect("section should be found");
    let d1 = extract_description(&doc, s);
    let d2 = extract_description(&doc, s);
    assert_eq!(d1, d2);
    let e1 = extract_examples(&doc);
    let e2 = extract_examples(&doc);
    assert_eq!(e1.len(), e2.len());
    for (a, b) in e1.iter().zip(e2.iter()) {
        assert_eq!(a.captions, b.captions);
        assert_eq!(a.codes, b.codes);
    }
}

#[test]
fn no_examples_block_yields_no_examples() {
    let doc = Document {
        nodes: vec![
            el("body", None, &[], 5, None),
            el("h2", Some("sudo"), &[], 2, Some(0)),
            el("p", None, &[], 4, Some(0)),
            txt("Some description", 4, Some(2)),
            el("li", None, &[], 5, Some(0)),
        ],
    };
    assert!(check_wf(&doc));
    let examples = extract_examples(&doc);
    assert!(examples.is_empty());
    let rep = report(&doc, "sudo");
    assert!(rep.found);
    assert!(rep.examples.is_empty());
}

#[test]
fn paragraph_without_text_child_contributes_nothing() {
    // A paragraph whose first child is an element, and one with no child at
    // all, both contribute nothing; the one with text still does.
    let doc = Document {
        nodes: vec![
            el("body", None, &[], 8, None),
            el("h2", Some("bin"), &[], 2, Some(0)),
            el("p", None, &[], 4, Some(0)),
            el("em", None, &[], 4, Some(2)),
            el("p", None, &[], 5, Some(0)),
            el("p", None, &[], 7, Some(0)),
            txt("  kept  ", 7, Some(5)),
            el("div", None, &["examples"], 8, Some(0)),
        ],
    };
    assert!(check_wf(&doc));
    let s = locate(&doc, "bin").expect("section should be found");
    let desc = extract_description(&doc, s);
    assert_eq!(desc, vec!["kept".to_string()]);
}

#[test]
fn text_content_concatenates_in_document_order() {
    let doc = Document {
        nodes: vec![
            el("body", None, &[], 6, None),
            el("p", None, &[], 6, Some(0)),
            txt("a", 3, Some(1)),
            el("em", None, &[], 5, Some(1)),
            txt("b", 5, Some(3)),
            txt("c", 6, Some(1)),
        ],
    };
    assert!(check_wf(&doc));
    assert_eq!(text_content(&doc, 1), "abc".to_string());
}

#[test]
fn only_the_first_examples_block_is_surfaced() {
    // Site convention: one examples block per page. When a page held two,
    // only the first would be read — the documented scoping rule.
    let doc = Document {
        nodes: vec![
            el("body", None, &[], 9, None),
            el("div", None, &["examples"], 5, Some(0)),
            el("li", None, &[], 5, Some(1)),
            el("p", None, &[], 5, Some(2)),
            txt("from the first block", 5, Some(3)),
            el("div", None, &["examples"], 9, Some(0)),
            el("li", None, &[], 9, Some(5)),
            el("p", None, &[], 9, Some(6)),
            txt("from the second block", 9, Some(7)),
        ],
    };
    assert!(check_wf(&doc));
    let examples = extract_examples(&doc);
    assert_eq!(examples.len(), 1);
    assert_eq!(examples[0].captions, vec!["from the first block".to_string()]);
}

#[test]
fn node_operations_reflect_the_tree() {
    let doc = sudo_page();
    assert!(node_is_element(&doc, 1));
    assert!(!node_is_text(&doc, 1));
    assert!(node_is_text(&doc, 3));
    assert_eq!(node_tag_name(&doc, 1), "h2".to_string());
    assert_eq!(node_tag_name(&doc, 3), "".to_string());
    assert_eq!(node_id(&doc, 1), Some("sudo".to_string()));
    assert_eq!(node_id(&doc, 2), None);
    assert!(node_has_class(&doc, 6, "examples"));
    assert!(!node_has_class(&doc, 6, "Examples"));
    assert!(!node_has_class(&doc, 3, "examples"));
    // the h2 section's siblings: first paragraph, second paragraph, block
    assert_eq!(next_sibling(&doc, 1), Some(2));
    assert_eq!(next_sibling(&doc, 2), Some(4));
    assert_eq!(next_sibling(&doc, 4), Some(6));
    assert_eq!(next_sibling(&doc, 6), None);
    assert_eq!(next_sibling(&doc, 0), None);
    // children
    assert_eq!(first_child(&doc, 2), Some(3));
    assert_eq!(first_child(&doc, 1), None);
}

#[test]
fn malformed_node_array_is_rejected() {
    // A subtree interval that escapes its parent's interval fails the check.
    let doc = Document {
        nodes: vec![el("body", None, &[], 2, None), el("p", None, &[], 3, Some(0))],
    };
    assert!(!check_wf(&doc));
}
