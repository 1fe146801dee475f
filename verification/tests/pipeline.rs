use rustybins::dom::{check_wf, Document, Node, NodeData};
use rustybins::run::{
    anchor_id, bin_outcome, build_url, deep_link, process_all, status_is_success, BinOutcome,
    PageFetch,
};
use rustybins::text::{str_eq, trim};

fn element(tag: &str, id: Option<&str>, end: usize, parent: Option<usize>) -> Node {
    Node {
        data: NodeData::Element {
            tag: tag.to_string(),
            id: id.map(|s| s.to_string()),
            classes: Vec::new(),
        },
        subtree_end: end,
        parent,
    }
}

fn page_with_section(anchor: &str) -> Document {
    let doc = Document {
        nodes: vec![
            element("body", None, 2, None),
            element("h2", Some(anchor), 2, Some(0)),
        ],
    };
    assert!(check_wf(&doc));
    doc
}

#[test]
fn url_is_base_plus_bin() {
    assert_eq!(
        build_url("bash"),
        "https://gtfobins.github.io/gtfobins/bash".to_string()
    );
}

#[test]
fn anchor_id_replaces_spaces_with_dashes() {
    assert_eq!(anchor_id("bind shell"), "bind-shell".to_string());
    assert_eq!(anchor_id("suid"), "suid".to_string());
}

#[test]
fn deep_link_combines_url_and_anchor() {
    assert_eq!(
        deep_link("https://gtfobins.github.io/gtfobins/bash", "suid"),
        "https://gtfobins.github.io/gtfobins/bash/#suid".to_string()
    );
}

#[test]
fn success_statuses_are_the_two_hundreds() {
    assert!(status_is_success(200));
    assert!(status_is_success(299));
    assert!(!status_is_success(199));
    assert!(!status_is_success(300));
    assert!(!status_is_success(404));
}

#[test]
fn http_error_is_a_fetch_failure() {
    let fetch = PageFetch::Response { status: 404, doc: page_with_section("suid") };
    assert!(matches!(bin_outcome(&fetch, "suid"), BinOutcome::FetchFailed));
}

#[test]
fn network_error_is_a_fetch_failure() {
    assert!(matches!(
        bin_outcome(&PageFetch::NetworkError, "suid"),
        BinOutcome::FetchFailed
    ));
}

#[test]
fn unparsable_page_is_a_parse_failure() {
    assert!(matches!(
        bin_outcome(&PageFetch::ParseError, "suid"),
        BinOutcome::ParseFailed
    ));
}

#[test]
fn absent_section_is_not_found_not_an_error() {
    let fetch = PageFetch::Response { status: 200, doc: page_with_section("shell") };
    assert!(matches!(bin_outcome(&fetch, "suid"), BinOutcome::NotFound));
}

#[test]
fn present_section_is_found() {
    let fetch = PageFetch::Response { status: 200, doc: page_with_section("suid") };
    assert!(matches!(bin_outcome(&fetch, "suid"), BinOutcome::Found { .. }));
}

#[test]
fn one_failed_fetch_leaves_the_other_binaries_processed() {
    // The page for one binary comes back with a 404; the other binaries of
    // the same run are still processed and reported.
    let fetches = vec![
        PageFetch::Response { status: 404, doc: page_with_section("suid") },
        PageFetch::Response { status: 200, doc: page_with_section("suid") },
        PageFetch::Response { status: 200, doc: page_with_section("shell") },
    ];
    let outcomes = process_all(&fetches, "suid");
    assert_eq!(outcomes.len(), 3);
    assert!(matches!(outcomes[0], BinOutcome::FetchFailed));
    assert!(matches!(outcomes[1], BinOutcome::Found { .. }));
    assert!(matches!(outcomes[2], BinOutcome::NotFound));
}

#[test]
fn trim_removes_surrounding_whitespace_only() {
    assert_eq!(trim("  sudo id \n"), "sudo id".to_string());
    assert_eq!(trim("inner  space"), "inner  space".to_string());
    assert_eq!(trim("   "), "".to_string());
}

#[test]
fn str_eq_is_character_equality() {
    assert!(str_eq("bash", "bash"));
    assert!(!str_eq("bash", "bas"));
    assert!(!str_eq("bash", "Bash"));
}
