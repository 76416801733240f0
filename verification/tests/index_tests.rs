use casefiles::dom::DomNode;
use casefiles::index::{
    Case, EntryKind, IndexEntry, Section, StructuralViolation, get_cases, parse_entries,
};

fn heading(name: &str) -> IndexEntry {
    IndexEntry::Heading { name: name.to_string() }
}

fn link(name: &str, href: &str) -> IndexEntry {
    IndexEntry::Link { name: name.to_string(), href: Some(href.to_string()) }
}

fn section(name: &str, link: &str) -> Section {
    Section { name: name.to_string(), link: link.to_string() }
}

fn case(name: &str, sections: Vec<Section>) -> Case {
    Case { name: name.to_string(), sections }
}

fn el(tag: &str, attrs: Vec<(&str, &str)>, children: Vec<DomNode>) -> DomNode {
    DomNode::Element {
        name: tag.to_string(),
        attrs: attrs.iter().map(|(k, v)| (k.to_string(), v.to_string())).collect(),
        children,
    }
}

fn txt(s: &str) -> DomNode {
    DomNode::Text { text: s.to_string() }
}

#[test]
fn groups_links_under_headings_and_drops_footer() {
    let entries = vec![
        IndexEntry::Separator,
        heading("A"),
        link("s1", "u1"),
        link("s2", "u2"),
        heading("B"),
        link("s3", "u3"),
        IndexEntry::Separator,
        link("footer", "uf"),
    ];
    let r = parse_entries(&entries).unwrap();
    assert_eq!(
        r,
        vec![
            case("A", vec![section("s1", "u1"), section("s2", "u2")]),
            case("B", vec![section("s3", "u3")]),
        ]
    );
    for c in &r {
        for s in &c.sections {
            assert_ne!(s.name, "footer");
            assert_ne!(s.link, "uf");
        }
    }
}

#[test]
fn flushes_final_case_without_terminal_separator() {
    let entries = vec![IndexEntry::Separator, heading("A"), link("s1", "u1")];
    let r = parse_entries(&entries).unwrap();
    assert_eq!(r, vec![case("A", vec![section("s1", "u1")])]);
}

#[test]
fn empty_stream_is_missing_case_name() {
    let entries: Vec<IndexEntry> = vec![];
    assert_eq!(parse_entries(&entries), Err(StructuralViolation::MissingCaseName));
}

#[test]
fn lone_separator_is_missing_case_name() {
    let entries = vec![IndexEntry::Separator];
    assert_eq!(parse_entries(&entries), Err(StructuralViolation::MissingCaseName));
}

#[test]
fn link_in_place_of_case_name_is_reported() {
    let entries = vec![IndexEntry::Separator, link("s1", "u1")];
    assert_eq!(
        parse_entries(&entries),
        Err(StructuralViolation::UnexpectedElementKind { position: 1, kind: EntryKind::Link })
    );
}

#[test]
fn separator_in_place_of_case_name_is_reported() {
    let entries = vec![IndexEntry::Separator, IndexEntry::Separator, heading("A")];
    assert_eq!(
        parse_entries(&entries),
        Err(StructuralViolation::UnexpectedElementKind {
            position: 1,
            kind: EntryKind::Separator
        })
    );
}

#[test]
fn link_without_target_is_reported_with_its_position() {
    let entries = vec![
        IndexEntry::Separator,
        heading("A"),
        link("s1", "u1"),
        IndexEntry::Link { name: "s2".to_string(), href: None },
    ];
    assert_eq!(parse_entries(&entries), Err(StructuralViolation::MissingLinkTarget {
        position: 3,
    }));
}

#[test]
fn parses_cases_from_document_tree() {
    let content = el(
        "div",
        vec![("class", "blog-content")],
        vec![
            el("hr", vec![], vec![]),
            el("h1", vec![], vec![txt("Case One")]),
            el("a", vec![("href", "u1")], vec![txt("part 1")]),
            el("a", vec![("href", "u2")], vec![txt("part 2")]),
            el("h1", vec![], vec![txt("Case Two")]),
            el("a", vec![("href", "u3")], vec![txt("part 3")]),
            el("hr", vec![], vec![]),
            el("a", vec![("href", "uf")], vec![txt("footer link")]),
        ],
    );
    let doc = el(
        "html",
        vec![],
        vec![el("div", vec![("class", "header")], vec![el("a", vec![("href", "nav")], vec![
            txt("nav link"),
        ])]), content],
    );
    let r = get_cases(&doc).unwrap();
    assert_eq!(
        r,
        vec![
            case("Case One", vec![section("part 1", "u1"), section("part 2", "u2")]),
            case("Case Two", vec![section("part 3", "u3")]),
        ]
    );
}

#[test]
fn parsing_twice_gives_identical_output() {
    let content = el(
        "div",
        vec![("class", "blog-content")],
        vec![
            el("hr", vec![], vec![]),
            el("h1", vec![], vec![txt("A")]),
            el("a", vec![("href", "u1")], vec![txt("s1")]),
        ],
    );
    let doc = el("html", vec![], vec![content]);
    let first = get_cases(&doc);
    let second = get_cases(&doc);
    assert_eq!(first, second);
}
