use casefiles::dom::DomNode;
use casefiles::extract::get_section_text;

fn el(tag: &str, attrs: Vec<(&str, &str)>, children: Vec<DomNode>) -> DomNode {
    DomNode::Element {
        name: tag.to_string(),
        attrs: attrs.iter().map(|(k, v)| (k.to_string(), v.to_string())).collect(),
        children,
    }
}

fn txt(s: &str) -> DomNode {
    DomNode::Text { text: s.to_string() }
}

fn p(s: &str) -> DomNode {
    el("p", vec![], vec![txt(s)])
}

fn container(children: Vec<DomNode>) -> DomNode {
    el("div", vec![("class", "blog-content")], children)
}

#[test]
fn stops_at_continuation_marker_and_drops_trailer() {
    let doc = container(vec![
        p("intro"),
        p("more"),
        el("b", vec![], vec![txt("Continued in PART 2")]),
        p("trailer-to-be-dropped"),
    ]);
    assert_eq!(get_section_text(&doc), "<p>intro</p>\n<p>more</p>");
}

#[test]
fn truncates_before_a_table_wherever_it_stands() {
    let doc = container(vec![
        p("a"),
        el("table", vec![], vec![el("tr", vec![], vec![])]),
        p("b"),
        p("c"),
    ]);
    assert_eq!(get_section_text(&doc), "<p>a</p>");

    let doc2 = container(vec![
        p("a"),
        p("b"),
        el("table", vec![], vec![]),
        p("after"),
        p("trailer"),
    ]);
    assert_eq!(get_section_text(&doc2), "<p>a</p>\n<p>b</p>");
}

#[test]
fn stops_before_embedded_next_section_heading() {
    let doc = container(vec![
        p("body"),
        el("div", vec![], vec![el("h3", vec![], vec![el("a", vec![("href", "next")], vec![
            txt("next part"),
        ])])]),
        p("rest"),
        p("trailer"),
    ]);
    assert_eq!(get_section_text(&doc), "<p>body</p>");
}

#[test]
fn stops_before_image_link() {
    let doc = container(vec![
        p("body"),
        el("div", vec![], vec![el("a", vec![("href", "u")], vec![el("img", vec![
            ("src", "banner"),
        ], vec![])])]),
        p("rest"),
        p("trailer"),
    ]);
    assert_eq!(get_section_text(&doc), "<p>body</p>");
}

#[test]
fn stops_at_boilerplate_footer_texts() {
    let doc = container(vec![
        p("body"),
        p("See the ENTIRE case file index here"),
        p("trailer"),
    ]);
    assert_eq!(get_section_text(&doc), "<p>body</p>");

    let doc2 = container(vec![p("body"), p("Read all of my case files today"), p("trailer")]);
    assert_eq!(get_section_text(&doc2), "<p>body</p>");
}

#[test]
fn continuation_marker_only_counts_inside_bold() {
    let doc = container(vec![p("x"), p("Continued in PART 2"), p("y"), p("trailer")]);
    assert_eq!(get_section_text(&doc), "<p>x</p>\n<p>Continued in PART 2</p>\n<p>y</p>");
}

#[test]
fn empty_container_yields_empty_body() {
    let doc = container(vec![]);
    assert_eq!(get_section_text(&doc), "");
}

#[test]
fn all_boilerplate_container_yields_empty_body() {
    let doc = container(vec![el("table", vec![], vec![]), p("trailer")]);
    assert_eq!(get_section_text(&doc), "");
}

#[test]
fn page_without_containers_yields_empty_body() {
    let doc = el("html", vec![], vec![el("div", vec![("class", "header")], vec![p("x")])]);
    assert_eq!(get_section_text(&doc), "");
}

#[test]
fn joins_multiple_containers_in_document_order() {
    let doc = el(
        "html",
        vec![],
        vec![
            container(vec![p("one"), p("trailer")]),
            el("div", vec![("class", "blogs_entrybody")], vec![p("two"), p("trailer")]),
        ],
    );
    assert_eq!(get_section_text(&doc), "<p>one</p>\n<p>two</p>");
}

#[test]
fn class_attribute_is_matched_by_word() {
    let doc = el("div", vec![("class", "wide blog-content dark")], vec![p("x"), p("t")]);
    assert_eq!(get_section_text(&doc), "<p>x</p>");

    let near_miss = el("div", vec![("class", "blog-contentx")], vec![p("x"), p("t")]);
    assert_eq!(get_section_text(&near_miss), "");
}

#[test]
fn serializes_attributes_and_nesting() {
    let doc = container(vec![
        el("p", vec![("id", "k")], vec![txt("a "), el("i", vec![], vec![txt("b")])]),
        p("second"),
        p("trailer"),
    ]);
    assert_eq!(get_section_text(&doc), "<p id=\"k\">a <i>b</i></p>\n<p>second</p>");
}

#[test]
fn extracting_twice_gives_identical_output() {
    let doc = container(vec![p("intro"), p("more"), p("trailer")]);
    assert_eq!(get_section_text(&doc), get_section_text(&doc));
    assert_eq!(get_section_text(&doc), "<p>intro</p>\n<p>more</p>");
}
