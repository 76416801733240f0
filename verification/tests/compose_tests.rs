use casefiles::compose::{assemble, render_case};

#[test]
fn renders_case_with_sections_in_order() {
    let parts = vec![
        ("s1".to_string(), "<p>x</p>".to_string()),
        ("s2".to_string(), "<p>y</p>".to_string()),
    ];
    assert_eq!(
        render_case("A", &parts),
        "<h1>A</h1>\n<h2>s1</h2>\n<p>x</p><h2>s2</h2>\n<p>y</p>\n"
    );
}

#[test]
fn renders_case_without_sections() {
    let parts: Vec<(String, String)> = vec![];
    assert_eq!(render_case("A", &parts), "<h1>A</h1>\n\n");
}

#[test]
fn assembles_case_texts_in_given_order() {
    let texts = vec!["first\n".to_string(), "second\n".to_string(), "third\n".to_string()];
    assert_eq!(assemble(&texts), "first\nsecond\nthird\n");
}

#[test]
fn assembles_nothing_to_empty() {
    let texts: Vec<String> = vec![];
    assert_eq!(assemble(&texts), "");
}
