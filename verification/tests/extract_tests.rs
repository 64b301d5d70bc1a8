use booktrans::extract::{extract, Node};

fn el(tag: &str, children: Vec<Node>) -> Node {
    Node::Element { tag: tag.to_string(), children }
}

fn txt(content: &str) -> Node {
    Node::Text { content: content.to_string() }
}

fn other(children: Vec<Node>) -> Node {
    Node::Other { children }
}

fn tags(names: &[&str]) -> Vec<String> {
    names.iter().map(|s| s.to_string()).collect()
}

#[test]
fn blacklisted_subtree_contributes_nothing() {
    // An allow-matching element nested inside a blacklisted one stays silent.
    let tree = el("div", vec![el("rt", vec![el("p", vec![txt("noise")])])]);
    let out = extract(&tree, &tags(&["p"]), &tags(&["rt"]));
    assert_eq!(out, "");
}

#[test]
fn allow_match_includes_all_descendant_text() {
    let tree = el(
        "p",
        vec![txt("Hello "), el("span", vec![txt("World")]), txt("!")],
    );
    let out = extract(&tree, &tags(&["p"]), &tags(&[]));
    assert_eq!(out, "Hello World!");
}

#[test]
fn newline_text_included_under_blacklist() {
    // The newline safety net overrides even a blacklisted context.
    let tree = el("rt", vec![txt("a\nb")]);
    let out = extract(&tree, &tags(&["p"]), &tags(&["rt"]));
    assert_eq!(out, "a\nb");
}

#[test]
fn newline_text_included_outside_allow_list() {
    let tree = el("div", vec![txt("\n"), el("p", vec![txt("body")]), txt("\n")]);
    let out = extract(&tree, &tags(&["p"]), &tags(&[]));
    assert_eq!(out, "\nbody\n");
}

#[test]
fn plain_text_outside_allow_list_is_dropped() {
    let tree = el("div", vec![txt("menu"), el("p", vec![txt("body")])]);
    let out = extract(&tree, &tags(&["p"]), &tags(&[]));
    assert_eq!(out, "body");
}

#[test]
fn ruby_annotation_suppressed_inside_paragraph() {
    // The default-style use: paragraphs allowed, ruby readings blacklisted.
    let tree = el(
        "p",
        vec![txt("kanji"), el("rt", vec![txt("reading")]), txt(" rest")],
    );
    let out = extract(&tree, &tags(&["p"]), &tags(&["rt"]));
    assert_eq!(out, "kanji rest");
}

#[test]
fn other_nodes_pass_context_through() {
    let tree = other(vec![el("p", vec![other(vec![txt("inner")])])]);
    let out = extract(&tree, &tags(&["p"]), &tags(&[]));
    assert_eq!(out, "inner");
}

#[test]
fn multiple_allow_matches_are_idempotent() {
    let tree = el("p", vec![el("p", vec![txt("once")])]);
    let out = extract(&tree, &tags(&["p"]), &tags(&[]));
    assert_eq!(out, "once");
}

#[test]
fn empty_element_contributes_nothing() {
    let tree = el("p", vec![]);
    let out = extract(&tree, &tags(&["p"]), &tags(&[]));
    assert_eq!(out, "");
}

#[test]
fn document_order_is_kept() {
    let tree = other(vec![
        el("p", vec![txt("first")]),
        el("div", vec![txt("skipped")]),
        el("p", vec![txt("second")]),
    ]);
    let out = extract(&tree, &tags(&["p"]), &tags(&[]));
    assert_eq!(out, "firstsecond");
}
