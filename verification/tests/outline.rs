use hotcarpet::analyzer::outline::{Label, Outline, Part, outline_symbols};
use hotcarpet::analyzer::tree::{Located, SourceTree, build_tree};

fn part(data: Part, children: Vec<Outline>) -> Outline {
    SourceTree { data, children }
}

fn named(name: &str, children: Vec<Outline>) -> Outline {
    let label = Label::Fixed(name.to_string());
    part(Part::Function { label, start_line: 1, end_line: 9 }, children)
}

fn literal(children: Vec<Outline>) -> Outline {
    let label = Label::Hinted("<closure>".to_string());
    part(Part::Function { label, start_line: 2, end_line: 3 }, children)
}

fn scope(name: &str, children: Vec<Outline>) -> Outline {
    part(Part::Scope { label: Label::Fixed(name.to_string()) }, children)
}

fn binding(hint: &str, clears: bool, children: Vec<Outline>) -> Outline {
    part(Part::Binding { hint: Some(hint.to_string()), clears }, children)
}

fn rows(outlines: Vec<Outline>) -> Vec<(String, u32)> {
    let symbols = outline_symbols(&outlines).unwrap();
    symbols.into_iter().map(|s| (s.name, s.depth)).collect()
}

fn row(name: &str, depth: u32) -> (String, u32) {
    (name.to_string(), depth)
}

#[test]
fn only_functions_add_depth() {
    let inner = scope("Inner", vec![named("g", vec![])]);
    let found = rows(vec![scope("Outer", vec![named("f", vec![inner])])]);
    assert_eq!(found, vec![row("Outer.f", 1), row("Outer.Inner.g", 2)]);
}

#[test]
fn a_hint_is_used_up_by_the_first_literal() {
    let found = rows(vec![binding("f", false, vec![literal(vec![]), literal(vec![])])]);
    assert_eq!(found, vec![row("f", 1), row("<closure>", 1)]);
}

#[test]
fn a_hint_does_not_leak_into_a_function() {
    let found = rows(vec![binding("f", false, vec![named("g", vec![literal(vec![])])])]);
    assert_eq!(found, vec![row("g", 1), row("<closure>", 2)]);
}

#[test]
fn a_binding_restores_the_hint_around_it_unless_it_clears_it() {
    let kept = binding("a", false, vec![binding("b", false, vec![]), literal(vec![])]);
    assert_eq!(rows(vec![kept]), vec![row("a", 1)]);
    let cleared = binding("a", false, vec![binding("b", true, vec![]), literal(vec![])]);
    assert_eq!(rows(vec![cleared]), vec![row("<closure>", 1)]);
}

#[test]
fn a_delegate_shows_the_hint_without_using_it_up() {
    let inside = part(Part::Delegate, vec![literal(vec![])]);
    let found = rows(vec![binding("a", false, vec![inside, literal(vec![])])]);
    assert_eq!(found, vec![row("a", 1), row("a", 1)]);
}

fn listed(list: &[(u32, u32)]) -> Vec<Located<u32>> {
    list.iter().map(|&(depth, data)| Located { depth, data }).collect()
}

#[test]
fn a_listing_is_built_into_its_tree() {
    let tree = build_tree(listed(&[(0, 1), (1, 2), (2, 3), (1, 4)])).unwrap();
    assert_eq!(tree.data, 1);
    let children: Vec<u32> = tree.children.iter().map(|c| c.data).collect();
    assert_eq!(children, vec![2, 4]);
    assert_eq!(tree.children[0].children[0].data, 3);
    assert!(tree.children[1].children.is_empty());
}

#[test]
fn a_listing_that_skips_a_step_is_no_tree() {
    assert!(build_tree(listed(&[])).is_none());
    assert!(build_tree(listed(&[(1, 1)])).is_none());
    assert!(build_tree(listed(&[(0, 1), (2, 2)])).is_none());
    assert!(build_tree(listed(&[(0, 1), (0, 2)])).is_none());
}
