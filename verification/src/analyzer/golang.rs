//! Go analyzer built on the [tree-sitter](https://tree-sitter.github.io) Go
//! grammar.
//!
//! It reduces the concrete syntax tree to every function, method, and function
//! literal together with the source line range it spans. A function literal
//! bound to a name (`f := func() {}`, `var f = func() {}`, a struct field, or the
//! argument of a call) inherits that name so the leaderboard stays readable; an
//! unnamed one is recorded as `<closure>`.
//!
//! Methods are qualified by their receiver type, e.g. `Greeter.Greet` for a
//! `Greet` method on `*Greeter`. Entering a method qualifies the names of the
//! closures it contains, like a class in the TypeScript analyzer, but does not
//! increase nesting depth; only stepping into a function body does.
use vstd::prelude::*;

use super::outline::{
    Label, LabelView, Outline, OutlineView, Place, all_in_order, binding_outline, binding_view,
    call_hint, call_hint_text, found_all, function_outline, function_view, in_order,
    lines_in_order, nothing, only, outline_result, outline_symbols, put, put_all,
    recorded_all_in_order, scope_outline, scope_view,
};
use super::tree::{tree_view_parts, tree_views};
use super::treesitter::{
    Cst, CstView, accepted_trees_are_sound, borrowed_views, children_in_field, field_at,
    field_index, field_text, first_where_found, go_parse, in_field, is_kind, is_named, kind_at,
    kind_index, named_at, named_children, named_index, node_text, or_text, parse_go, parse_strict,
    parsed_tree, sound_child, sound_children, sound_tree, strict_error, text_in_field, text_of,
    text_or,
};
use super::{
    AnalyzerError, Extraction, LanguageAnalyzer, Symbol, addressable, is_addressable, str_views,
};
use crate::text::text_option;

verus! {

/// The bare name of a (possibly pointer or generic) type expression.
pub open spec fn bare_type(t: CstView, source: Seq<char>) -> Seq<char>
    decreases t,
{
    if t.data.kind == "pointer_type"@ {
        match named_at(t) {
            Some(i) => {
                proof {
                    first_where_found(t.children, is_named());
                }
                bare_type(t.children[i], source)
            },
            None => "<type>"@,
        }
    } else if t.data.kind == "generic_type"@ {
        match field_at(t, "type"@) {
            Some(i) => {
                proof {
                    first_where_found(t.children, in_field("type"@));
                }
                bare_type(t.children[i], source)
            },
            None => "<type>"@,
        }
    } else {
        node_text(t.data, source)
    }
}

/// The receiver type name of a method, with any leading `*` and generic type
/// arguments stripped: `Greeter` for `(*Greeter)`, `Stack` for `(*Stack[T])`.
pub open spec fn receiver_type(t: CstView, source: Seq<char>) -> Option<Seq<char>> {
    match field_at(t, "receiver"@) {
        Some(i) => {
            let receiver = t.children[i];
            match kind_at(receiver, "parameter_declaration"@) {
                Some(j) => {
                    let parameter = receiver.children[j];
                    match field_at(parameter, "type"@) {
                        Some(k) => Some(bare_type(parameter.children[k], source)),
                        None => None,
                    }
                },
                None => None,
            }
        },
        None => None,
    }
}

/// The simple name of a call's callee: `foo` for `foo(...)`, the trailing field
/// for member calls like `x.y.foo(...)`. `None` for anything else.
pub open spec fn callee_name(t: CstView, source: Seq<char>) -> Option<Seq<char>> {
    if t.data.kind == "identifier"@ {
        Some(node_text(t.data, source))
    } else if t.data.kind == "selector_expression"@ {
        field_text(t, "field"@, source)
    } else {
        None
    }
}

/// The text of an identifier. `None` for anything else.
pub open spec fn identifier(t: CstView, source: Seq<char>) -> Option<Seq<char>> {
    if t.data.kind == "identifier"@ {
        Some(node_text(t.data, source))
    } else {
        None
    }
}

/// The identifier a composite-literal key wraps: `handler` for the key of
/// `handler: func() {}`. Keys are `literal_element` nodes around an identifier.
pub open spec fn element_identifier(t: CstView, source: Seq<char>) -> Option<Seq<char>> {
    if t.data.kind == "literal_element"@ {
        match named_at(t) {
            Some(i) => identifier(t.children[i], source),
            None => None,
        }
    } else {
        identifier(t, source)
    }
}

/// A function node with the given label: it spans the rows of the node.
pub open spec fn function_at(label: LabelView, t: CstView, body: Seq<OutlineView>) -> OutlineView {
    function_view(label, t.data.start_row + 1, t.data.end_row + 1, body)
}

/// The outline of the syntax tree `t`.
pub open spec fn go_outline(t: CstView, source: Seq<char>) -> Seq<OutlineView>
    decreases t,
{
    let kind = t.data.kind;
    if kind == "function_declaration"@ {
        let name = text_or(field_text(t, "name"@, source), "<func>"@);
        seq![function_at(LabelView::Fixed(name), t, go_outline_all(t.children, source))]
    } else if kind == "method_declaration"@ {
        let name = text_or(field_text(t, "name"@, source), "<method>"@);
        let method = function_at(LabelView::Fixed(name), t, go_outline_all(t.children, source));
        // The method, and any closures inside it, are qualified by the receiver
        // type. Like a class, it adds no depth.
        match receiver_type(t, source) {
            Some(receiver) => seq![scope_view(LabelView::Fixed(receiver), seq![method])],
            None => seq![method],
        }
    } else if kind == "func_literal"@ {
        let label = LabelView::Hinted("<closure>"@);
        seq![function_at(label, t, go_outline_all(t.children, source))]
    } else if kind == "short_var_declaration"@ || kind == "assignment_statement"@ {
        // `f := func() {}`, `a, b := 1, func() {}`, `h = func() {}`: each
        // right-hand value goes with the identifier it is assigned to.
        proof {
            first_where_found(t.children, in_field("right"@));
        }
        match field_at(t, "right"@) {
            Some(i) => go_bindings(bound_names(t), t.children[i].children, source),
            None => Seq::empty(),
        }
    } else if kind == "var_spec"@ || kind == "const_spec"@ {
        // `var f = func() {}`, `var a, b = 1, func() {}`: one or more `name`
        // children and a `value` expression list.
        proof {
            first_where_found(t.children, in_field("value"@));
        }
        match field_at(t, "value"@) {
            Some(i) => go_bindings(
                t.children.filter(in_field("name"@)),
                t.children[i].children,
                source,
            ),
            None => Seq::empty(),
        }
    } else if kind == "call_expression"@ {
        // A call's function-literal arguments are named after their callee.
        proof {
            first_where_found(t.children, in_field("function"@));
            first_where_found(t.children, in_field("arguments"@));
        }
        let (function, callee) = match field_at(t, "function"@) {
            Some(i) => (go_outline(t.children[i], source), callee_name(t.children[i], source)),
            None => (Seq::empty(), None),
        };
        match field_at(t, "arguments"@) {
            Some(i) => function.push(
                binding_view(call_hint(callee), go_outline_all(t.children[i].children, source)),
            ),
            None => function,
        }
    } else if kind == "keyed_element"@ {
        // A struct-literal field holding a function: `T{ handler: func() {} }`.
        proof {
            first_where_found(t.children, in_field("value"@));
        }
        let key = match field_at(t, "key"@) {
            Some(i) => element_identifier(t.children[i], source),
            None => None,
        };
        match field_at(t, "value"@) {
            Some(i) => seq![binding_view(key, go_outline(t.children[i], source))],
            None => Seq::empty(),
        }
    } else {
        go_outline_all(t.children, source)
    }
}

/// The outlines of `trees`, one after the other.
pub open spec fn go_outline_all(trees: Seq<CstView>, source: Seq<char>) -> Seq<OutlineView>
    decreases trees,
{
    if trees.len() == 0 {
        Seq::empty()
    } else {
        go_outline_all(trees.drop_last(), source) + go_outline(trees.last(), source)
    }
}

/// The left-hand sides of an assignment, in order.
pub open spec fn bound_names(t: CstView) -> Seq<CstView> {
    match field_at(t, "left"@) {
        Some(i) => t.children[i].children.filter(is_named()),
        None => Seq::empty(),
    }
}

/// The named nodes among `values`, the i-th of them bound to the i-th of `names`
/// where that is a plain identifier.
pub open spec fn go_bindings(names: Seq<CstView>, values: Seq<CstView>, source: Seq<char>) -> Seq<
    OutlineView,
>
    decreases values,
{
    if values.len() == 0 {
        Seq::empty()
    } else {
        let before = go_bindings(names, values.drop_last(), source);
        let last = values.last();
        if last.data.named {
            let hint = if before.len() < names.len() {
                identifier(names[before.len() as int], source)
            } else {
                None
            };
            before.push(binding_view(hint, go_outline(last, source)))
        } else {
            before
        }
    }
}

/// A sound tree has an outline whose lines are in order.
proof fn outline_in_order(t: CstView, source: Seq<char>)
    requires
        sound_tree(t, source),
    ensures
        all_in_order(go_outline(t, source)),
    decreases t,
{
    children_in_order(t.children, source);
    if t.data.kind == "method_declaration"@ {
        let name = text_or(field_text(t, "name"@, source), "<method>"@);
        assert(in_order(
            function_at(LabelView::Fixed(name), t, go_outline_all(t.children, source)),
        ));
    }
    first_where_found(t.children, in_field("right"@));
    first_where_found(t.children, in_field("value"@));
    first_where_found(t.children, in_field("function"@));
    first_where_found(t.children, in_field("arguments"@));
    if let Some(i) = field_at(t, "right"@) {
        assert(sound_tree(t.children[i], source));
        bindings_in_order(bound_names(t), t.children[i].children, source);
    }
    if let Some(i) = field_at(t, "value"@) {
        assert(sound_tree(t.children[i], source));
        outline_in_order(t.children[i], source);
        bindings_in_order(
            t.children.filter(in_field("name"@)),
            t.children[i].children,
            source,
        );
    }
    if let Some(i) = field_at(t, "function"@) {
        assert(sound_tree(t.children[i], source));
        outline_in_order(t.children[i], source);
    }
    if let Some(i) = field_at(t, "arguments"@) {
        assert(sound_tree(t.children[i], source));
        children_in_order(t.children[i].children, source);
    }
}

proof fn children_in_order(trees: Seq<CstView>, source: Seq<char>)
    requires
        forall|i: int| 0 <= i < trees.len() ==> sound_tree(#[trigger] trees[i], source),
    ensures
        all_in_order(go_outline_all(trees, source)),
    decreases trees,
{
    if trees.len() > 0 {
        let rest = trees.drop_last();
        assert forall|i: int| 0 <= i < rest.len() implies sound_tree(
            #[trigger] rest[i],
            source,
        ) by {
            assert(rest[i] == trees[i]);
        }
        children_in_order(rest, source);
        assert(sound_tree(trees[trees.len() - 1], source));
        outline_in_order(trees.last(), source);
    }
}

proof fn bindings_in_order(names: Seq<CstView>, values: Seq<CstView>, source: Seq<char>)
    requires
        forall|i: int| 0 <= i < values.len() ==> sound_tree(#[trigger] values[i], source),
    ensures
        all_in_order(go_bindings(names, values, source)),
    decreases values,
{
    if values.len() > 0 {
        let rest = values.drop_last();
        assert forall|i: int| 0 <= i < rest.len() implies sound_tree(
            #[trigger] rest[i],
            source,
        ) by {
            assert(rest[i] == values[i]);
        }
        bindings_in_order(names, rest, source);
        assert(sound_tree(values[values.len() - 1], source));
        outline_in_order(values.last(), source);
    }
}

/// No function that is recorded below a node of a Go source, wherever the walk stands,
/// ends on a line before the one it starts on.
pub proof fn go_lines_in_order(t: CstView, source: Seq<char>, place: Place)
    requires
        sound_tree(t, source),
    ensures
        lines_in_order(found_all(go_outline(t, source), place).symbols),
{
    outline_in_order(t, source);
    recorded_all_in_order(go_outline(t, source), place);
}

fn bare_type_text(node: &Cst, source: &str) -> (name: String)
    requires
        sound_tree(node@, source@),
    ensures
        name@ == bare_type(node@, source@),
    decreases node,
{
    proof {
        tree_view_parts(*node);
    }
    let inner = if is_kind(node, "pointer_type") {
        named_index(node)
    } else if is_kind(node, "generic_type") {
        field_index(node, "type")
    } else {
        return text_of(&node.data, source);
    };
    match inner {
        Some(i) => {
            proof {
                sound_child(*node, i as int, source@);
            }
            bare_type_text(&node.children[i], source)
        },
        None => "<type>".to_string(),
    }
}

fn receiver_text(node: &Cst, source: &str) -> (name: Option<String>)
    requires
        sound_tree(node@, source@),
    ensures
        text_option(name) == receiver_type(node@, source@),
{
    let receiver = match field_index(node, "receiver") {
        Some(i) => {
            proof {
                sound_child(*node, i as int, source@);
            }
            &node.children[i]
        },
        None => return None,
    };
    let parameter = match kind_index(receiver, "parameter_declaration") {
        Some(i) => {
            proof {
                sound_child(*receiver, i as int, source@);
            }
            &receiver.children[i]
        },
        None => return None,
    };
    match field_index(parameter, "type") {
        Some(i) => {
            proof {
                sound_child(*parameter, i as int, source@);
            }
            Some(bare_type_text(&parameter.children[i], source))
        },
        None => None,
    }
}

fn callee_text(node: &Cst, source: &str) -> (name: Option<String>)
    requires
        sound_tree(node@, source@),
    ensures
        text_option(name) == callee_name(node@, source@),
{
    proof {
        tree_view_parts(*node);
    }
    if is_kind(node, "identifier") {
        Some(text_of(&node.data, source))
    } else if is_kind(node, "selector_expression") {
        text_in_field(node, "field", source)
    } else {
        None
    }
}

fn identifier_text(node: &Cst, source: &str) -> (name: Option<String>)
    requires
        sound_tree(node@, source@),
    ensures
        text_option(name) == identifier(node@, source@),
{
    proof {
        tree_view_parts(*node);
    }
    if is_kind(node, "identifier") {
        Some(text_of(&node.data, source))
    } else {
        None
    }
}

fn element_identifier_text(node: &Cst, source: &str) -> (name: Option<String>)
    requires
        sound_tree(node@, source@),
    ensures
        text_option(name) == element_identifier(node@, source@),
{
    if is_kind(node, "literal_element") {
        match named_index(node) {
            Some(i) => {
                proof {
                    sound_child(*node, i as int, source@);
                }
                identifier_text(&node.children[i], source)
            },
            None => None,
        }
    } else {
        identifier_text(node, source)
    }
}

fn function_of(label: Label, node: &Cst, body: Vec<Outline>) -> (outline: Outline)
    requires
        node.data.start_row < u32::MAX,
        node.data.end_row < u32::MAX,
    ensures
        outline@ == function_at(label@, node@, tree_views(body@)),
{
    proof {
        tree_view_parts(*node);
    }
    function_outline(
        label,
        node.data.start_row as u32 + 1,
        node.data.end_row as u32 + 1,
        body,
    )
}

/// The outline of the syntax tree `node` of `source`.
pub fn outline(node: &Cst, source: &str) -> (out: Vec<Outline>)
    requires
        sound_tree(node@, source@),
    ensures
        tree_views(out@) == go_outline(node@, source@),
    decreases node,
{
    proof {
        sound_children(*node, source@);
    }
    if is_kind(node, "function_declaration") {
        let name = or_text(text_in_field(node, "name", source), "<func>");
        let body = outline_all(&node.children, source);
        only(function_of(Label::Fixed(name), node, body))
    } else if is_kind(node, "method_declaration") {
        let receiver = receiver_text(node, source);
        let name = or_text(text_in_field(node, "name", source), "<method>");
        let body = outline_all(&node.children, source);
        let method = function_of(Label::Fixed(name), node, body);
        match receiver {
            Some(receiver) => only(scope_outline(Label::Fixed(receiver), only(method))),
            None => only(method),
        }
    } else if is_kind(node, "func_literal") {
        let label = Label::Hinted("<closure>".to_string());
        let body = outline_all(&node.children, source);
        only(function_of(label, node, body))
    } else if is_kind(node, "short_var_declaration") || is_kind(node, "assignment_statement") {
        let names = match field_index(node, "left") {
            Some(i) => {
                proof {
                    sound_children(node.children@[i as int], source@);
                }
                named_children(&node.children[i].children)
            },
            None => Vec::new(),
        };
        assert(borrowed_views(names@) =~= bound_names(node@));
        match field_index(node, "right") {
            Some(i) => {
                proof {
                    sound_children(node.children@[i as int], source@);
                }
                bindings(&names, &node.children[i].children, source)
            },
            None => nothing(),
        }
    } else if is_kind(node, "var_spec") || is_kind(node, "const_spec") {
        let names = children_in_field(&node.children, "name");
        match field_index(node, "value") {
            Some(i) => {
                proof {
                    sound_children(node.children@[i as int], source@);
                }
                bindings(&names, &node.children[i].children, source)
            },
            None => nothing(),
        }
    } else if is_kind(node, "call_expression") {
        let mut out = nothing();
        let mut hint: Option<String> = None;
        if let Some(i) = field_index(node, "function") {
            put_all(&mut out, outline(&node.children[i], source));
            hint = call_hint_text(callee_text(&node.children[i], source));
        }
        if let Some(i) = field_index(node, "arguments") {
            proof {
                sound_children(node.children@[i as int], source@);
            }
            let body = outline_all(&node.children[i].children, source);
            put(&mut out, binding_outline(hint, body));
        }
        out
    } else if is_kind(node, "keyed_element") {
        let key = match field_index(node, "key") {
            Some(i) => element_identifier_text(&node.children[i], source),
            None => None,
        };
        match field_index(node, "value") {
            Some(i) => only(binding_outline(key, outline(&node.children[i], source))),
            None => nothing(),
        }
    } else {
        outline_all(&node.children, source)
    }
}

/// The outlines of `nodes`, one after the other.
fn outline_all(nodes: &Vec<Cst>, source: &str) -> (out: Vec<Outline>)
    requires
        forall|i: int| 0 <= i < nodes@.len() ==> sound_tree((#[trigger] nodes@[i])@, source@),
    ensures
        tree_views(out@) == go_outline_all(tree_views(nodes@), source@),
    decreases nodes,
{
    let ghost views = tree_views(nodes@);
    let mut out = nothing();
    let mut i: usize = 0;
    while i < nodes.len()
        invariant
            i <= nodes@.len(),
            views == tree_views(nodes@),
            forall|i: int| 0 <= i < nodes@.len() ==> sound_tree((#[trigger] nodes@[i])@, source@),
            tree_views(out@) == go_outline_all(views.take(i as int), source@),
        decreases nodes@.len() - i,
    {
        assert(views.take(i + 1).drop_last() =~= views.take(i as int));
        put_all(&mut out, outline(&nodes[i], source));
        i += 1;
    }
    assert(views.take(i as int) =~= views);
    out
}

/// The named nodes among `values`, each bound to its name.
fn bindings(names: &Vec<&Cst>, values: &Vec<Cst>, source: &str) -> (out: Vec<Outline>)
    requires
        forall|i: int| 0 <= i < names@.len() ==> sound_tree((#[trigger] names@[i])@, source@),
        forall|i: int| 0 <= i < values@.len() ==> sound_tree((#[trigger] values@[i])@, source@),
    ensures
        tree_views(out@) == go_bindings(borrowed_views(names@), tree_views(values@), source@),
    decreases values,
{
    let ghost views = tree_views(values@);
    let ghost name_views = borrowed_views(names@);
    let mut out = nothing();
    let mut i: usize = 0;
    while i < values.len()
        invariant
            i <= values@.len(),
            views == tree_views(values@),
            name_views == borrowed_views(names@),
            forall|i: int| 0 <= i < names@.len() ==> sound_tree((#[trigger] names@[i])@, source@),
            forall|i: int|
                0 <= i < values@.len() ==> sound_tree((#[trigger] values@[i])@, source@),
            tree_views(out@) == go_bindings(name_views, views.take(i as int), source@),
        decreases values@.len() - i,
    {
        proof {
            tree_view_parts(values@[i as int]);
            assert(views.take(i + 1).drop_last() =~= views.take(i as int));
        }
        if values[i].data.named {
            let hint = if out.len() < names.len() {
                assert(name_views[out@.len() as int] == names@[out@.len() as int]@);
                identifier_text(names[out.len()], source)
            } else {
                None
            };
            put(&mut out, binding_outline(hint, outline(&values[i], source)));
        }
        i += 1;
    }
    assert(views.take(i as int) =~= views);
    out
}

/// The symbols of a Go source.
pub open spec fn go_symbols(source: Seq<char>) -> Extraction {
    if !addressable(source) {
        Err(AnalyzerError::TooLong)
    } else {
        match strict_error(go_parse(source), source) {
            Some(e) => Err(e),
            None => outline_result(go_outline(parsed_tree(go_parse(source)), source)),
        }
    }
}

/// No symbol of a Go source ends on a line before the one it starts on.
pub proof fn go_symbols_in_order(source: Seq<char>)
    ensures
        go_symbols(source) matches Ok(symbols) ==> lines_in_order(symbols),
{
    let parsed = go_parse(source);
    if addressable(source) && strict_error(parsed, source) is None {
        accepted_trees_are_sound(parsed, source);
        let place = Place { scopes: Seq::empty(), hint: None, depth: 0 };
        go_lines_in_order(parsed_tree(parsed), source, place);
    }
}

/// The analyzer of Go sources.
pub struct GoAnalyzer;

impl LanguageAnalyzer for GoAnalyzer {
    open spec fn language(&self) -> Seq<char> {
        "Go"@
    }

    open spec fn own_extensions(&self) -> Seq<Seq<char>> {
        seq!["go"@]
    }

    open spec fn gives(&self, path: Seq<char>, source: Seq<char>, symbols: Extraction) -> bool {
        symbols == go_symbols(source)
    }

    fn name(&self) -> (name: &'static str) {
        "Go"
    }

    fn extensions(&self) -> (list: &'static [&'static str]) {
        let list: &'static [&'static str] = &["go"];
        assert(str_views(list@) =~= self.own_extensions());
        list
    }

    fn extract_symbols(&self, path: &str, source: &str) -> (symbols: Result<
        Vec<Symbol>,
        AnalyzerError,
    >) {
        if !is_addressable(source) {
            return Err(AnalyzerError::TooLong);
        }
        match parse_strict(parse_go(source), source) {
            Ok(tree) => outline_symbols(&outline(&tree, source)),
            Err(e) => Err(e),
        }
    }
}

} // verus!
