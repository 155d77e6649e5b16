//! Scala analyzer built on the [tree-sitter](https://tree-sitter.github.io)
//! Scala grammar (Scala 2 and 3, brace and indentation syntax).
//!
//! It reduces the concrete syntax tree to every `def`, lambda, and
//! partial-function literal together with the source line range it spans. A
//! lambda bound to a name (`val f = x => ...`) inherits that name so the
//! leaderboard stays readable. One passed to a call is named after its callee,
//! whether applied with dot, infix, curried, or Scala 3 colon syntax, so
//! `xs.map(x => ...)` and `xs.map: x =>` both become `map()`. An unnamed one is
//! recorded as `<lambda>` (`<partial>` for a bare `{ case ... }` literal). A
//! secondary constructor (`def this(..)`) is recorded as `<constructor>`. A def
//! whose body is itself a function literal (`def receive = { case ... }`) is
//! recorded once, under the def's name.
//!
//! Methods are qualified by the enclosing `class` / `object` / `trait` / `enum` /
//! `given` / `package object` names, e.g. `Outer.Inner.method`. An anonymous
//! class body (`new Type { ... }`) and an enum case body add the type or case
//! name as a segment. Entering a type qualifies names but does not increase
//! nesting depth. Only stepping into a function body does. Bodiless abstract
//! `def`s carry no code, so they are not recorded.
use vstd::prelude::*;

use super::outline::{
    Label, LabelView, Outline, OutlineView, Place, all_in_order, binding_outline, binding_view,
    call_hint, call_hint_text, found_all, in_scope, in_scope_view, lines_in_order, nothing, only,
    outline_result, outline_symbols, put, put_all, recorded_all_in_order,
};
use super::tree::{tree_view_parts, tree_views};
use super::treesitter::{
    Cst, CstView, accepted_trees_are_sound, content_function, content_function_of, field_at,
    field_index, field_text, first_where, first_where_found, in_field, is_kind, is_named, kind_at,
    kind_index, last_named, last_where, named_at, named_index, node_text, or_text, parent_view,
    parse_scala, parse_strict, parsed_tree, scala_parse, sound_child, sound_children, sound_tree,
    strict_error, text_in_field, text_of, text_or,
};
use super::{
    AnalyzerError, Extraction, LanguageAnalyzer, Symbol, addressable, is_addressable, str_views,
};
use crate::text::{same_text, text_option};

verus! {

/// Whether the node at `index` below `parent` is the body of a
/// `function_definition` (`def f = { case ... }`, `def f = x => ...`). Such a node
/// spans the same lines as the def, which is already recorded, so recording it
/// again would only shadow the def in innermost attribution.
pub open spec fn is_function_body(parent: Option<CstView>, index: int) -> bool {
    parent matches Some(p) && p.data.kind == "function_definition"@ && field_at(p, "body"@) == Some(
        index,
    )
}

/// Whether the cases at `index` below `parent` belong to a construct around them:
/// a `match`, the handlers of a `catch`, or a def's own body.
pub open spec fn is_handled(parent: Option<CstView>, index: int) -> bool {
    ||| parent matches Some(p) && (p.data.kind == "match_expression"@ || p.data.kind
        == "catch_clause"@)
    ||| is_function_body(parent, index)
}

/// Whether a node is a plain or an operator identifier.
pub open spec fn is_identifier(t: CstView) -> bool {
    t.data.kind == "identifier"@ || t.data.kind == "operator_identifier"@
}

/// The text of a plain or an operator identifier. `None` for anything else.
pub open spec fn identifier(t: CstView, source: Seq<char>) -> Option<Seq<char>> {
    if is_identifier(t) {
        Some(node_text(t.data, source))
    } else {
        None
    }
}

/// The simple name of a call's callee: `foo` for `foo(...)`, the trailing field
/// for member calls like `xs.map(...)`, the base function for a generic call
/// `f[T](...)` and for a curried call `f(a)(b)`. `None` for anything else.
pub open spec fn callee_name(t: CstView, source: Seq<char>) -> Option<Seq<char>>
    decreases t,
{
    if is_identifier(t) {
        Some(node_text(t.data, source))
    } else if t.data.kind == "field_expression"@ {
        field_text(t, "field"@, source)
    } else if t.data.kind == "generic_function"@ || t.data.kind == "call_expression"@ {
        proof {
            first_where_found(t.children, in_field("function"@));
        }
        match field_at(t, "function"@) {
            Some(i) => callee_name(t.children[i], source),
            None => None,
        }
    } else {
        None
    }
}

/// The bare rightmost name of a type expression: `Runnable` for `a.b.Runnable`,
/// `Handler` for `Handler[Int]`.
pub open spec fn type_base_name(t: CstView, source: Seq<char>) -> Seq<char>
    decreases t,
{
    if t.data.kind == "generic_type"@ || t.data.kind == "compound_type"@ {
        proof {
            first_where_found(t.children, is_named());
        }
        match named_at(t) {
            Some(i) => type_base_name(t.children[i], source),
            None => node_text(t.data, source),
        }
    } else if t.data.kind == "stable_type_identifier"@ {
        match last_where(t.children, is_named()) {
            Some(i) => node_text(t.children[i].data, source),
            None => node_text(t.data, source),
        }
    } else {
        node_text(t.data, source)
    }
}

/// Whether a node below an `instance_expression` is the type it instantiates.
pub open spec fn is_instance_type() -> spec_fn(CstView) -> bool {
    |t: CstView|
        t.data.named && t.data.kind != "template_body"@ && t.data.kind != "arguments"@
}

/// The type an anonymous `new Type { ... }` instance implements, reduced to its
/// bare rightmost name.
pub open spec fn instance_supertype(t: CstView, source: Seq<char>) -> Option<Seq<char>> {
    match first_where(t.children, is_instance_type()) {
        Some(i) => Some(type_base_name(t.children[i], source)),
        None => None,
    }
}

/// The name a `def` is recorded under.
pub open spec fn def_name(t: CstView, source: Seq<char>) -> Seq<char> {
    let name = text_or(field_text(t, "name"@, source), "<def>"@);
    if name == "this"@ {
        "<constructor>"@
    } else {
        name
    }
}

/// The name a `val` or `var` binds, where its pattern is an identifier.
pub open spec fn bound_name(t: CstView, source: Seq<char>) -> Option<Seq<char>> {
    match field_at(t, "pattern"@) {
        Some(i) => identifier(t.children[i], source),
        None => None,
    }
}

/// Whether a node names a scope for everything inside it. An enum case scopes its
/// body so two cases overriding the same member stay distinct.
pub open spec fn is_scope(t: CstView) -> bool {
    let kind = t.data.kind;
    ||| kind == "class_definition"@
    ||| kind == "object_definition"@
    ||| kind == "trait_definition"@
    ||| kind == "enum_definition"@
    ||| kind == "given_definition"@
    ||| kind == "package_object"@
    ||| kind == "simple_enum_case"@
    ||| kind == "full_enum_case"@
}

/// The outline of the child of `t` in `field`, if there is one.
pub open spec fn scala_field_outline(t: CstView, field: Seq<char>, source: Seq<char>) -> Seq<
    OutlineView,
>
    decreases t, 0int,
{
    proof {
        first_where_found(t.children, in_field(field));
    }
    match field_at(t, field) {
        Some(i) => scala_outline(t.children[i], Some(t), i, source),
        None => Seq::empty(),
    }
}

/// The outline of the syntax tree `t`, the child at `index` of `parent`.
pub open spec fn scala_outline(
    t: CstView,
    parent: Option<CstView>,
    index: int,
    source: Seq<char>,
) -> Seq<OutlineView>
    decreases t, t.children.len() + 1,
{
    let kind = t.data.kind;
    let all = scala_outline_all(t, t.children.len() as int, source);
    if is_scope(t) {
        in_scope_view(field_text(t, "name"@, source), all)
    } else if kind == "instance_expression"@ {
        // An anonymous class body (`new Type { ... }`) scopes its members under
        // the type name, keeping them apart from the enclosing type's own.
        match kind_at(t, "template_body"@) {
            Some(body) => scala_instance_outline(
                t,
                body,
                text_or(instance_supertype(t, source), "<anon>"@),
                t.children.len() as int,
                source,
            ),
            None => all,
        }
    } else if kind == "function_definition"@ {
        // A bodiless abstract `def` is a separate kind and is not recorded.
        seq![content_function(LabelView::Fixed(def_name(t, source)), t, all)]
    } else if kind == "lambda_expression"@ {
        if is_function_body(parent, index) {
            all
        } else {
            seq![content_function(LabelView::Hinted("<lambda>"@), t, all)]
        }
    } else if kind == "case_block"@ || kind == "indented_cases"@ {
        if is_handled(parent, index) {
            all
        } else {
            seq![content_function(LabelView::Hinted("<partial>"@), t, all)]
        }
    } else if kind == "colon_argument"@ {
        // In `xs.map: x =>` plus an indented body the closure has no
        // `lambda_expression` of its own: the `colon_argument` is the literal.
        if field_at(t, "lambda_start"@) is Some {
            seq![content_function(LabelView::Hinted("<lambda>"@), t, all)]
        } else {
            all
        }
    } else if kind == "val_definition"@ || kind == "var_definition"@ {
        match field_at(t, "value"@) {
            Some(_) => seq![
                binding_view(bound_name(t, source), scala_field_outline(t, "value"@, source)),
            ],
            None => Seq::empty(),
        }
    } else if kind == "call_expression"@ {
        // A call's function-literal arguments are named after their callee.
        let function = scala_field_outline(t, "function"@, source);
        let callee = match field_at(t, "function"@) {
            Some(i) => callee_name(t.children[i], source),
            None => None,
        };
        match field_at(t, "arguments"@) {
            Some(_) => function.push(
                binding_view(call_hint(callee), scala_field_outline(t, "arguments"@, source)),
            ),
            None => function,
        }
    } else if kind == "infix_expression"@ {
        // `xs foreach { x => ... }`: the literal on the right is named after the
        // infix function, like the dot form.
        match (field_at(t, "left"@), field_at(t, "operator"@), field_at(t, "right"@)) {
            (Some(_), Some(op), Some(_)) => scala_field_outline(t, "left"@, source).push(
                binding_view(
                    call_hint(identifier(t.children[op], source)),
                    scala_field_outline(t, "right"@, source),
                ),
            ),
            _ => all,
        }
    } else {
        all
    }
}

/// The outlines of the first `n` children of `parent`, one after the other.
pub open spec fn scala_outline_all(parent: CstView, n: int, source: Seq<char>) -> Seq<OutlineView>
    decreases parent, n,
{
    if n <= 0 || n > parent.children.len() {
        Seq::empty()
    } else {
        scala_outline_all(parent, n - 1, source) + scala_outline(
            parent.children[n - 1],
            Some(parent),
            n - 1,
            source,
        )
    }
}

/// The outlines of the first `n` children of an instance expression, the one at
/// `body` inside the scope `name`.
pub open spec fn scala_instance_outline(
    t: CstView,
    body: int,
    name: Seq<char>,
    n: int,
    source: Seq<char>,
) -> Seq<OutlineView>
    decreases t, n,
{
    if n <= 0 || n > t.children.len() {
        Seq::empty()
    } else {
        let before = scala_instance_outline(t, body, name, n - 1, source);
        let child = t.children[n - 1];
        if n - 1 == body {
            before + in_scope_view(
                Some(name),
                scala_outline_all(child, child.children.len() as int, source),
            )
        } else {
            before + scala_outline(child, Some(t), n - 1, source)
        }
    }
}

/// A sound tree has an outline whose lines are in order.
proof fn outline_in_order(t: CstView, parent: Option<CstView>, index: int, source: Seq<char>)
    requires
        sound_tree(t, source),
    ensures
        all_in_order(scala_outline(t, parent, index, source)),
    decreases t, t.children.len() + 1,
{
    children_in_order(t, t.children.len() as int, source);
    field_in_order(t, "value"@, source);
    field_in_order(t, "function"@, source);
    field_in_order(t, "arguments"@, source);
    field_in_order(t, "left"@, source);
    field_in_order(t, "right"@, source);
    if let Some(body) = kind_at(t, "template_body"@) {
        let name = text_or(instance_supertype(t, source), "<anon>"@);
        instance_in_order(t, body, name, t.children.len() as int, source);
    }
}

proof fn field_in_order(t: CstView, field: Seq<char>, source: Seq<char>)
    requires
        sound_tree(t, source),
    ensures
        all_in_order(scala_field_outline(t, field, source)),
    decreases t, 0int,
{
    first_where_found(t.children, in_field(field));
    if let Some(i) = field_at(t, field) {
        assert(sound_tree(t.children[i], source));
        outline_in_order(t.children[i], Some(t), i, source);
    }
}

proof fn children_in_order(parent: CstView, n: int, source: Seq<char>)
    requires
        sound_tree(parent, source),
    ensures
        all_in_order(scala_outline_all(parent, n, source)),
    decreases parent, n,
{
    if 0 < n <= parent.children.len() {
        children_in_order(parent, n - 1, source);
        assert(sound_tree(parent.children[n - 1], source));
        outline_in_order(parent.children[n - 1], Some(parent), n - 1, source);
    }
}

proof fn instance_in_order(t: CstView, body: int, name: Seq<char>, n: int, source: Seq<char>)
    requires
        sound_tree(t, source),
    ensures
        all_in_order(scala_instance_outline(t, body, name, n, source)),
    decreases t, n,
{
    if 0 < n <= t.children.len() {
        let child = t.children[n - 1];
        instance_in_order(t, body, name, n - 1, source);
        assert(sound_tree(child, source));
        children_in_order(child, child.children.len() as int, source);
        outline_in_order(child, Some(t), n - 1, source);
    }
}

/// No function that is recorded below a node of a Scala source, wherever the walk
/// stands, ends on a line before the one it starts on.
pub proof fn scala_lines_in_order(
    t: CstView,
    parent: Option<CstView>,
    index: int,
    source: Seq<char>,
    place: Place,
)
    requires
        sound_tree(t, source),
    ensures
        lines_in_order(found_all(scala_outline(t, parent, index, source), place).symbols),
{
    outline_in_order(t, parent, index, source);
    recorded_all_in_order(scala_outline(t, parent, index, source), place);
}

fn in_function_body(parent: Option<&Cst>, index: usize) -> (is: bool)
    ensures
        is == is_function_body(parent_view(parent), index as int),
{
    match parent {
        Some(p) => if is_kind(p, "function_definition") {
            match field_index(p, "body") {
                Some(i) => i == index,
                None => false,
            }
        } else {
            false
        },
        None => false,
    }
}

fn in_handler(parent: Option<&Cst>, index: usize) -> (is: bool)
    ensures
        is == is_handled(parent_view(parent), index as int),
{
    let around = match parent {
        Some(p) => is_kind(p, "match_expression") || is_kind(p, "catch_clause"),
        None => false,
    };
    around || in_function_body(parent, index)
}

fn identifier_text(node: &Cst, source: &str) -> (name: Option<String>)
    requires
        sound_tree(node@, source@),
    ensures
        text_option(name) == identifier(node@, source@),
{
    proof {
        tree_view_parts(*node);
    }
    if is_kind(node, "identifier") || is_kind(node, "operator_identifier") {
        Some(text_of(&node.data, source))
    } else {
        None
    }
}

fn callee_text(node: &Cst, source: &str) -> (name: Option<String>)
    requires
        sound_tree(node@, source@),
    ensures
        text_option(name) == callee_name(node@, source@),
    decreases node,
{
    proof {
        tree_view_parts(*node);
    }
    if is_kind(node, "identifier") || is_kind(node, "operator_identifier") {
        Some(text_of(&node.data, source))
    } else if is_kind(node, "field_expression") {
        text_in_field(node, "field", source)
    } else if is_kind(node, "generic_function") || is_kind(node, "call_expression") {
        match field_index(node, "function") {
            Some(i) => {
                proof {
                    sound_child(*node, i as int, source@);
                }
                callee_text(&node.children[i], source)
            },
            None => None,
        }
    } else {
        None
    }
}

fn type_base_text(node: &Cst, source: &str) -> (name: String)
    requires
        sound_tree(node@, source@),
    ensures
        name@ == type_base_name(node@, source@),
    decreases node,
{
    proof {
        tree_view_parts(*node);
    }
    if is_kind(node, "generic_type") || is_kind(node, "compound_type") {
        match named_index(node) {
            Some(i) => {
                proof {
                    sound_child(*node, i as int, source@);
                }
                type_base_text(&node.children[i], source)
            },
            None => text_of(&node.data, source),
        }
    } else if is_kind(node, "stable_type_identifier") {
        match last_named(node) {
            Some(i) => {
                proof {
                    sound_child(*node, i as int, source@);
                }
                text_of(&node.children[i].data, source)
            },
            None => text_of(&node.data, source),
        }
    } else {
        text_of(&node.data, source)
    }
}

fn supertype_text(node: &Cst, source: &str) -> (name: Option<String>)
    requires
        sound_tree(node@, source@),
    ensures
        text_option(name) == instance_supertype(node@, source@),
{
    proof {
        sound_children(*node, source@);
        first_where_found(node@.children, is_instance_type());
    }
    let mut i: usize = 0;
    while i < node.children.len()
        invariant
            i <= node.children@.len() == node@.children.len(),
            sound_tree(node@, source@),
            forall|i: int|
                0 <= i < node.children@.len() ==> sound_tree(
                    (#[trigger] node.children@[i])@,
                    source@,
                ) && node@.children[i] == node.children@[i]@,
            match first_where(node@.children, is_instance_type()) {
                Some(found) => {
                    &&& i <= found < node@.children.len()
                    &&& is_instance_type()(node@.children[found])
                    &&& forall|j: int|
                        0 <= j < found ==> !is_instance_type()(#[trigger] node@.children[j])
                },
                None => forall|j: int|
                    0 <= j < node@.children.len() ==> !is_instance_type()(
                        #[trigger] node@.children[j],
                    ),
            },
        decreases node.children@.len() - i,
    {
        let child = &node.children[i];
        proof {
            tree_view_parts(*child);
            assert(node@.children[i as int] == child@);
        }
        if child.data.named && !is_kind(child, "template_body") && !is_kind(child, "arguments") {
            return Some(type_base_text(child, source));
        }
        i += 1;
    }
    None
}

fn def_text(node: &Cst, source: &str) -> (name: String)
    requires
        sound_tree(node@, source@),
    ensures
        name@ == def_name(node@, source@),
{
    let name = or_text(text_in_field(node, "name", source), "<def>");
    if same_text(name.as_str(), "this") {
        "<constructor>".to_string()
    } else {
        name
    }
}

fn bound_text(node: &Cst, source: &str) -> (name: Option<String>)
    requires
        sound_tree(node@, source@),
    ensures
        text_option(name) == bound_name(node@, source@),
{
    match field_index(node, "pattern") {
        Some(i) => {
            proof {
                sound_child(*node, i as int, source@);
            }
            identifier_text(&node.children[i], source)
        },
        None => None,
    }
}

fn names_scope(node: &Cst) -> (is: bool)
    ensures
        is == is_scope(node@),
{
    is_kind(node, "class_definition") || is_kind(node, "object_definition") || is_kind(
        node,
        "trait_definition",
    ) || is_kind(node, "enum_definition") || is_kind(node, "given_definition") || is_kind(
        node,
        "package_object",
    ) || is_kind(node, "simple_enum_case") || is_kind(node, "full_enum_case")
}

/// The outline of the child of `node` in `field`, if there is one.
fn outline_field(node: &Cst, field: &str, source: &str) -> (out: Vec<Outline>)
    requires
        sound_tree(node@, source@),
    ensures
        tree_views(out@) == scala_field_outline(node@, field@, source@),
    decreases node, 0int,
{
    match field_index(node, field) {
        Some(i) => {
            proof {
                sound_child(*node, i as int, source@);
            }
            outline_below(&node.children[i], Some(node), i, source)
        },
        None => nothing(),
    }
}

/// The outline of the syntax tree `node` of `source`, the child at `index` of
/// `parent`.
fn outline_below(node: &Cst, parent: Option<&Cst>, index: usize, source: &str) -> (out: Vec<
    Outline,
>)
    requires
        sound_tree(node@, source@),
    ensures
        tree_views(out@) == scala_outline(node@, parent_view(parent), index as int, source@),
    decreases node, node.children@.len() + 1,
{
    proof {
        sound_children(*node, source@);
    }
    if names_scope(node) {
        let name = text_in_field(node, "name", source);
        in_scope(name, outline_all(node, source))
    } else if is_kind(node, "instance_expression") {
        match kind_index(node, "template_body") {
            Some(body) => {
                let name = or_text(supertype_text(node, source), "<anon>");
                outline_instance(node, body, name, source)
            },
            None => outline_all(node, source),
        }
    } else if is_kind(node, "function_definition") {
        let label = Label::Fixed(def_text(node, source));
        only(content_function_of(label, node, outline_all(node, source), source))
    } else if is_kind(node, "lambda_expression") {
        let body = outline_all(node, source);
        if in_function_body(parent, index) {
            body
        } else {
            let label = Label::Hinted("<lambda>".to_string());
            only(content_function_of(label, node, body, source))
        }
    } else if is_kind(node, "case_block") || is_kind(node, "indented_cases") {
        let body = outline_all(node, source);
        if in_handler(parent, index) {
            body
        } else {
            let label = Label::Hinted("<partial>".to_string());
            only(content_function_of(label, node, body, source))
        }
    } else if is_kind(node, "colon_argument") {
        let body = outline_all(node, source);
        if field_index(node, "lambda_start").is_some() {
            let label = Label::Hinted("<lambda>".to_string());
            only(content_function_of(label, node, body, source))
        } else {
            body
        }
    } else if is_kind(node, "val_definition") || is_kind(node, "var_definition") {
        match field_index(node, "value") {
            Some(_) => {
                let hint = bound_text(node, source);
                only(binding_outline(hint, outline_field(node, "value", source)))
            },
            None => nothing(),
        }
    } else if is_kind(node, "call_expression") {
        let mut out = outline_field(node, "function", source);
        let callee = match field_index(node, "function") {
            Some(i) => callee_text(&node.children[i], source),
            None => None,
        };
        if field_index(node, "arguments").is_some() {
            let arguments = outline_field(node, "arguments", source);
            put(&mut out, binding_outline(call_hint_text(callee), arguments));
        }
        out
    } else if is_kind(node, "infix_expression") {
        match (
            field_index(node, "left"),
            field_index(node, "operator"),
            field_index(node, "right"),
        ) {
            (Some(_), Some(op), Some(_)) => {
                let mut out = outline_field(node, "left", source);
                let hint = call_hint_text(identifier_text(&node.children[op], source));
                put(&mut out, binding_outline(hint, outline_field(node, "right", source)));
                out
            },
            _ => outline_all(node, source),
        }
    } else {
        outline_all(node, source)
    }
}

/// The outlines of the children of `parent`, one after the other.
fn outline_all(parent: &Cst, source: &str) -> (out: Vec<Outline>)
    requires
        sound_tree(parent@, source@),
    ensures
        tree_views(out@) == scala_outline_all(
            parent@,
            parent@.children.len() as int,
            source@,
        ),
    decreases parent, parent.children@.len(),
{
    proof {
        sound_children(*parent, source@);
    }
    let mut out = nothing();
    let mut i: usize = 0;
    while i < parent.children.len()
        invariant
            i <= parent.children@.len() == parent@.children.len(),
            forall|i: int|
                0 <= i < parent.children@.len() ==> sound_tree(
                    (#[trigger] parent.children@[i])@,
                    source@,
                ) && parent@.children[i] == parent.children@[i]@,
            tree_views(out@) == scala_outline_all(parent@, i as int, source@),
        decreases parent.children@.len() - i,
    {
        put_all(&mut out, outline_below(&parent.children[i], Some(parent), i, source));
        i += 1;
    }
    out
}

/// The outlines of the children of an instance expression, the one at `body`
/// inside the scope `name`.
fn outline_instance(node: &Cst, body: usize, name: String, source: &str) -> (out: Vec<Outline>)
    requires
        sound_tree(node@, source@),
    ensures
        tree_views(out@) == scala_instance_outline(
            node@,
            body as int,
            name@,
            node@.children.len() as int,
            source@,
        ),
    decreases node, node.children@.len(),
{
    proof {
        sound_children(*node, source@);
    }
    let mut out = nothing();
    let mut i: usize = 0;
    while i < node.children.len()
        invariant
            i <= node.children@.len() == node@.children.len(),
            forall|i: int|
                0 <= i < node.children@.len() ==> sound_tree(
                    (#[trigger] node.children@[i])@,
                    source@,
                ) && node@.children[i] == node.children@[i]@,
            tree_views(out@) == scala_instance_outline(
                node@,
                body as int,
                name@,
                i as int,
                source@,
            ),
        decreases node.children@.len() - i,
    {
        if i == body {
            let members = outline_all(&node.children[i], source);
            put_all(&mut out, in_scope(Some(name.clone()), members));
        } else {
            put_all(&mut out, outline_below(&node.children[i], Some(node), i, source));
        }
        i += 1;
    }
    out
}

/// The outline of the syntax tree `node` of `source`.
pub fn outline(node: &Cst, source: &str) -> (out: Vec<Outline>)
    requires
        sound_tree(node@, source@),
    ensures
        tree_views(out@) == scala_outline(node@, None, 0, source@),
{
    outline_below(node, None, 0, source)
}

/// The symbols of a Scala source.
pub open spec fn scala_symbols(source: Seq<char>) -> Extraction {
    if !addressable(source) {
        Err(AnalyzerError::TooLong)
    } else {
        match strict_error(scala_parse(source), source) {
            Some(e) => Err(e),
            None => outline_result(
                scala_outline(parsed_tree(scala_parse(source)), None, 0, source),
            ),
        }
    }
}

/// No symbol of a Scala source ends on a line before the one it starts on.
pub proof fn scala_symbols_in_order(source: Seq<char>)
    ensures
        scala_symbols(source) matches Ok(symbols) ==> lines_in_order(symbols),
{
    let parsed = scala_parse(source);
    if addressable(source) && strict_error(parsed, source) is None {
        accepted_trees_are_sound(parsed, source);
        let place = Place { scopes: Seq::empty(), hint: None, depth: 0 };
        scala_lines_in_order(parsed_tree(parsed), None, 0, source, place);
    }
}

/// The analyzer of Scala sources.
pub struct ScalaAnalyzer;

impl LanguageAnalyzer for ScalaAnalyzer {
    open spec fn language(&self) -> Seq<char> {
        "Scala"@
    }

    open spec fn own_extensions(&self) -> Seq<Seq<char>> {
        seq!["scala"@, "sc"@]
    }

    open spec fn gives(&self, path: Seq<char>, source: Seq<char>, symbols: Extraction) -> bool {
        symbols == scala_symbols(source)
    }

    fn name(&self) -> (name: &'static str) {
        "Scala"
    }

    fn extensions(&self) -> (list: &'static [&'static str]) {
        let list: &'static [&'static str] = &["scala", "sc"];
        assert(str_views(list@) =~= self.own_extensions());
        list
    }

    fn extract_symbols(&self, path: &str, source: &str) -> (symbols: Result<
        Vec<Symbol>,
        AnalyzerError,
    >) {
        if !is_addressable(source) {
            return Err(AnalyzerError::TooLong);
        }
        match parse_strict(parse_scala(source), source) {
            Ok(tree) => outline_symbols(&outline(&tree, source)),
            Err(e) => Err(e),
        }
    }
}

} // verus!
