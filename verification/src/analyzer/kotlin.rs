//! Kotlin analyzer built on the [tree-sitter](https://tree-sitter.github.io)
//! Kotlin grammar.
//!
//! It reduces the concrete syntax tree to every `fun`, lambda, anonymous
//! function, property accessor, secondary constructor, and `init` block together
//! with the source line range it spans. A lambda bound to a property
//! (`val f = { ... }`) or held by a property delegate (`val f by lazy { ... }`)
//! inherits that property's name so the leaderboard stays readable. A lambda
//! passed to a call is named after its callee, so `xs.map { ... }` and
//! `xs map { ... }` both become `map()`. An unnamed one is recorded as `<lambda>`
//! (`<anonymous>` for a bare `fun(...) { ... }`). A property accessor is recorded
//! as `prop.get` / `prop.set`, a secondary constructor as `<constructor>`, an
//! `init` block as `<init>`.
//!
//! Methods are qualified by the enclosing `class` / `object` / `interface` /
//! `enum class` names, e.g. `Outer.Inner.method`. An enum entry with a body and
//! an anonymous `object : Type { ... }` add a segment too (`E.ADD.apply`,
//! `C.Runnable.run`), while a `companion object` adds none, matching how its
//! members are called. Entering a type qualifies names but does not increase
//! nesting depth. Only stepping into a function body does. Bodiless declarations
//! (abstract / interface signatures) carry no code, so they are not recorded.
use vstd::prelude::*;

use super::outline::{
    Label, LabelView, Outline, OutlineView, Place, all_in_order, binding_outline, binding_view,
    call_hint, call_hint_text, delegate_outline, delegate_view, found_all, in_scope, in_scope_view,
    lines_in_order, nothing, only, outline_result, outline_symbols, put, put_all,
    recorded_all_in_order,
};
use super::tree::{tree_view_parts, tree_views};
use super::treesitter::{
    Cst, CstView, OPEN_STRINGS, Parsed, SyntaxView, accepted_trees_are_sound, content_function,
    content_function_of, is_kind, kind_at, kind_index, kind_text, kotlin_parse, last_of_kind,
    last_where, named_from, named_from_found, next_named, node_text, of_kind, or_text, parent_view,
    parse_kotlin, parse_strict, parsed_nodes, parsed_tree, sound_child, sound_children, sound_tree,
    strict_error, text_of, text_of_kind, text_or,
};
use super::{
    AnalyzerError, Extraction, LanguageAnalyzer, Symbol, SymbolView, addressable, is_addressable,
    settled, str_views, symbols_result,
};
use crate::lists::{occurrences, occurs_more_than};
use crate::text::{ascii, text_option};

verus! {

/// The name of the variable a `property_declaration` binds.
pub open spec fn property_name(t: CstView, source: Seq<char>) -> Option<Seq<char>> {
    match kind_at(t, "variable_declaration"@) {
        Some(i) => kind_text(t.children[i], "simple_identifier"@, source),
        None => None,
    }
}

/// The property declared by the nearest of the first `n` siblings, looking back
/// over the other accessor, comments and punctuation.
pub open spec fn property_before(siblings: Seq<CstView>, n: int, source: Seq<char>) -> Option<
    Seq<char>,
>
    decreases n,
{
    if n <= 0 || n > siblings.len() {
        None
    } else {
        let t = siblings[n - 1];
        if !t.data.named {
            property_before(siblings, n - 1, source)
        } else if t.data.kind == "property_declaration"@ {
            property_name(t, source)
        } else if t.data.kind == "getter"@ || t.data.kind == "setter"@ || t.data.extra {
            property_before(siblings, n - 1, source)
        } else {
            None
        }
    }
}

/// The property the `getter` or `setter` at `index` below `parent` belongs to. A
/// same-line accessor (`val z: Int get() = 1`) nests inside its property
/// declaration; a next-line one is parsed as a sibling of it.
pub open spec fn accessor_property(
    parent: Option<CstView>,
    index: int,
    source: Seq<char>,
) -> Option<Seq<char>> {
    match parent {
        Some(p) => if p.data.kind == "property_declaration"@ {
            property_name(p, source)
        } else {
            property_before(p.children, index, source)
        },
        None => None,
    }
}

/// The name of a property accessor: `prop.get`, `prop.set`, or `<get>` and
/// `<set>` for one that belongs to no property.
pub open spec fn accessor_name(property: Option<Seq<char>>, accessor: Seq<char>) -> Seq<char> {
    match property {
        Some(name) => name + "."@ + accessor,
        None => "<"@ + accessor + ">"@,
    }
}

/// The type among the parts of a delegation specifier: `Runnable` itself, or
/// `Runnable` as it is constructed.
pub open spec fn specified_type(spec_node: CstView) -> Option<CstView> {
    match kind_at(spec_node, "user_type"@) {
        Some(i) => Some(spec_node.children[i]),
        None => match kind_at(spec_node, "constructor_invocation"@) {
            Some(i) => match kind_at(spec_node.children[i], "user_type"@) {
                Some(j) => Some(spec_node.children[i].children[j]),
                None => None,
            },
            None => None,
        },
    }
}

/// The supertype an `object : Type { ... }` literal implements: `Runnable` for
/// `object : Runnable`, the base name for `Handler<Int>`, the last segment for
/// `a.b.Runnable`. `None` for a bare `object { ... }`.
pub open spec fn object_literal_supertype(t: CstView, source: Seq<char>) -> Option<Seq<char>> {
    match kind_at(t, "delegation_specifier"@) {
        Some(i) => match specified_type(t.children[i]) {
            Some(ty) => match last_where(ty.children, of_kind("type_identifier"@)) {
                Some(j) => Some(node_text(ty.children[j].data, source)),
                None => None,
            },
            None => None,
        },
        None => None,
    }
}

/// The simple name of a call's callee: `foo` for `foo(...)`, the trailing
/// navigation segment for member calls like `xs.map(...)`. `None` for anything
/// else.
pub open spec fn callee_name(t: CstView, source: Seq<char>) -> Option<Seq<char>> {
    if t.data.kind == "simple_identifier"@ {
        Some(node_text(t.data, source))
    } else if t.data.kind == "navigation_expression"@ {
        match kind_at(t, "navigation_suffix"@) {
            Some(i) => kind_text(t.children[i], "simple_identifier"@, source),
            None => None,
        }
    } else {
        None
    }
}

/// The indices of the left side, the operator and the right side of an infix
/// call, where its operator is a plain identifier.
pub open spec fn infix_parts(t: CstView) -> Option<(int, int, int)> {
    match named_from(t, 0) {
        Some(left) => match named_from(t, left + 1) {
            Some(op) => match named_from(t, op + 1) {
                Some(right) => if t.children[op].data.kind == "simple_identifier"@ {
                    Some((left, op, right))
                } else {
                    None
                },
                None => None,
            },
            None => None,
        },
        None => None,
    }
}

/// The outline of the syntax tree `t`, the child at `index` of `parent`.
pub open spec fn kotlin_outline(
    t: CstView,
    parent: Option<CstView>,
    index: int,
    source: Seq<char>,
) -> Seq<OutlineView>
    decreases t, t.children.len() + 1,
{
    let kind = t.data.kind;
    let all = kotlin_outline_all(t, t.children.len() as int, source);
    if kind == "class_declaration"@ || kind == "object_declaration"@ {
        // A `companion object` is another kind on purpose: its members are called
        // on the enclosing class, so it adds no segment.
        in_scope_view(kind_text(t, "type_identifier"@, source), all)
    } else if kind == "enum_entry"@ {
        // An enum entry with a body scopes its overrides (`E.ADD.apply`), keeping
        // two entries that override the same member distinct.
        in_scope_view(kind_text(t, "simple_identifier"@, source), all)
    } else if kind == "object_literal"@ {
        // An anonymous `object : Type { ... }` scopes its members under the
        // supertype name, keeping them apart from the enclosing type's own.
        let name = text_or(object_literal_supertype(t, source), "<object>"@);
        in_scope_view(Some(name), all)
    } else if kind == "function_declaration"@ {
        // A bodiless signature carries no code and is not recorded, but a lambda
        // in a default parameter value is still reached.
        if kind_at(t, "function_body"@) is Some {
            let name = text_or(kind_text(t, "simple_identifier"@, source), "<fun>"@);
            seq![content_function(LabelView::Fixed(name), t, all)]
        } else {
            all
        }
    } else if kind == "secondary_constructor"@ {
        seq![content_function(LabelView::Fixed("<constructor>"@), t, all)]
    } else if kind == "anonymous_initializer"@ {
        // All `init` blocks of a class share one name.
        seq![content_function(LabelView::Fixed("<init>"@), t, all)]
    } else if kind == "anonymous_function"@ {
        seq![content_function(LabelView::Hinted("<anonymous>"@), t, all)]
    } else if kind == "lambda_literal"@ {
        seq![content_function(LabelView::Hinted("<lambda>"@), t, all)]
    } else if kind == "getter"@ || kind == "setter"@ {
        // A property accessor with a body is a function of its own.
        if kind_at(t, "function_body"@) is Some {
            let accessor = if kind == "getter"@ {
                "get"@
            } else {
                "set"@
            };
            let name = accessor_name(accessor_property(parent, index, source), accessor);
            seq![content_function(LabelView::Fixed(name), t, all)]
        } else {
            all
        }
    } else if kind == "property_declaration"@ {
        // `val f = ...` offers its name to a lambda held by the property.
        seq![binding_view(property_name(t, source), all)]
    } else if kind == "call_expression"@ {
        proof {
            named_from_found(t, 0);
        }
        match named_from(t, 0) {
            Some(i) => {
                let callee = t.children[i];
                let arguments = kotlin_named_between(
                    t,
                    i + 1,
                    t.children.len() as int,
                    source,
                );
                // A delegate call's lambda is the property's own body
                // (`val cfg by lazy { ... }` reads `cfg`), so a pending property
                // name outranks the callee there.
                let delegated = parent matches Some(p) && p.data.kind == "property_delegate"@;
                let rest = if delegated {
                    delegate_view(arguments)
                } else {
                    binding_view(call_hint(callee_name(callee, source)), arguments)
                };
                kotlin_outline(callee, Some(t), i, source).push(rest)
            },
            None => Seq::empty(),
        }
    } else if kind == "infix_expression"@ {
        // `xs forEach { ... }`: the literal on the right is named after the infix
        // function, like the dot form.
        proof {
            infix_parts_found(t);
        }
        match infix_parts(t) {
            Some((left, op, right)) => {
                let name = node_text(t.children[op].data, source) + "()"@;
                kotlin_outline(t.children[left], Some(t), left, source).push(
                    binding_view(
                        Some(name),
                        kotlin_outline(t.children[right], Some(t), right, source),
                    ),
                )
            },
            None => all,
        }
    } else {
        all
    }
}

/// The outlines of the first `n` children of `parent`, one after the other.
pub open spec fn kotlin_outline_all(parent: CstView, n: int, source: Seq<char>) -> Seq<OutlineView>
    decreases parent, n,
{
    if n <= 0 || n > parent.children.len() {
        Seq::empty()
    } else {
        kotlin_outline_all(parent, n - 1, source) + kotlin_outline(
            parent.children[n - 1],
            Some(parent),
            n - 1,
            source,
        )
    }
}

/// The outlines of the named children of `parent` from `from` up to `n`, one
/// after the other.
pub open spec fn kotlin_named_between(
    parent: CstView,
    from: int,
    n: int,
    source: Seq<char>,
) -> Seq<OutlineView>
    decreases parent, n,
{
    if from < 0 || n <= from || n > parent.children.len() {
        Seq::empty()
    } else {
        let before = kotlin_named_between(parent, from, n - 1, source);
        if parent.children[n - 1].data.named {
            before + kotlin_outline(parent.children[n - 1], Some(parent), n - 1, source)
        } else {
            before
        }
    }
}

/// What [`infix_parts`] finds are three children in this order.
pub proof fn infix_parts_found(t: CstView)
    ensures
        infix_parts(t) matches Some((left, op, right)) ==> 0 <= left < op < right
            < t.children.len(),
{
    named_from_found(t, 0);
    match named_from(t, 0) {
        Some(left) => {
            named_from_found(t, left + 1);
            match named_from(t, left + 1) {
                Some(op) => {
                    named_from_found(t, op + 1);
                },
                None => {},
            }
        },
        None => {},
    }
}

/// A sound tree has an outline whose lines are in order.
proof fn outline_in_order(t: CstView, parent: Option<CstView>, index: int, source: Seq<char>)
    requires
        sound_tree(t, source),
    ensures
        all_in_order(kotlin_outline(t, parent, index, source)),
    decreases t, t.children.len() + 1,
{
    children_in_order(t, t.children.len() as int, source);
    named_from_found(t, 0);
    infix_parts_found(t);
    if let Some(i) = named_from(t, 0) {
        assert(sound_tree(t.children[i], source));
        outline_in_order(t.children[i], Some(t), i, source);
        named_in_order(t, i + 1, t.children.len() as int, source);
    }
    if let Some((left, op, right)) = infix_parts(t) {
        assert(sound_tree(t.children[left], source));
        assert(sound_tree(t.children[right], source));
        outline_in_order(t.children[left], Some(t), left, source);
        outline_in_order(t.children[right], Some(t), right, source);
    }
}

proof fn children_in_order(parent: CstView, n: int, source: Seq<char>)
    requires
        sound_tree(parent, source),
    ensures
        all_in_order(kotlin_outline_all(parent, n, source)),
    decreases parent, n,
{
    if 0 < n <= parent.children.len() {
        children_in_order(parent, n - 1, source);
        assert(sound_tree(parent.children[n - 1], source));
        outline_in_order(parent.children[n - 1], Some(parent), n - 1, source);
    }
}

proof fn named_in_order(parent: CstView, from: int, n: int, source: Seq<char>)
    requires
        sound_tree(parent, source),
    ensures
        all_in_order(kotlin_named_between(parent, from, n, source)),
    decreases parent, n,
{
    if 0 <= from < n <= parent.children.len() {
        named_in_order(parent, from, n - 1, source);
        assert(sound_tree(parent.children[n - 1], source));
        outline_in_order(parent.children[n - 1], Some(parent), n - 1, source);
    }
}

/// No function that is recorded below a node of a Kotlin source, wherever the walk
/// stands, ends on a line before the one it starts on.
pub proof fn kotlin_lines_in_order(
    t: CstView,
    parent: Option<CstView>,
    index: int,
    source: Seq<char>,
    place: Place,
)
    requires
        sound_tree(t, source),
    ensures
        lines_in_order(found_all(kotlin_outline(t, parent, index, source), place).symbols),
{
    outline_in_order(t, parent, index, source);
    recorded_all_in_order(kotlin_outline(t, parent, index, source), place);
}

fn property_text(node: &Cst, source: &str) -> (name: Option<String>)
    requires
        sound_tree(node@, source@),
    ensures
        text_option(name) == property_name(node@, source@),
{
    match kind_index(node, "variable_declaration") {
        Some(i) => {
            proof {
                sound_child(*node, i as int, source@);
            }
            text_of_kind(&node.children[i], "simple_identifier", source)
        },
        None => None,
    }
}

fn property_before_text(parent: &Cst, n: usize, source: &str) -> (name: Option<String>)
    requires
        sound_tree(parent@, source@),
        n <= parent.children@.len(),
    ensures
        text_option(name) == property_before(parent@.children, n as int, source@),
{
    proof {
        sound_children(*parent, source@);
    }
    let ghost siblings = parent@.children;
    let mut i: usize = n;
    while i > 0
        invariant
            i <= parent.children@.len() == siblings.len(),
            siblings == parent@.children,
            forall|i: int|
                0 <= i < parent.children@.len() ==> sound_tree(
                    (#[trigger] parent.children@[i])@,
                    source@,
                ) && siblings[i] == parent.children@[i]@,
            property_before(siblings, n as int, source@) == property_before(
                siblings,
                i as int,
                source@,
            ),
        decreases i,
    {
        let node = &parent.children[i - 1];
        proof {
            tree_view_parts(*node);
        }
        if node.data.named {
            if is_kind(node, "property_declaration") {
                return property_text(node, source);
            }
            if !is_kind(node, "getter") && !is_kind(node, "setter") && !node.data.extra {
                return None;
            }
        }
        i -= 1;
    }
    None
}

fn accessor_text(
    parent: Option<&Cst>,
    index: usize,
    accessor: &str,
    source: &str,
) -> (name: String)
    requires
        parent matches Some(p) ==> sound_tree(p@, source@) && index < p.children@.len(),
    ensures
        name@ == accessor_name(
            accessor_property(parent_view(parent), index as int, source@),
            accessor@,
        ),
{
    let property = match parent {
        Some(p) => if is_kind(p, "property_declaration") {
            property_text(p, source)
        } else {
            property_before_text(p, index, source)
        },
        None => None,
    };
    match property {
        Some(name) => {
            let mut full = name;
            full.append(".");
            full.append(accessor);
            full
        },
        None => {
            let mut full = "<".to_string();
            full.append(accessor);
            full.append(">");
            full
        },
    }
}

fn specified_type_of<'a>(node: &'a Cst, source: &str) -> (ty: Option<&'a Cst>)
    requires
        sound_tree(node@, source@),
    ensures
        parent_view(ty) == specified_type(node@),
        ty matches Some(t) ==> sound_tree(t@, source@),
{
    match kind_index(node, "user_type") {
        Some(i) => {
            proof {
                sound_child(*node, i as int, source@);
            }
            Some(&node.children[i])
        },
        None => match kind_index(node, "constructor_invocation") {
            Some(i) => {
                proof {
                    sound_child(*node, i as int, source@);
                }
                let call = &node.children[i];
                match kind_index(call, "user_type") {
                    Some(j) => {
                        proof {
                            sound_child(*call, j as int, source@);
                        }
                        Some(&call.children[j])
                    },
                    None => None,
                }
            },
            None => None,
        },
    }
}

fn supertype_text(node: &Cst, source: &str) -> (name: Option<String>)
    requires
        sound_tree(node@, source@),
    ensures
        text_option(name) == object_literal_supertype(node@, source@),
{
    let ty = match kind_index(node, "delegation_specifier") {
        Some(i) => {
            proof {
                sound_child(*node, i as int, source@);
            }
            match specified_type_of(&node.children[i], source) {
                Some(ty) => ty,
                None => return None,
            }
        },
        None => return None,
    };
    match last_of_kind(ty, "type_identifier") {
        Some(i) => {
            proof {
                sound_child(*ty, i as int, source@);
            }
            Some(text_of(&ty.children[i].data, source))
        },
        None => None,
    }
}

fn callee_text(node: &Cst, source: &str) -> (name: Option<String>)
    requires
        sound_tree(node@, source@),
    ensures
        text_option(name) == callee_name(node@, source@),
{
    proof {
        tree_view_parts(*node);
    }
    if is_kind(node, "simple_identifier") {
        Some(text_of(&node.data, source))
    } else if is_kind(node, "navigation_expression") {
        match kind_index(node, "navigation_suffix") {
            Some(i) => {
                proof {
                    sound_child(*node, i as int, source@);
                }
                text_of_kind(&node.children[i], "simple_identifier", source)
            },
            None => None,
        }
    } else {
        None
    }
}

fn infix_indices(node: &Cst) -> (parts: Option<(usize, usize, usize)>)
    ensures
        match parts {
            Some((left, op, right)) => infix_parts(node@) == Some(
                (left as int, op as int, right as int),
            ) && left < op < right < node.children@.len(),
            None => infix_parts(node@) is None,
        },
{
    proof {
        tree_view_parts(*node);
    }
    match next_named(node, 0) {
        Some(left) => match next_named(node, left + 1) {
            Some(op) => match next_named(node, op + 1) {
                Some(right) => {
                    assert(node@.children[op as int] == node.children@[op as int]@);
                    if is_kind(&node.children[op], "simple_identifier") {
                        Some((left, op, right))
                    } else {
                        None
                    }
                },
                None => None,
            },
            None => None,
        },
        None => None,
    }
}

/// The outline of the syntax tree `node` of `source`, the child at `index` of
/// `parent`.
fn outline_below(node: &Cst, parent: Option<&Cst>, index: usize, source: &str) -> (out: Vec<
    Outline,
>)
    requires
        sound_tree(node@, source@),
        parent matches Some(p) ==> sound_tree(p@, source@) && index < p.children@.len(),
    ensures
        tree_views(out@) == kotlin_outline(
            node@,
            parent_view(parent),
            index as int,
            source@,
        ),
    decreases node, node.children@.len() + 1,
{
    proof {
        sound_children(*node, source@);
    }
    if is_kind(node, "class_declaration") || is_kind(node, "object_declaration") {
        let name = text_of_kind(node, "type_identifier", source);
        in_scope(name, outline_all(node, source))
    } else if is_kind(node, "enum_entry") {
        let name = text_of_kind(node, "simple_identifier", source);
        in_scope(name, outline_all(node, source))
    } else if is_kind(node, "object_literal") {
        let name = or_text(supertype_text(node, source), "<object>");
        in_scope(Some(name), outline_all(node, source))
    } else if is_kind(node, "function_declaration") {
        let body = outline_all(node, source);
        if kind_index(node, "function_body").is_some() {
            let name = or_text(text_of_kind(node, "simple_identifier", source), "<fun>");
            only(content_function_of(Label::Fixed(name), node, body, source))
        } else {
            body
        }
    } else if is_kind(node, "secondary_constructor") {
        let label = Label::Fixed("<constructor>".to_string());
        only(content_function_of(label, node, outline_all(node, source), source))
    } else if is_kind(node, "anonymous_initializer") {
        let label = Label::Fixed("<init>".to_string());
        only(content_function_of(label, node, outline_all(node, source), source))
    } else if is_kind(node, "anonymous_function") {
        let label = Label::Hinted("<anonymous>".to_string());
        only(content_function_of(label, node, outline_all(node, source), source))
    } else if is_kind(node, "lambda_literal") {
        let label = Label::Hinted("<lambda>".to_string());
        only(content_function_of(label, node, outline_all(node, source), source))
    } else if is_kind(node, "getter") || is_kind(node, "setter") {
        let body = outline_all(node, source);
        if kind_index(node, "function_body").is_some() {
            let accessor = if is_kind(node, "getter") {
                "get"
            } else {
                "set"
            };
            let name = accessor_text(parent, index, accessor, source);
            only(content_function_of(Label::Fixed(name), node, body, source))
        } else {
            body
        }
    } else if is_kind(node, "property_declaration") {
        only(binding_outline(property_text(node, source), outline_all(node, source)))
    } else if is_kind(node, "call_expression") {
        match next_named(node, 0) {
            Some(i) => {
                let callee = callee_text(&node.children[i], source);
                let mut out = outline_below(&node.children[i], Some(node), i, source);
                let arguments = outline_named(node, i + 1, source);
                let delegated = match parent {
                    Some(p) => is_kind(p, "property_delegate"),
                    None => false,
                };
                if delegated {
                    put(&mut out, delegate_outline(arguments));
                } else {
                    put(&mut out, binding_outline(call_hint_text(callee), arguments));
                }
                out
            },
            None => nothing(),
        }
    } else if is_kind(node, "infix_expression") {
        match infix_indices(node) {
            Some((left, op, right)) => {
                proof {
                    sound_child(*node, op as int, source@);
                }
                let mut out = outline_below(&node.children[left], Some(node), left, source);
                let name = text_of(&node.children[op].data, source);
                let body = outline_below(&node.children[right], Some(node), right, source);
                put(&mut out, binding_outline(call_hint_text(Some(name)), body));
                out
            },
            None => outline_all(node, source),
        }
    } else {
        outline_all(node, source)
    }
}

/// The outlines of the children of `parent`, one after the other.
fn outline_all(parent: &Cst, source: &str) -> (out: Vec<Outline>)
    requires
        sound_tree(parent@, source@),
    ensures
        tree_views(out@) == kotlin_outline_all(
            parent@,
            parent@.children.len() as int,
            source@,
        ),
    decreases parent, parent.children@.len(),
{
    proof {
        sound_children(*parent, source@);
    }
    let mut out = nothing();
    let mut i: usize = 0;
    while i < parent.children.len()
        invariant
            i <= parent.children@.len() == parent@.children.len(),
            sound_tree(parent@, source@),
            forall|i: int|
                0 <= i < parent.children@.len() ==> sound_tree(
                    (#[trigger] parent.children@[i])@,
                    source@,
                ) && parent@.children[i] == parent.children@[i]@,
            tree_views(out@) == kotlin_outline_all(parent@, i as int, source@),
        decreases parent.children@.len() - i,
    {
        put_all(&mut out, outline_below(&parent.children[i], Some(parent), i, source));
        i += 1;
    }
    out
}

/// The outlines of the named children of `parent` from `from` on.
fn outline_named(parent: &Cst, from: usize, source: &str) -> (out: Vec<Outline>)
    requires
        sound_tree(parent@, source@),
        from <= parent.children@.len(),
    ensures
        tree_views(out@) == kotlin_named_between(
            parent@,
            from as int,
            parent@.children.len() as int,
            source@,
        ),
    decreases parent, parent.children@.len(),
{
    proof {
        sound_children(*parent, source@);
    }
    let mut out = nothing();
    let mut i: usize = from;
    while i < parent.children.len()
        invariant
            from <= i <= parent.children@.len() == parent@.children.len(),
            sound_tree(parent@, source@),
            forall|i: int|
                0 <= i < parent.children@.len() ==> sound_tree(
                    (#[trigger] parent.children@[i])@,
                    source@,
                ) && parent@.children[i] == parent.children@[i]@,
            tree_views(out@) == kotlin_named_between(parent@, from as int, i as int, source@),
        decreases parent.children@.len() - i,
    {
        proof {
            tree_view_parts(parent.children@[i as int]);
        }
        if parent.children[i].data.named {
            put_all(&mut out, outline_below(&parent.children[i], Some(parent), i, source));
        }
        i += 1;
    }
    out
}

/// The outline of the syntax tree `node` of `source`.
pub fn outline(node: &Cst, source: &str) -> (out: Vec<Outline>)
    requires
        sound_tree(node@, source@),
    ensures
        tree_views(out@) == kotlin_outline(node@, None, 0, source@),
{
    outline_below(node, None, 0, source)
}

/// The symbols of a Kotlin source for which the parser gave `parsed`.
pub open spec fn kotlin_symbols(
    parsed: Result<Option<Seq<(nat, SyntaxView)>>, ()>,
    source: Seq<char>,
) -> Extraction {
    match strict_error(parsed, source) {
        Some(e) => Err(e),
        None => outline_result(kotlin_outline(parsed_tree(parsed), None, 0, source)),
    }
}

/// Whether the parser may give `parsed` for a source. What it gives for one in ASCII is
/// settled by the source; of other letters the parser asks the locale.
pub open spec fn kotlin_may_parse(
    source: Seq<char>,
    parsed: Result<Option<Seq<(nat, SyntaxView)>>, ()>,
) -> bool {
    ascii(source) ==> parsed == kotlin_parse(source)
}

/// Whether the symbols of a Kotlin source may be `symbols`.
pub open spec fn kotlin_gives(source: Seq<char>, symbols: Extraction) -> bool {
    if !addressable(source) {
        symbols == Err::<Seq<SymbolView>, _>(AnalyzerError::TooLong)
    } else if occurrences(source, '"') > OPEN_STRINGS {
        symbols == Err::<Seq<SymbolView>, _>(AnalyzerError::Strings)
    } else {
        exists|parsed: Result<Option<Seq<(nat, SyntaxView)>>, ()>| #[trigger]
            kotlin_may_parse(source, parsed) && symbols == kotlin_symbols(parsed, source)
    }
}

/// A Kotlin source in ASCII has one answer.
pub proof fn ascii_is_settled(analyzer: KotlinAnalyzer, path: Seq<char>, source: Seq<char>)
    requires
        ascii(source),
    ensures
        settled(analyzer, path, source),
{
}

/// No symbol of a Kotlin source ends on a line before the one it starts on, whatever
/// the parser gave.
pub proof fn kotlin_symbols_in_order(
    parsed: Result<Option<Seq<(nat, SyntaxView)>>, ()>,
    source: Seq<char>,
)
    ensures
        kotlin_symbols(parsed, source) matches Ok(symbols) ==> lines_in_order(symbols),
{
    if strict_error(parsed, source) is None {
        accepted_trees_are_sound(parsed, source);
        let place = Place { scopes: Seq::empty(), hint: None, depth: 0 };
        kotlin_lines_in_order(parsed_tree(parsed), None, 0, source, place);
    }
}

/// The symbols of a Kotlin source for which the parser gave `parsed`.
pub fn extract(parsed: Parsed, source: &str) -> (symbols: Result<Vec<Symbol>, AnalyzerError>)
    ensures
        symbols_result(symbols) == kotlin_symbols(parsed_nodes(parsed), source@),
{
    match parse_strict(parsed, source) {
        Ok(tree) => outline_symbols(&outline(&tree, source)),
        Err(e) => Err(e),
    }
}

/// The analyzer of Kotlin sources. Those with more than [`OPEN_STRINGS`] string
/// delimiters are refused.
pub struct KotlinAnalyzer;

impl LanguageAnalyzer for KotlinAnalyzer {
    open spec fn language(&self) -> Seq<char> {
        "Kotlin"@
    }

    open spec fn own_extensions(&self) -> Seq<Seq<char>> {
        seq!["kt"@, "kts"@]
    }

    open spec fn gives(&self, path: Seq<char>, source: Seq<char>, symbols: Extraction) -> bool {
        kotlin_gives(source, symbols)
    }

    fn name(&self) -> (name: &'static str) {
        "Kotlin"
    }

    fn extensions(&self) -> (list: &'static [&'static str]) {
        // `.kts` is Kotlin script (e.g. Gradle build scripts), same grammar.
        let list: &'static [&'static str] = &["kt", "kts"];
        assert(str_views(list@) =~= self.own_extensions());
        list
    }

    fn extract_symbols(&self, path: &str, source: &str) -> (symbols: Result<
        Vec<Symbol>,
        AnalyzerError,
    >) {
        if !is_addressable(source) {
            return Err(AnalyzerError::TooLong);
        }
        if occurs_more_than(source, '"', OPEN_STRINGS) {
            return Err(AnalyzerError::Strings);
        }
        let parsed = parse_kotlin(source);
        assert(kotlin_may_parse(source@, parsed_nodes(parsed)));
        extract(parsed, source)
    }
}

} // verus!
