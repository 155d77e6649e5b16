//! What is recorded of a Kotlin source, in terms of its syntax tree.
use vstd::prelude::*;

use super::kotlin::{
    accessor_property, callee_name, infix_parts, kotlin_gives, kotlin_named_between,
    kotlin_outline, kotlin_outline_all, kotlin_symbols, object_literal_supertype,
    property_before, property_name,
};
use super::outline::{
    LabelView, OutlineView, Place, binding_view, call_hint, delegate_view, found_all,
    function_count_all, inner_place, scope_view,
};
use super::outline_laws::{
    bindings_offer, delegates_stand_aside, dotted, file_symbols_stand_alone, found_in_turn,
    functions_add_up, functions_are_recorded, functions_of_one, holds_run, inner_runs,
    parts_are_found,
};
use super::syntax_laws::{
    first_kind, first_named, kinds_are_looked_up,
    last_kind, last_kind_is_looked_up, named_are_looked_up_from, no_kind, no_named,
};
use super::treesitter::{
    CstView, SyntaxView, content_end_row, kind_at, kotlin_parse, named_from, node_text, parsed_tree,
    strict_error,
};
use super::{AnalyzerError, Extraction, SymbolView, addressable};
use crate::lists::occurrences;
use crate::text::ascii;

verus! {

/// The kinds that matter differ.
proof fn kinds_differ()
    ensures
        "class_declaration"@ != "object_declaration"@,
        "class_declaration"@ != "enum_entry"@,
        "class_declaration"@ != "object_literal"@,
        "class_declaration"@ != "function_declaration"@,
        "class_declaration"@ != "secondary_constructor"@,
        "class_declaration"@ != "anonymous_initializer"@,
        "class_declaration"@ != "anonymous_function"@,
        "class_declaration"@ != "lambda_literal"@,
        "class_declaration"@ != "getter"@,
        "class_declaration"@ != "setter"@,
        "class_declaration"@ != "property_declaration"@,
        "class_declaration"@ != "call_expression"@,
        "class_declaration"@ != "infix_expression"@,
        "object_declaration"@ != "enum_entry"@,
        "object_declaration"@ != "object_literal"@,
        "object_declaration"@ != "function_declaration"@,
        "object_declaration"@ != "secondary_constructor"@,
        "object_declaration"@ != "anonymous_initializer"@,
        "object_declaration"@ != "anonymous_function"@,
        "object_declaration"@ != "lambda_literal"@,
        "object_declaration"@ != "getter"@,
        "object_declaration"@ != "setter"@,
        "object_declaration"@ != "property_declaration"@,
        "object_declaration"@ != "call_expression"@,
        "object_declaration"@ != "infix_expression"@,
        "enum_entry"@ != "object_literal"@,
        "enum_entry"@ != "function_declaration"@,
        "enum_entry"@ != "secondary_constructor"@,
        "enum_entry"@ != "anonymous_initializer"@,
        "enum_entry"@ != "anonymous_function"@,
        "enum_entry"@ != "lambda_literal"@,
        "enum_entry"@ != "getter"@,
        "enum_entry"@ != "setter"@,
        "enum_entry"@ != "property_declaration"@,
        "enum_entry"@ != "call_expression"@,
        "enum_entry"@ != "infix_expression"@,
        "object_literal"@ != "function_declaration"@,
        "object_literal"@ != "secondary_constructor"@,
        "object_literal"@ != "anonymous_initializer"@,
        "object_literal"@ != "anonymous_function"@,
        "object_literal"@ != "lambda_literal"@,
        "object_literal"@ != "getter"@,
        "object_literal"@ != "setter"@,
        "object_literal"@ != "property_declaration"@,
        "object_literal"@ != "call_expression"@,
        "object_literal"@ != "infix_expression"@,
        "function_declaration"@ != "secondary_constructor"@,
        "function_declaration"@ != "anonymous_initializer"@,
        "function_declaration"@ != "anonymous_function"@,
        "function_declaration"@ != "lambda_literal"@,
        "function_declaration"@ != "getter"@,
        "function_declaration"@ != "setter"@,
        "function_declaration"@ != "property_declaration"@,
        "function_declaration"@ != "call_expression"@,
        "function_declaration"@ != "infix_expression"@,
        "secondary_constructor"@ != "anonymous_initializer"@,
        "secondary_constructor"@ != "anonymous_function"@,
        "secondary_constructor"@ != "lambda_literal"@,
        "secondary_constructor"@ != "getter"@,
        "secondary_constructor"@ != "setter"@,
        "secondary_constructor"@ != "property_declaration"@,
        "secondary_constructor"@ != "call_expression"@,
        "secondary_constructor"@ != "infix_expression"@,
        "anonymous_initializer"@ != "anonymous_function"@,
        "anonymous_initializer"@ != "lambda_literal"@,
        "anonymous_initializer"@ != "getter"@,
        "anonymous_initializer"@ != "setter"@,
        "anonymous_initializer"@ != "property_declaration"@,
        "anonymous_initializer"@ != "call_expression"@,
        "anonymous_initializer"@ != "infix_expression"@,
        "anonymous_function"@ != "lambda_literal"@,
        "anonymous_function"@ != "getter"@,
        "anonymous_function"@ != "setter"@,
        "anonymous_function"@ != "property_declaration"@,
        "anonymous_function"@ != "call_expression"@,
        "anonymous_function"@ != "infix_expression"@,
        "lambda_literal"@ != "getter"@,
        "lambda_literal"@ != "setter"@,
        "lambda_literal"@ != "property_declaration"@,
        "lambda_literal"@ != "call_expression"@,
        "lambda_literal"@ != "infix_expression"@,
        "getter"@ != "setter"@,
        "getter"@ != "property_declaration"@,
        "getter"@ != "call_expression"@,
        "getter"@ != "infix_expression"@,
        "setter"@ != "property_declaration"@,
        "setter"@ != "call_expression"@,
        "setter"@ != "infix_expression"@,
        "property_declaration"@ != "call_expression"@,
        "property_declaration"@ != "infix_expression"@,
        "call_expression"@ != "infix_expression"@,
{
    reveal_strlit("class_declaration");
    assert("class_declaration"@.len() == 17);
    reveal_strlit("object_declaration");
    assert("object_declaration"@.len() == 18);
    reveal_strlit("enum_entry");
    assert("enum_entry"@.len() == 10);
    reveal_strlit("object_literal");
    assert("object_literal"@.len() == 14);
    reveal_strlit("function_declaration");
    assert("function_declaration"@.len() == 20);
    reveal_strlit("secondary_constructor");
    assert("secondary_constructor"@.len() == 21);
    reveal_strlit("anonymous_initializer");
    assert("anonymous_initializer"@.len() == 21);
    reveal_strlit("anonymous_function");
    assert("anonymous_function"@.len() == 18);
    reveal_strlit("lambda_literal");
    assert("lambda_literal"@.len() == 14);
    reveal_strlit("getter");
    assert("getter"@.len() == 6);
    reveal_strlit("setter");
    assert("setter"@.len() == 6);
    reveal_strlit("property_declaration");
    assert("property_declaration"@.len() == 20);
    reveal_strlit("call_expression");
    assert("call_expression"@.len() == 15);
    reveal_strlit("infix_expression");
    assert("infix_expression"@.len() == 16);
    assert("object_declaration"@[0] != "anonymous_function"@[0]);
    assert("object_literal"@[0] != "lambda_literal"@[0]);
    assert("function_declaration"@[0] != "property_declaration"@[0]);
    assert("secondary_constructor"@[0] != "anonymous_initializer"@[0]);
    assert("getter"@[0] != "setter"@[0]);
}

/// Whether a node is a function with a body of its own.
pub open spec fn kotlin_is_function(t: CstView) -> bool {
    let has_body = exists|i: int| #[trigger] first_kind(t, "function_body"@, i);
    ||| t.data.kind == "function_declaration"@ && has_body
    ||| t.data.kind == "getter"@ && has_body
    ||| t.data.kind == "setter"@ && has_body
    ||| t.data.kind == "secondary_constructor"@
    ||| t.data.kind == "anonymous_initializer"@
    ||| t.data.kind == "anonymous_function"@
    ||| t.data.kind == "lambda_literal"@
}

/// Whether a node names a scope, and which.
pub open spec fn kotlin_names_scope(t: CstView, name: Seq<char>, source: Seq<char>) -> bool {
    ||| (t.data.kind == "class_declaration"@ || t.data.kind == "object_declaration"@)
        && exists|i: int| #[trigger]
        first_kind(t, "type_identifier"@, i) && node_text(t.children[i].data, source) == name
    ||| t.data.kind == "enum_entry"@ && exists|i: int| #[trigger]
        first_kind(t, "simple_identifier"@, i) && node_text(t.children[i].data, source) == name
    ||| t.data.kind == "object_literal"@ && (match object_literal_supertype(t, source) {
        Some(supertype) => name == supertype,
        None => name == "<object>"@,
    })
}

/// Where the children of a node stand: below a function with one more function around
/// them and no hint, below a scope with its name around them, below a property with its
/// name on offer, and below any other node where the node stands.
pub open spec fn kotlin_stands_inside(
    t: CstView,
    source: Seq<char>,
    place: Place,
    inner: Place,
) -> bool {
    if kotlin_is_function(t) {
        inner == (Place { scopes: place.scopes, hint: None, depth: place.depth + 1 })
    } else if t.data.kind == "property_declaration"@ {
        inner == (Place {
            scopes: place.scopes,
            hint: property_name(t, source),
            depth: place.depth,
        })
    } else {
        ||| exists|name: Seq<char>| #[trigger]
            kotlin_names_scope(t, name, source) && inner == (Place {
                scopes: place.scopes.push(name),
                hint: place.hint,
                depth: place.depth,
            })
        ||| inner == place && forall|name: Seq<char>| !#[trigger]
            kotlin_names_scope(t, name, source)
    }
}

/// Whether a node is a call, or an infix call of a plain identifier.
pub open spec fn kotlin_calls(t: CstView) -> bool {
    ||| t.data.kind == "call_expression"@
    ||| t.data.kind == "infix_expression"@ && exists|left: int, op: int, right: int|
        #[trigger] kotlin_infix(t, left, op, right)
}

/// Whether the first three named children of a node stand there, the second of them a
/// plain identifier.
pub open spec fn kotlin_infix(t: CstView, left: int, op: int, right: int) -> bool {
    &&& first_named(t, 0, left)
    &&& first_named(t, left + 1, op)
    &&& first_named(t, op + 1, right)
    &&& t.children[op].data.kind == "simple_identifier"@
}

proof fn infix_is_looked_up(t: CstView)
    ensures
        match infix_parts(t) {
            Some((left, op, right)) => kotlin_infix(t, left, op, right),
            None => forall|left: int, op: int, right: int| !#[trigger]
                kotlin_infix(t, left, op, right),
        },
        forall|left: int, op: int, right: int| #[trigger]
            kotlin_infix(t, left, op, right) ==> infix_parts(t) == Some((left, op, right)),
{
    named_are_looked_up_from(t, 0);
    if let Some(left) = named_from(t, 0) {
        named_are_looked_up_from(t, left + 1);
        if let Some(op) = named_from(t, left + 1) {
            named_are_looked_up_from(t, op + 1);
        }
    }
}

/// What is inside a node as a whole, and how it stands in the outline.
proof fn wrapping(
    t: CstView,
    parent: Option<CstView>,
    index: int,
    source: Seq<char>,
    place: Place,
) -> (inner: Place)
    requires
        !kotlin_calls(t),
    ensures
        kotlin_stands_inside(t, source, place, inner),
        ({
            let whole = kotlin_outline(t, parent, index, source);
            let all = kotlin_outline_all(t, t.children.len() as int, source);
            ||| whole == all && inner == place && !kotlin_is_function(t)
            ||| whole == seq![whole[0]] && whole[0].children == all && inner == inner_place(
                whole[0],
                place,
            ) && (whole[0].data is Function <==> kotlin_is_function(t))
        }),
{
    kinds_differ();
    infix_is_looked_up(t);
    kinds_are_looked_up(t, "function_body"@, source);
    kinds_are_looked_up(t, "type_identifier"@, source);
    kinds_are_looked_up(t, "simple_identifier"@, source);
    let whole = kotlin_outline(t, parent, index, source);
    let all = kotlin_outline_all(t, t.children.len() as int, source);
    let has_body = exists|i: int| #[trigger] first_kind(t, "function_body"@, i);
    assert(has_body <==> kind_at(t, "function_body"@) is Some);
    let scoped = t.data.kind == "class_declaration"@ || t.data.kind == "object_declaration"@
        || t.data.kind == "enum_entry"@ || t.data.kind == "object_literal"@;
    if kotlin_is_function(t) {
        assert(whole =~= seq![whole[0]]);
        inner_place(whole[0], place)
    } else if t.data.kind == "property_declaration"@ {
        assert(whole =~= seq![whole[0]]);
        inner_place(whole[0], place)
    } else if scoped {
        if whole.len() == 1 && whole == seq![whole[0]] && whole[0].data is Scope
            && whole[0].children == all && whole[0].data->Scope_label is Fixed
            && kotlin_names_scope(t, whole[0].data->Scope_label->Fixed_0, source) {
            inner_place(whole[0], place)
        } else {
            assert(whole == all && forall|name: Seq<char>| !#[trigger]
                kotlin_names_scope(t, name, source)) by {
                let kind = t.data.kind;
                if kind == "class_declaration"@ || kind == "object_declaration"@ {
                    match kind_at(t, "type_identifier"@) {
                        Some(i) => {
                            let name = node_text(t.children[i].data, source);
                            assert(whole =~= seq![scope_view(LabelView::Fixed(name), all)]);
                            assert(first_kind(t, "type_identifier"@, i));
                            assert(kotlin_names_scope(t, name, source));
                        },
                        None => {},
                    }
                } else if kind == "enum_entry"@ {
                    match kind_at(t, "simple_identifier"@) {
                        Some(i) => {
                            let name = node_text(t.children[i].data, source);
                            assert(whole =~= seq![scope_view(LabelView::Fixed(name), all)]);
                            assert(first_kind(t, "simple_identifier"@, i));
                            assert(kotlin_names_scope(t, name, source));
                        },
                        None => {},
                    }
                } else {
                    let name = match object_literal_supertype(t, source) {
                        Some(supertype) => supertype,
                        None => "<object>"@,
                    };
                    assert(whole =~= seq![scope_view(LabelView::Fixed(name), all)]);
                    assert(kotlin_names_scope(t, name, source));
                }
            }
            place
        }
    } else {
        assert(whole == all);
        assert(forall|name: Seq<char>| !#[trigger] kotlin_names_scope(t, name, source));
        place
    }
}

proof fn outlines_split(t: CstView, n: int, i: int, source: Seq<char>) -> (after: Seq<OutlineView>)
    requires
        0 <= i < n <= t.children.len(),
    ensures
        kotlin_outline_all(t, n, source) == kotlin_outline_all(t, i, source) + kotlin_outline(
            t.children[i],
            Some(t),
            i,
            source,
        ) + after,
    decreases n,
{
    let child = kotlin_outline(t.children[i], Some(t), i, source);
    if i == n - 1 {
        let after = Seq::<OutlineView>::empty();
        assert(kotlin_outline_all(t, n, source) =~= kotlin_outline_all(t, i, source) + child
            + after);
        after
    } else {
        let before = outlines_split(t, n - 1, i, source);
        let after = before + kotlin_outline(t.children[n - 1], Some(t), n - 1, source);
        assert(kotlin_outline_all(t, n, source) =~= kotlin_outline_all(t, i, source) + child
            + after);
        after
    }
}

/// Every child of a node that is no call is walked: what is recorded of it stands in a row
/// among what is recorded of the node. This holds of nodes of every kind, of functions,
/// scopes and properties too.
pub proof fn kotlin_children_are_walked(
    t: CstView,
    parent: Option<CstView>,
    index: int,
    i: int,
    source: Seq<char>,
    place: Place,
)
    requires
        !kotlin_calls(t),
        0 <= i < t.children.len(),
    ensures
        exists|inner: Place| #[trigger]
            kotlin_stands_inside(t, source, place, inner) && holds_run(
                found_all(kotlin_outline(t, parent, index, source), place).symbols,
                found_all(
                    kotlin_outline(t.children[i], Some(t), i, source),
                    Place {
                        hint: found_all(kotlin_outline_all(t, i, source), inner).hint,
                        ..inner
                    },
                ).symbols,
            ),
{
    let inner = wrapping(t, parent, index, source, place);
    let whole = kotlin_outline(t, parent, index, source);
    let after = outlines_split(t, t.children.len() as int, i, source);
    let before = kotlin_outline_all(t, i, source);
    let part = kotlin_outline(t.children[i], Some(t), i, source);
    parts_are_found(before, part, after, inner);
    let child = found_all(part, Place { hint: found_all(before, inner).hint, ..inner }).symbols;
    if whole != kotlin_outline_all(t, t.children.len() as int, source) || inner != place {
        inner_runs(whole[0], place, child);
    }
    assert(kotlin_stands_inside(t, source, place, inner));
}

/// The number of functions below the first `n` children of a node, one by one.
pub open spec fn kotlin_functions_below(t: CstView, n: int, source: Seq<char>) -> nat
    decreases n,
{
    if n <= 0 || n > t.children.len() {
        0
    } else {
        kotlin_functions_below(t, n - 1, source) + function_count_all(
            kotlin_outline(t.children[n - 1], Some(t), n - 1, source),
        )
    }
}

proof fn functions_below_add_up(t: CstView, n: int, source: Seq<char>)
    ensures
        function_count_all(kotlin_outline_all(t, n, source)) == kotlin_functions_below(
            t,
            n,
            source,
        ),
    decreases n,
{
    if 0 < n <= t.children.len() {
        functions_below_add_up(t, n - 1, source);
        functions_add_up(
            kotlin_outline_all(t, n - 1, source),
            kotlin_outline(t.children[n - 1], Some(t), n - 1, source),
        );
    }
}

/// Nothing else is recorded: a node that is no call has as many functions as its children
/// together, and one more if it is a function itself.
pub proof fn kotlin_functions_are_all_walked(
    t: CstView,
    parent: Option<CstView>,
    index: int,
    source: Seq<char>,
)
    requires
        !kotlin_calls(t),
    ensures
        function_count_all(kotlin_outline(t, parent, index, source)) == kotlin_functions_below(
            t,
            t.children.len() as int,
            source,
        ) + if kotlin_is_function(t) {
            1nat
        } else {
            0
        },
{
    let place = Place { scopes: Seq::empty(), hint: None, depth: 0 };
    let inner = wrapping(t, parent, index, source, place);
    let whole = kotlin_outline(t, parent, index, source);
    functions_below_add_up(t, t.children.len() as int, source);
    if !(whole == kotlin_outline_all(t, t.children.len() as int, source) && inner == place
        && !kotlin_is_function(t)) {
        functions_of_one(whole[0]);
    }
}

/// The name of a function: its own, or the one on offer for a literal.
pub open spec fn kotlin_goes_by(
    t: CstView,
    parent: Option<CstView>,
    index: int,
    source: Seq<char>,
    hint: Option<Seq<char>>,
    name: Seq<char>,
) -> bool {
    let kind = t.data.kind;
    &&& kind == "function_declaration"@ ==> {
        &&& forall|i: int| #[trigger]
            first_kind(t, "simple_identifier"@, i) ==> name == node_text(
                t.children[i].data,
                source,
            )
        &&& no_kind(t, "simple_identifier"@) ==> name == "<fun>"@
    }
    &&& kind == "secondary_constructor"@ ==> name == "<constructor>"@
    &&& kind == "anonymous_initializer"@ ==> name == "<init>"@
    &&& kind == "anonymous_function"@ ==> (match hint {
        Some(offered) => name == offered,
        None => name == "<anonymous>"@,
    })
    &&& kind == "lambda_literal"@ ==> (match hint {
        Some(offered) => name == offered,
        None => name == "<lambda>"@,
    })
    &&& kind == "getter"@ ==> (match accessor_property(parent, index, source) {
        Some(property) => name == property + seq!['.', 'g', 'e', 't'],
        None => name == seq!['<', 'g', 'e', 't', '>'],
    })
    &&& kind == "setter"@ ==> (match accessor_property(parent, index, source) {
        Some(property) => name == property + seq!['.', 's', 'e', 't'],
        None => name == seq!['<', 's', 'e', 't', '>'],
    })
}

/// A function is recorded first of all that is below it: from the line of its node to that
/// of its last own token, one level below the functions around it.
pub proof fn kotlin_functions_come_first(
    t: CstView,
    parent: Option<CstView>,
    index: int,
    source: Seq<char>,
    place: Place,
)
    requires
        kotlin_is_function(t),
    ensures
        ({
            let symbols = found_all(kotlin_outline(t, parent, index, source), place).symbols;
            &&& symbols.len() > 0
            &&& symbols[0].start_line == t.data.start_row + 1
            &&& symbols[0].end_line == if content_end_row(t) < t.data.start_row {
                t.data.start_row + 1
            } else {
                content_end_row(t) + 1
            }
            &&& symbols[0].depth == place.depth + 1
            &&& exists|name: Seq<char>| #[trigger]
                kotlin_goes_by(t, parent, index, source, place.hint, name) && symbols[0].name
                    == dotted(place.scopes, name)
        }),
{
    kinds_differ();
    kinds_are_looked_up(t, "function_body"@, source);
    kinds_are_looked_up(t, "simple_identifier"@, source);
    let whole = kotlin_outline(t, parent, index, source);
    assert(whole =~= seq![whole[0]]);
    functions_are_recorded(whole[0], place);
    let name = match whole[0].data->Function_label {
        LabelView::Fixed(name) => name,
        LabelView::Hinted(other) => match place.hint {
            Some(name) => name,
            None => other,
        },
    };
    reveal_strlit("get");
    reveal_strlit("set");
    reveal_strlit(".");
    reveal_strlit("<");
    reveal_strlit(">");
    if let Some(property) = accessor_property(parent, index, source) {
        assert(property + "."@ + "get"@ =~= property + seq!['.', 'g', 'e', 't']);
        assert(property + "."@ + "set"@ =~= property + seq!['.', 's', 'e', 't']);
    }
    assert("<"@ + "get"@ + ">"@ =~= seq!['<', 'g', 'e', 't', '>']);
    assert("<"@ + "set"@ + ">"@ =~= seq!['<', 's', 'e', 't', '>']);
    assert(kotlin_goes_by(t, parent, index, source, place.hint, name));
}

/// A property goes by the first plain identifier in the first variable that it declares.
pub proof fn kotlin_properties_are_named(t: CstView, i: int, j: int, source: Seq<char>)
    ensures
        first_kind(t, "variable_declaration"@, i) && first_kind(
            t.children[i],
            "simple_identifier"@,
            j,
        ) ==> property_name(t, source) == Some(node_text(t.children[i].children[j].data, source)),
        first_kind(t, "variable_declaration"@, i) && no_kind(t.children[i], "simple_identifier"@)
            ==> property_name(t, source) is None,
        no_kind(t, "variable_declaration"@) ==> property_name(t, source) is None,
{
    kinds_are_looked_up(t, "variable_declaration"@, source);
    if first_kind(t, "variable_declaration"@, i) {
        kinds_are_looked_up(t.children[i], "simple_identifier"@, source);
    }
}

/// Whether a node may stand between a property and its accessor: another accessor, a
/// comment or the like, or punctuation.
pub open spec fn kotlin_stands_between(t: CstView) -> bool {
    ||| !t.data.named
    ||| t.data.kind != "property_declaration"@ && (t.data.kind == "getter"@ || t.data.kind
        == "setter"@ || t.data.extra)
}

/// An accessor inside a property is of that property. Any other is of the nearest property
/// before it, if only what may stand between them does.
pub proof fn kotlin_accessors_find_their_property(
    parent: CstView,
    index: int,
    k: int,
    source: Seq<char>,
)
    requires
        0 <= k < index < parent.children.len(),
        forall|j: int| k < j < index ==> kotlin_stands_between(#[trigger] parent.children[j]),
    ensures
        parent.data.kind == "property_declaration"@ ==> accessor_property(
            Some(parent),
            index,
            source,
        ) == property_name(parent, source),
        parent.data.kind != "property_declaration"@ && parent.children[k].data.named
            && parent.children[k].data.kind == "property_declaration"@ ==> accessor_property(
            Some(parent),
            index,
            source,
        ) == property_name(parent.children[k], source),
        parent.data.kind != "property_declaration"@ && parent.children[k].data.kind
            != "property_declaration"@ && !kotlin_stands_between(parent.children[k])
            ==> accessor_property(Some(parent), index, source) is None,
{
    nearest_property(parent.children, index, k, source);
}

proof fn nearest_property(siblings: Seq<CstView>, n: int, k: int, source: Seq<char>)
    requires
        0 <= k < n <= siblings.len(),
        forall|j: int| k < j < n ==> kotlin_stands_between(#[trigger] siblings[j]),
    ensures
        property_before(siblings, n, source) == property_before(siblings, k + 1, source),
    decreases n,
{
    if n > k + 1 {
        assert(kotlin_stands_between(siblings[n - 1]));
        nearest_property(siblings, n - 1, k, source);
    }
}

/// An object literal goes by the last identifier in the type that it is of, which stands
/// in its first delegation specifier as it is or as it is constructed.
pub proof fn kotlin_objects_go_by_their_type(
    t: CstView,
    i: int,
    j: int,
    k: int,
    source: Seq<char>,
)
    ensures
        first_kind(t, "delegation_specifier"@, i) && first_kind(t.children[i], "user_type"@, j)
            && last_kind(t.children[i].children[j], "type_identifier"@, k)
            ==> object_literal_supertype(t, source) == Some(
            node_text(t.children[i].children[j].children[k].data, source),
        ),
        no_kind(t, "delegation_specifier"@) ==> object_literal_supertype(t, source) is None,
{
    kinds_are_looked_up(t, "delegation_specifier"@, source);
    if first_kind(t, "delegation_specifier"@, i) && first_kind(t.children[i], "user_type"@, j) {
        kinds_are_looked_up(t.children[i], "user_type"@, source);
        last_kind_is_looked_up(t.children[i].children[j], "type_identifier"@);
    }
}

/// The same where the type is constructed.
pub proof fn kotlin_constructed_objects_go_by_their_type(
    t: CstView,
    i: int,
    j: int,
    k: int,
    l: int,
    source: Seq<char>,
)
    requires
        first_kind(t, "delegation_specifier"@, i),
        no_kind(t.children[i], "user_type"@),
        first_kind(t.children[i], "constructor_invocation"@, j),
        first_kind(t.children[i].children[j], "user_type"@, k),
        last_kind(t.children[i].children[j].children[k], "type_identifier"@, l),
    ensures
        object_literal_supertype(t, source) == Some(
            node_text(t.children[i].children[j].children[k].children[l].data, source),
        ),
{
    kinds_are_looked_up(t, "delegation_specifier"@, source);
    kinds_are_looked_up(t.children[i], "user_type"@, source);
    kinds_are_looked_up(t.children[i], "constructor_invocation"@, source);
    kinds_are_looked_up(t.children[i].children[j], "user_type"@, source);
    last_kind_is_looked_up(t.children[i].children[j].children[k], "type_identifier"@);
}

/// The name of a callee: its text where it is a plain identifier, and the identifier of
/// its suffix where it is a navigation.
pub proof fn kotlin_callees_are_named(t: CstView, i: int, j: int, source: Seq<char>)
    ensures
        t.data.kind == "simple_identifier"@ ==> call_hint(callee_name(t, source)) == Some(
            node_text(t.data, source) + seq!['(', ')'],
        ),
        t.data.kind == "navigation_expression"@ && first_kind(t, "navigation_suffix"@, i)
            && first_kind(t.children[i], "simple_identifier"@, j) ==> call_hint(
            callee_name(t, source),
        ) == Some(node_text(t.children[i].children[j].data, source) + seq!['(', ')']),
        t.data.kind != "simple_identifier"@ && t.data.kind != "navigation_expression"@
            ==> call_hint(callee_name(t, source)) is None,
{
    reveal_strlit("()");
    assert("()"@ =~= seq!['(', ')']);
    reveal_strlit("simple_identifier");
    reveal_strlit("navigation_expression");
    assert("simple_identifier"@.len() != "navigation_expression"@.len());
    kinds_are_looked_up(t, "navigation_suffix"@, source);
    if first_kind(t, "navigation_suffix"@, i) {
        kinds_are_looked_up(t.children[i], "simple_identifier"@, source);
    }
}

/// Of a call the first named child is walked first, and then what is behind it: with the
/// name of the callee on offer, or with the pending name where the call is what a property
/// is delegated to.
pub proof fn kotlin_arguments_are_named(
    t: CstView,
    parent: Option<CstView>,
    index: int,
    i: int,
    source: Seq<char>,
    place: Place,
)
    requires
        t.data.kind == "call_expression"@,
        first_named(t, 0, i),
    ensures
        ({
            let called = t.children[i];
            let first = found_all(kotlin_outline(called, Some(t), i, source), place);
            let delegated = parent is Some && parent->0.data.kind == "property_delegate"@;
            let hint = if delegated {
                first.hint
            } else {
                call_hint(callee_name(called, source))
            };
            found_all(kotlin_outline(t, parent, index, source), place).symbols == first.symbols
                + found_all(
                kotlin_named_between(t, i + 1, t.children.len() as int, source),
                Place { hint, ..place },
            ).symbols
        }),
{
    kinds_differ();
    named_are_looked_up_from(t, 0);
    let called = t.children[i];
    let first = kotlin_outline(called, Some(t), i, source);
    let body = kotlin_named_between(t, i + 1, t.children.len() as int, source);
    let whole = kotlin_outline(t, parent, index, source);
    let rest = whole.last();
    assert(whole =~= first + seq![rest]);
    found_in_turn(first, seq![rest], place);
    let then = Place { hint: found_all(first, place).hint, ..place };
    let delegated = parent is Some && parent->0.data.kind == "property_delegate"@;
    if delegated {
        assert(rest == delegate_view(body));
        delegates_stand_aside(rest, then);
    } else {
        let hint = call_hint(callee_name(called, source));
        assert(rest == binding_view(hint, body));
        bindings_offer(rest, then);
        assert(Place { scopes: then.scopes, hint, depth: then.depth } == Place { hint, ..place });
    }
}

/// Every named child behind the callee is walked, from front to back.
pub proof fn kotlin_arguments_are_walked(
    t: CstView,
    from: int,
    n: int,
    j: int,
    source: Seq<char>,
    place: Place,
)
    requires
        0 <= from <= j < n <= t.children.len(),
        t.children[j].data.named,
    ensures
        ({
            let before = found_all(kotlin_named_between(t, from, j, source), place);
            let then = found_all(
                kotlin_outline(t.children[j], Some(t), j, source),
                Place { hint: before.hint, ..place },
            );
            (before.symbols + then.symbols).is_prefix_of(
                found_all(kotlin_named_between(t, from, n, source), place).symbols,
            )
        }),
    decreases n,
{
    let before = kotlin_named_between(t, from, j, source);
    let part = kotlin_outline(t.children[j], Some(t), j, source);
    found_in_turn(before, part, place);
    if j == n - 1 {
        assert(kotlin_named_between(t, from, n, source) == before + part);
    } else {
        kotlin_arguments_are_walked(t, from, n - 1, j, source, place);
        if t.children[n - 1].data.named {
            found_in_turn(
                kotlin_named_between(t, from, n - 1, source),
                kotlin_outline(t.children[n - 1], Some(t), n - 1, source),
                place,
            );
        }
    }
}

/// The number of functions below the named children from `from` up to `n`, one by one.
pub open spec fn kotlin_functions_between(t: CstView, from: int, n: int, source: Seq<char>) -> nat
    decreases n,
{
    if n <= 0 || n <= from || n > t.children.len() {
        0
    } else {
        kotlin_functions_between(t, from, n - 1, source) + if t.children[n - 1].data.named {
            function_count_all(kotlin_outline(t.children[n - 1], Some(t), n - 1, source))
        } else {
            0
        }
    }
}

proof fn functions_between_add_up(t: CstView, from: int, n: int, source: Seq<char>)
    requires
        0 <= from,
    ensures
        function_count_all(kotlin_named_between(t, from, n, source)) == kotlin_functions_between(
            t,
            from,
            n,
            source,
        ),
    decreases n,
{
    if from < n <= t.children.len() {
        functions_between_add_up(t, from, n - 1, source);
        if t.children[n - 1].data.named {
            functions_add_up(
                kotlin_named_between(t, from, n - 1, source),
                kotlin_outline(t.children[n - 1], Some(t), n - 1, source),
            );
        }
    }
}

/// Nothing else is recorded of a call.
pub proof fn kotlin_calls_are_all_walked(
    t: CstView,
    parent: Option<CstView>,
    index: int,
    i: int,
    source: Seq<char>,
)
    requires
        t.data.kind == "call_expression"@,
        first_named(t, 0, i),
    ensures
        function_count_all(kotlin_outline(t, parent, index, source)) == kotlin_functions_between(
            t,
            i,
            t.children.len() as int,
            source,
        ),
{
    kinds_differ();
    named_are_looked_up_from(t, 0);
    let n = t.children.len() as int;
    let first = kotlin_outline(t.children[i], Some(t), i, source);
    let body = kotlin_named_between(t, i + 1, n, source);
    let whole = kotlin_outline(t, parent, index, source);
    let rest = whole.last();
    assert(whole =~= first + seq![rest]);
    functions_add_up(first, seq![rest]);
    functions_of_one(rest);
    functions_between_add_up(t, i + 1, n, source);
    functions_from_the_first(t, i, n, source);
}

proof fn functions_from_the_first(t: CstView, i: int, n: int, source: Seq<char>)
    requires
        0 <= i < n <= t.children.len(),
        t.children[i].data.named,
    ensures
        kotlin_functions_between(t, i, n, source) == function_count_all(
            kotlin_outline(t.children[i], Some(t), i, source),
        ) + kotlin_functions_between(t, i + 1, n, source),
    decreases n,
{
    if n > i + 1 {
        functions_from_the_first(t, i, n - 1, source);
    } else {
        assert(kotlin_functions_between(t, i, i, source) == 0);
        assert(kotlin_functions_between(t, i + 1, i + 1, source) == 0);
    }
}

/// A call of nothing records nothing.
pub proof fn kotlin_empty_calls_record_nothing(
    t: CstView,
    parent: Option<CstView>,
    index: int,
    source: Seq<char>,
    place: Place,
)
    requires
        t.data.kind == "call_expression"@,
        no_named(t, 0),
    ensures
        found_all(kotlin_outline(t, parent, index, source), place).symbols.len() == 0,
{
    kinds_differ();
    named_are_looked_up_from(t, 0);
}

/// Of an infix call of a plain identifier the left side is walked first, and then the right
/// side with the name of the identifier on offer, `()` behind it.
pub proof fn kotlin_infix_calls_are_named(
    t: CstView,
    parent: Option<CstView>,
    index: int,
    left: int,
    op: int,
    right: int,
    source: Seq<char>,
    place: Place,
)
    requires
        t.data.kind == "infix_expression"@,
        kotlin_infix(t, left, op, right),
    ensures
        found_all(kotlin_outline(t, parent, index, source), place).symbols == found_all(
            kotlin_outline(t.children[left], Some(t), left, source),
            place,
        ).symbols + found_all(
            kotlin_outline(t.children[right], Some(t), right, source),
            Place {
                hint: Some(node_text(t.children[op].data, source) + seq!['(', ')']),
                ..place
            },
        ).symbols,
{
    kinds_differ();
    infix_is_looked_up(t);
    reveal_strlit("()");
    assert("()"@ =~= seq!['(', ')']);
    let first = kotlin_outline(t.children[left], Some(t), left, source);
    let body = kotlin_outline(t.children[right], Some(t), right, source);
    let hint = Some(node_text(t.children[op].data, source) + "()"@);
    let rest = binding_view(hint, body);
    assert(kotlin_outline(t, parent, index, source) =~= first + seq![rest]);
    found_in_turn(first, seq![rest], place);
    let then = Place { hint: found_all(first, place).hint, ..place };
    bindings_offer(rest, then);
    assert(Place { scopes: then.scopes, hint, depth: then.depth } == Place { hint, ..place });
}

/// The symbols of a Kotlin source are what is recorded of the syntax tree that the parser
/// gave, with nothing around it. A source with a syntax error has none.
pub proof fn kotlin_files_are_walked(
    parsed: Result<Option<Seq<(nat, SyntaxView)>>, ()>,
    source: Seq<char>,
)
    ensures
        ({
            let top = Place { scopes: Seq::empty(), hint: None, depth: 0 };
            match kotlin_symbols(parsed, source) {
                Ok(symbols) => {
                    &&& parsed matches Ok(Some(nodes)) && !(nodes.len() > 0 && nodes[0].1.error)
                    &&& symbols == found_all(
                        kotlin_outline(parsed_tree(parsed), None, 0, source),
                        top,
                    ).symbols
                },
                Err(e) => {
                    &&& strict_error(parsed, source) is None ==> exists|i: int|
                        0 <= i < found_all(
                            kotlin_outline(parsed_tree(parsed), None, 0, source),
                            top,
                        ).symbols.len() && (#[trigger] found_all(
                            kotlin_outline(parsed_tree(parsed), None, 0, source),
                            top,
                        ).symbols[i]).depth > u32::MAX
                    &&& parsed is Err ==> e == AnalyzerError::Grammar
                    &&& (parsed matches Ok(Some(nodes)) && nodes.len() > 0 && nodes[0].1.error)
                        ==> e == AnalyzerError::Syntax
                },
            }
        }),
{
    if strict_error(parsed, source) is None {
        file_symbols_stand_alone(kotlin_outline(parsed_tree(parsed), None, 0, source));
    }
}

/// A Kotlin source in ASCII that is neither too long nor has too many quotes has the
/// symbols of what the parser gives for it.
pub proof fn kotlin_sources_are_parsed(source: Seq<char>, symbols: Extraction)
    requires
        kotlin_gives(source, symbols),
    ensures
        !addressable(source) ==> symbols == Err::<Seq<SymbolView>, AnalyzerError>(
            AnalyzerError::TooLong,
        ),
        addressable(source) && occurrences(source, '"') > 512 ==> symbols
            == Err::<Seq<SymbolView>, AnalyzerError>(AnalyzerError::Strings),
        addressable(source) && occurrences(source, '"') <= 512 && ascii(source) ==> symbols
            == kotlin_symbols(kotlin_parse(source), source),
{
}

} // verus!
