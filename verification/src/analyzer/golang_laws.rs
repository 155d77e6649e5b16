//! What is recorded of a Go source, in terms of its syntax tree.
use vstd::prelude::*;

use super::golang::{
    bare_type, bound_names, callee_name, element_identifier, go_bindings, go_outline,
    go_outline_all, go_symbols, identifier, receiver_type,
};
use super::outline::{
    OutlineView, Place, binding_view, call_hint, found_all, function_count_all,
};
use super::outline_laws::{
    bindings_offer, dotted, file_symbols_stand_alone, found_in_turn, functions_add_up,
    functions_are_recorded, functions_of_one, holds_run, parts_are_found, runs_of_runs,
    scopes_qualify, tail_is_run,
};
use super::syntax_laws::{
    fields_are_looked_up, first_in, first_kind, first_named, kinds_are_looked_up,
    named_are_looked_up, no_named, none_in,
};
use super::treesitter::{
    CstView, field_at, go_parse, in_field, is_named, named_at, node_text, parsed_tree,
    strict_error,
};
use super::{AnalyzerError, addressable};

verus! {

/// The kinds that matter differ.
proof fn kinds_differ()
    ensures
        "function_declaration"@ != "method_declaration"@,
        "function_declaration"@ != "func_literal"@,
        "function_declaration"@ != "short_var_declaration"@,
        "function_declaration"@ != "assignment_statement"@,
        "function_declaration"@ != "var_spec"@,
        "function_declaration"@ != "const_spec"@,
        "function_declaration"@ != "call_expression"@,
        "function_declaration"@ != "keyed_element"@,
        "method_declaration"@ != "func_literal"@,
        "method_declaration"@ != "short_var_declaration"@,
        "method_declaration"@ != "assignment_statement"@,
        "method_declaration"@ != "var_spec"@,
        "method_declaration"@ != "const_spec"@,
        "method_declaration"@ != "call_expression"@,
        "method_declaration"@ != "keyed_element"@,
        "func_literal"@ != "short_var_declaration"@,
        "func_literal"@ != "assignment_statement"@,
        "func_literal"@ != "var_spec"@,
        "func_literal"@ != "const_spec"@,
        "func_literal"@ != "call_expression"@,
        "func_literal"@ != "keyed_element"@,
        "short_var_declaration"@ != "assignment_statement"@,
        "short_var_declaration"@ != "var_spec"@,
        "short_var_declaration"@ != "const_spec"@,
        "short_var_declaration"@ != "call_expression"@,
        "short_var_declaration"@ != "keyed_element"@,
        "assignment_statement"@ != "var_spec"@,
        "assignment_statement"@ != "const_spec"@,
        "assignment_statement"@ != "call_expression"@,
        "assignment_statement"@ != "keyed_element"@,
        "var_spec"@ != "const_spec"@,
        "var_spec"@ != "call_expression"@,
        "var_spec"@ != "keyed_element"@,
        "const_spec"@ != "call_expression"@,
        "const_spec"@ != "keyed_element"@,
        "call_expression"@ != "keyed_element"@,
{
    reveal_strlit("function_declaration");
    assert("function_declaration"@.len() == 20);
    reveal_strlit("method_declaration");
    assert("method_declaration"@.len() == 18);
    reveal_strlit("func_literal");
    assert("func_literal"@.len() == 12);
    reveal_strlit("short_var_declaration");
    assert("short_var_declaration"@.len() == 21);
    reveal_strlit("assignment_statement");
    assert("assignment_statement"@.len() == 20);
    reveal_strlit("var_spec");
    assert("var_spec"@.len() == 8);
    reveal_strlit("const_spec");
    assert("const_spec"@.len() == 10);
    reveal_strlit("call_expression");
    assert("call_expression"@.len() == 15);
    reveal_strlit("keyed_element");
    assert("keyed_element"@.len() == 13);
    assert("function_declaration"@[0] != "assignment_statement"@[0]);
}

/// Whether a node is a function, a method or a function literal.
pub open spec fn go_is_function(t: CstView) -> bool {
    ||| t.data.kind == "function_declaration"@
    ||| t.data.kind == "method_declaration"@
    ||| t.data.kind == "func_literal"@
}

/// Whether a node binds names to the values below it.
pub open spec fn go_binds(t: CstView) -> bool {
    ||| t.data.kind == "short_var_declaration"@
    ||| t.data.kind == "assignment_statement"@
    ||| t.data.kind == "var_spec"@
    ||| t.data.kind == "const_spec"@
    ||| t.data.kind == "call_expression"@
    ||| t.data.kind == "keyed_element"@
}

/// Where the children of a node stand that binds no names: inside a function there is
/// one more function around them and no hint, and inside a method its receiver is around
/// them too.
pub open spec fn go_inside(t: CstView, source: Seq<char>, place: Place) -> Place {
    if !go_is_function(t) {
        place
    } else {
        Place {
            scopes: if t.data.kind == "method_declaration"@ {
                match receiver_type(t, source) {
                    Some(receiver) => place.scopes.push(receiver),
                    None => place.scopes,
                }
            } else {
                place.scopes
            },
            hint: None,
            depth: place.depth + 1,
        }
    }
}

proof fn outlines_split(trees: Seq<CstView>, i: int, source: Seq<char>) -> (after: Seq<OutlineView>)
    requires
        0 <= i < trees.len(),
    ensures
        go_outline_all(trees, source) == go_outline_all(trees.take(i), source) + go_outline(
            trees[i],
            source,
        ) + after,
    decreases trees.len(),
{
    let rest = trees.drop_last();
    if i == trees.len() - 1 {
        assert(trees.take(i) =~= rest);
        let after = Seq::<OutlineView>::empty();
        assert(go_outline_all(trees, source) =~= go_outline_all(rest, source) + go_outline(
            trees[i],
            source,
        ) + after);
        after
    } else {
        let before = outlines_split(rest, i, source);
        assert(rest.take(i) =~= trees.take(i));
        let after = before + go_outline(trees.last(), source);
        assert(go_outline_all(trees, source) =~= go_outline_all(trees.take(i), source) + go_outline(
            trees[i],
            source,
        ) + after);
        after
    }
}

/// A function, a method and a function literal is recorded first of all that is below it:
/// on the lines of its node, one level below the functions around it. A function goes by
/// its name, a method by its name behind the type of its receiver, and a literal by the
/// name on offer.
pub proof fn go_functions_come_first(t: CstView, source: Seq<char>, place: Place)
    requires
        go_is_function(t),
    ensures
        ({
            let symbols = found_all(go_outline(t, source), place).symbols;
            &&& symbols.len() > 0
            &&& symbols[0].start_line == t.data.start_row + 1
            &&& symbols[0].end_line == t.data.end_row + 1
            &&& symbols[0].depth == place.depth + 1
            &&& t.data.kind == "function_declaration"@ ==> {
                &&& forall|i: int| #[trigger]
                    first_in(t, "name"@, i) ==> symbols[0].name == dotted(
                        place.scopes,
                        node_text(t.children[i].data, source),
                    )
                &&& none_in(t, "name"@) ==> symbols[0].name == dotted(place.scopes, "<func>"@)
            }
            &&& t.data.kind == "method_declaration"@ ==> {
                let scopes = match receiver_type(t, source) {
                    Some(receiver) => place.scopes.push(receiver),
                    None => place.scopes,
                };
                &&& forall|i: int| #[trigger]
                    first_in(t, "name"@, i) ==> symbols[0].name == dotted(
                        scopes,
                        node_text(t.children[i].data, source),
                    )
                &&& none_in(t, "name"@) ==> symbols[0].name == dotted(scopes, "<method>"@)
            }
            &&& t.data.kind == "func_literal"@ ==> {
                &&& place.hint matches Some(name) ==> symbols[0].name == dotted(place.scopes, name)
                &&& place.hint is None ==> symbols[0].name == dotted(place.scopes, "<closure>"@)
            }
        }),
{
    kinds_differ();
    fields_are_looked_up(t, "name"@, source);
    let function = go_function(t, source);
    functions_are_recorded(function, Place { scopes: go_inside(t, source, place).scopes, ..place });
    if t.data.kind == "method_declaration"@ && receiver_type(t, source) is Some {
        scopes_qualify(go_outline(t, source)[0], place, receiver_type(t, source)->0);
        assert(go_outline(t, source) =~= seq![go_outline(t, source)[0]]);
        assert(go_outline(t, source)[0].children =~= seq![function]);
    } else {
        assert(go_outline(t, source) =~= seq![function]);
        assert(go_inside(t, source, place).scopes == place.scopes);
    }
}

/// The function that a node stands for.
spec fn go_function(t: CstView, source: Seq<char>) -> OutlineView {
    let outline = go_outline(t, source)[0];
    if t.data.kind == "method_declaration"@ && receiver_type(t, source) is Some {
        outline.children[0]
    } else {
        outline
    }
}

/// The type of a receiver is that of the first parameter among the children of the
/// receiver, without what is around its name: a pointer stands for what it points to, and
/// a generic type for what it is made of.
pub proof fn go_receivers_are_bare(
    t: CstView,
    i: int,
    j: int,
    k: int,
    source: Seq<char>,
)
    requires
        first_in(t, "receiver"@, i),
        first_kind(t.children[i], "parameter_declaration"@, j),
        first_in(t.children[i].children[j], "type"@, k),
    ensures
        receiver_type(t, source) == Some(
            bare_type(t.children[i].children[j].children[k], source),
        ),
{
    fields_are_looked_up(t, "receiver"@, source);
    kinds_are_looked_up(t.children[i], "parameter_declaration"@, source);
    fields_are_looked_up(t.children[i].children[j], "type"@, source);
}

/// A method without a receiver, or one that is no parameter with a type, has no receiver
/// type.
pub proof fn go_receivers_may_be_missing(t: CstView, source: Seq<char>)
    ensures
        none_in(t, "receiver"@) ==> receiver_type(t, source) is None,
        receiver_type(t, source) is Some ==> exists|i: int, j: int, k: int|
            first_in(t, "receiver"@, i) && #[trigger] first_kind(
                t.children[i],
                "parameter_declaration"@,
                j,
            ) && #[trigger] first_in(t.children[i].children[j], "type"@, k),
{
    fields_are_looked_up(t, "receiver"@, source);
    if let Some(i) = field_at(t, "receiver"@) {
        let receiver = t.children[i];
        kinds_are_looked_up(receiver, "parameter_declaration"@, source);
        if let Some(j) = super::treesitter::kind_at(receiver, "parameter_declaration"@) {
            fields_are_looked_up(receiver.children[j], "type"@, source);
        }
    }
}

/// The bare name of a type: a pointer has that of its first named child, a generic type
/// that of its type, and any other type goes by its text. A pointer or a generic type that
/// has no such child goes by a placeholder.
pub proof fn go_types_are_bared(t: CstView, i: int, source: Seq<char>)
    ensures
        t.data.kind == "pointer_type"@ && first_named(t, 0, i) ==> bare_type(t, source)
            == bare_type(t.children[i], source),
        t.data.kind == "generic_type"@ && first_in(t, "type"@, i) ==> bare_type(t, source)
            == bare_type(t.children[i], source),
        t.data.kind == "pointer_type"@ && no_named(t, 0) || t.data.kind == "generic_type"@
            && none_in(t, "type"@) ==> bare_type(t, source) == seq!['<', 't', 'y', 'p', 'e', '>'],
        t.data.kind != "pointer_type"@ && t.data.kind != "generic_type"@ ==> bare_type(t, source)
            == node_text(t.data, source),
{
    reveal_strlit("pointer_type");
    reveal_strlit("generic_type");
    reveal_strlit("<type>");
    assert("pointer_type"@[0] != "generic_type"@[0]);
    assert("<type>"@ =~= seq!['<', 't', 'y', 'p', 'e', '>']);
    fields_are_looked_up(t, "type"@, source);
    named_are_looked_up(t);
    if let Some(k) = named_at(t) {
        assert(t.children[k].data.named);
    }
    if let Some(k) = field_at(t, "type"@) {
        assert(t.children[k].data.field == Some("type"@));
    }
}

/// Every child of a node that binds no names is walked: what is recorded of it stands in a
/// row among what is recorded of the node. This holds of nodes of every kind, those that
/// are functions too.
pub proof fn go_children_are_walked(t: CstView, i: int, source: Seq<char>, place: Place)
    requires
        !go_binds(t),
        0 <= i < t.children.len(),
    ensures
        ({
            let inner = go_inside(t, source, place);
            let hint = found_all(go_outline_all(t.children.take(i), source), inner).hint;
            holds_run(
                found_all(go_outline(t, source), place).symbols,
                found_all(go_outline(t.children[i], source), Place { hint, ..inner }).symbols,
            )
        }),
{
    kinds_differ();
    let inner = go_inside(t, source, place);
    let after = outlines_split(t.children, i, source);
    let before = go_outline_all(t.children.take(i), source);
    let part = go_outline(t.children[i], source);
    parts_are_found(before, part, after, inner);
    let all = found_all(go_outline_all(t.children, source), inner).symbols;
    let hint = found_all(before, inner).hint;
    let child = found_all(part, Place { hint, ..inner }).symbols;
    if go_is_function(t) {
        let function = go_function(t, source);
        let outer = Place { scopes: inner.scopes, ..place };
        functions_are_recorded(function, outer);
        if t.data.kind == "method_declaration"@ && receiver_type(t, source) is Some {
            scopes_qualify(go_outline(t, source)[0], place, receiver_type(t, source)->0);
            assert(go_outline(t, source) =~= seq![go_outline(t, source)[0]]);
            assert(go_outline(t, source)[0].children =~= seq![function]);
        } else {
            assert(go_outline(t, source) =~= seq![function]);
            assert(inner.scopes == place.scopes);
        }
        let own = found_all(seq![function], outer).symbols;
        assert(function.children == go_outline_all(t.children, source));
        assert(own =~= seq![own[0]] + all);
        tail_is_run(seq![own[0]], all);
        runs_of_runs(own, all, child);
        assert(found_all(go_outline(t, source), place).symbols == own);
    } else {
        assert(go_outline(t, source) == go_outline_all(t.children, source));
    }
}

/// The number of functions below nodes, one by one.
pub open spec fn go_functions_below(trees: Seq<CstView>, source: Seq<char>) -> nat
    decreases trees.len(),
{
    if trees.len() == 0 {
        0
    } else {
        go_functions_below(trees.drop_last(), source) + function_count_all(
            go_outline(trees.last(), source),
        )
    }
}

proof fn functions_below_add_up(trees: Seq<CstView>, source: Seq<char>)
    ensures
        function_count_all(go_outline_all(trees, source)) == go_functions_below(trees, source),
    decreases trees.len(),
{
    if trees.len() > 0 {
        functions_below_add_up(trees.drop_last(), source);
        functions_add_up(
            go_outline_all(trees.drop_last(), source),
            go_outline(trees.last(), source),
        );
    }
}

/// Nothing else is recorded: a node that binds no names has as many functions as its
/// children together, and one more if it is a function itself.
pub proof fn go_functions_are_all_walked(t: CstView, source: Seq<char>)
    requires
        !go_binds(t),
    ensures
        function_count_all(go_outline(t, source)) == go_functions_below(t.children, source)
            + if go_is_function(t) {
            1nat
        } else {
            0
        },
{
    kinds_differ();
    functions_below_add_up(t.children, source);
    if go_is_function(t) {
        let function = go_function(t, source);
        functions_of_one(function);
        assert(function.children == go_outline_all(t.children, source));
        if t.data.kind == "method_declaration"@ && receiver_type(t, source) is Some {
            functions_of_one(go_outline(t, source)[0]);
            assert(go_outline(t, source) =~= seq![go_outline(t, source)[0]]);
            assert(go_outline(t, source)[0].children =~= seq![function]);
        } else {
            assert(go_outline(t, source) =~= seq![function]);
        }
    }
}

/// How many of the first `n` of `trees` are named.
pub open spec fn named_before(trees: Seq<CstView>, n: int) -> nat
    decreases n,
{
    if n <= 0 || n > trees.len() {
        0
    } else {
        named_before(trees, n - 1) + if trees[n - 1].data.named {
            1nat
        } else {
            0
        }
    }
}

/// The name on offer to the `k`-th value: the text of the `k`-th name, where there is one
/// and it is an identifier.
pub open spec fn go_name_of(names: Seq<CstView>, k: int, source: Seq<char>) -> Option<Seq<char>> {
    if 0 <= k < names.len() && names[k].data.kind == "identifier"@ {
        Some(node_text(names[k].data, source))
    } else {
        None
    }
}

proof fn bindings_are_counted(names: Seq<CstView>, values: Seq<CstView>, n: int, source: Seq<char>)
    requires
        0 <= n <= values.len(),
    ensures
        go_bindings(names, values.take(n), source).len() == named_before(values, n),
    decreases n,
{
    if n > 0 {
        bindings_are_counted(names, values, n - 1, source);
        assert(values.take(n).drop_last() =~= values.take(n - 1));
    }
}

proof fn bindings_grow(
    names: Seq<CstView>,
    values: Seq<CstView>,
    n: int,
    m: int,
    k: int,
    source: Seq<char>,
)
    requires
        0 <= n <= m <= values.len(),
        0 <= k < go_bindings(names, values.take(n), source).len(),
    ensures
        k < go_bindings(names, values.take(m), source).len(),
        go_bindings(names, values.take(m), source)[k] == go_bindings(
            names,
            values.take(n),
            source,
        )[k],
    decreases m,
{
    if n < m {
        bindings_grow(names, values, n, m - 1, k, source);
        assert(values.take(m).drop_last() =~= values.take(m - 1));
    }
}

proof fn value_is_bound(
    names: Seq<CstView>,
    values: Seq<CstView>,
    j: int,
    source: Seq<char>,
    place: Place,
)
    requires
        0 <= j < values.len(),
        values[j].data.named,
    ensures
        holds_run(
            found_all(go_bindings(names, values, source), place).symbols,
            found_all(
                go_outline(values[j], source),
                Place { hint: go_name_of(names, named_before(values, j) as int, source), ..place },
            ).symbols,
        ),
{
    let all = go_bindings(names, values, source);
    let k = named_before(values, j) as int;
    let hint = go_name_of(names, k, source);
    bindings_are_counted(names, values, j, source);
    assert(values.take(j + 1).drop_last() =~= values.take(j));
    assert(values.take(values.len() as int) =~= values);
    bindings_grow(names, values, j + 1, values.len() as int, k, source);
    let bound = binding_view(hint, go_outline(values[j], source));
    assert(go_bindings(names, values.take(j + 1), source)[k] == bound);
    assert(all[k] == bound);
    assert(all =~= all.take(k) + seq![bound] + all.skip(k + 1));
    parts_are_found(all.take(k), seq![bound], all.skip(k + 1), place);
    let then = Place { hint: found_all(all.take(k), place).hint, ..place };
    bindings_offer(bound, then);
    assert(Place { scopes: then.scopes, hint, depth: then.depth } == Place { hint, ..place });
}

/// The number of functions below the named ones of `values`.
pub open spec fn go_functions_bound(values: Seq<CstView>, source: Seq<char>) -> nat
    decreases values.len(),
{
    if values.len() == 0 {
        0
    } else {
        go_functions_bound(values.drop_last(), source) + if values.last().data.named {
            function_count_all(go_outline(values.last(), source))
        } else {
            0
        }
    }
}

proof fn functions_bound_add_up(names: Seq<CstView>, values: Seq<CstView>, source: Seq<char>)
    ensures
        function_count_all(go_bindings(names, values, source)) == go_functions_bound(
            values,
            source,
        ),
    decreases values.len(),
{
    if values.len() > 0 {
        let before = go_bindings(names, values.drop_last(), source);
        functions_bound_add_up(names, values.drop_last(), source);
        if values.last().data.named {
            let bound = go_bindings(names, values, source).last();
            functions_add_up(before, seq![bound]);
            functions_of_one(bound);
            assert(go_bindings(names, values, source) =~= before + seq![bound]);
        }
    }
}

/// In `a, b := x, y` and in `a, b = x, y` every value on the right is walked with the name
/// on offer that stands at its place on the left, and nothing else is.
pub proof fn go_assigned_values_are_named(
    t: CstView,
    left: int,
    right: int,
    j: int,
    source: Seq<char>,
    place: Place,
)
    requires
        t.data.kind == "short_var_declaration"@ || t.data.kind == "assignment_statement"@,
        first_in(t, "left"@, left),
        first_in(t, "right"@, right),
        0 <= j < t.children[right].children.len(),
        t.children[right].children[j].data.named,
    ensures
        ({
            let values = t.children[right].children;
            let names = t.children[left].children.filter(|c: CstView| c.data.named);
            let hint = go_name_of(names, named_before(values, j) as int, source);
            &&& holds_run(
                found_all(go_outline(t, source), place).symbols,
                found_all(go_outline(values[j], source), Place { hint, ..place }).symbols,
            )
            &&& function_count_all(go_outline(t, source)) == go_functions_bound(values, source)
        }),
{
    kinds_differ();
    fields_are_looked_up(t, "left"@, source);
    fields_are_looked_up(t, "right"@, source);
    let values = t.children[right].children;
    assert(is_named() =~= (|c: CstView| c.data.named));
    value_is_bound(bound_names(t), values, j, source, place);
    functions_bound_add_up(bound_names(t), values, source);
}

/// In `var a, b = x, y` and the like every value is walked with the name on offer that
/// stands at its place, and nothing else is.
pub proof fn go_declared_values_are_named(
    t: CstView,
    right: int,
    j: int,
    source: Seq<char>,
    place: Place,
)
    requires
        t.data.kind == "var_spec"@ || t.data.kind == "const_spec"@,
        first_in(t, "value"@, right),
        0 <= j < t.children[right].children.len(),
        t.children[right].children[j].data.named,
    ensures
        ({
            let values = t.children[right].children;
            let names = t.children.filter(|c: CstView| c.data.field == Some("name"@));
            let hint = go_name_of(names, named_before(values, j) as int, source);
            &&& holds_run(
                found_all(go_outline(t, source), place).symbols,
                found_all(go_outline(values[j], source), Place { hint, ..place }).symbols,
            )
            &&& function_count_all(go_outline(t, source)) == go_functions_bound(values, source)
        }),
{
    kinds_differ();
    fields_are_looked_up(t, "value"@, source);
    let values = t.children[right].children;
    let names = t.children.filter(in_field("name"@));
    assert(in_field("name"@) =~= (|c: CstView| c.data.field == Some("name"@)));
    value_is_bound(names, values, j, source, place);
    functions_bound_add_up(names, values, source);
}

/// Of a call what is called is walked first, and then its arguments with a name on offer:
/// that of the function called, or of the field that is, with `()` behind it. Nothing else
/// is walked.
pub proof fn go_arguments_are_named(
    t: CstView,
    function: int,
    arguments: int,
    source: Seq<char>,
    place: Place,
)
    requires
        t.data.kind == "call_expression"@,
        first_in(t, "function"@, function),
        first_in(t, "arguments"@, arguments),
    ensures
        ({
            let called = t.children[function];
            let hint = call_hint(callee_name(called, source));
            &&& found_all(go_outline(t, source), place).symbols == found_all(
                go_outline(called, source),
                place,
            ).symbols + found_all(
                go_outline_all(t.children[arguments].children, source),
                Place { hint, ..place },
            ).symbols
            &&& called.data.kind == "identifier"@ ==> hint == Some(
                node_text(called.data, source) + seq!['(', ')'],
            )
            &&& called.data.kind == "selector_expression"@ ==> forall|i: int| #[trigger]
                first_in(called, "field"@, i) ==> hint == Some(
                    node_text(called.children[i].data, source) + seq!['(', ')'],
                )
            &&& called.data.kind != "identifier"@ && called.data.kind != "selector_expression"@
                ==> hint is None
        }),
{
    kinds_differ();
    fields_are_looked_up(t, "function"@, source);
    fields_are_looked_up(t, "arguments"@, source);
    let called = t.children[function];
    fields_are_looked_up(called, "field"@, source);
    let hint = call_hint(callee_name(called, source));
    let body = go_outline_all(t.children[arguments].children, source);
    let rest = binding_view(hint, body);
    let first = go_outline(called, source);
    assert(go_outline(t, source) =~= first + seq![rest]);
    found_in_turn(first, seq![rest], place);
    let then = Place { hint: found_all(first, place).hint, ..place };
    bindings_offer(rest, then);
    assert(Place { scopes: then.scopes, hint, depth: then.depth } == Place { hint, ..place });
    reveal_strlit("()");
    assert("()"@ =~= seq!['(', ')']);
    reveal_strlit("identifier");
    reveal_strlit("selector_expression");
    assert("identifier"@.len() != "selector_expression"@.len());
}

/// Lists are walked from front to back, every node of them: what is recorded of a node
/// stands in a row among what is recorded of the list, and before it there is what is
/// recorded of the nodes before it.
pub proof fn go_lists_are_walked(trees: Seq<CstView>, i: int, source: Seq<char>, place: Place)
    requires
        0 <= i < trees.len(),
    ensures
        ({
            let before = found_all(go_outline_all(trees.take(i), source), place);
            let then = found_all(go_outline(trees[i], source), Place { hint: before.hint, ..place });
            &&& (before.symbols + then.symbols).is_prefix_of(
                found_all(go_outline_all(trees, source), place).symbols,
            )
            &&& function_count_all(go_outline_all(trees, source)) == go_functions_below(
                trees,
                source,
            )
        }),
{
    let after = outlines_split(trees, i, source);
    let before = go_outline_all(trees.take(i), source);
    let part = go_outline(trees[i], source);
    functions_below_add_up(trees, source);
    found_in_turn(before, part, place);
    found_in_turn(before + part, after, place);
}

/// Of a keyed element of a literal the value is walked with the name on offer that the key
/// is, where it is an identifier, or the first named thing in an element that is one.
pub proof fn go_fields_are_named(
    t: CstView,
    key: int,
    value: int,
    source: Seq<char>,
    place: Place,
)
    requires
        t.data.kind == "keyed_element"@,
        first_in(t, "key"@, key),
        first_in(t, "value"@, value),
    ensures
        ({
            let named = t.children[key];
            let hint = element_identifier(named, source);
            &&& found_all(go_outline(t, source), place).symbols == found_all(
                go_outline(t.children[value], source),
                Place { hint, ..place },
            ).symbols
            &&& named.data.kind == "identifier"@ ==> hint == Some(node_text(named.data, source))
            &&& named.data.kind == "literal_element"@ ==> forall|i: int| #[trigger]
                first_named(named, 0, i) ==> hint == (if named.children[i].data.kind
                    == "identifier"@ {
                    Some(node_text(named.children[i].data, source))
                } else {
                    None
                })
            &&& named.data.kind != "identifier"@ && named.data.kind != "literal_element"@
                ==> hint is None
        }),
{
    kinds_differ();
    fields_are_looked_up(t, "key"@, source);
    fields_are_looked_up(t, "value"@, source);
    named_are_looked_up(t.children[key]);
    let hint = element_identifier(t.children[key], source);
    let bound = binding_view(hint, go_outline(t.children[value], source));
    assert(go_outline(t, source) =~= seq![bound]);
    bindings_offer(bound, place);
    assert(Place { scopes: place.scopes, hint, depth: place.depth } == Place { hint, ..place });
    reveal_strlit("identifier");
    reveal_strlit("literal_element");
    assert("identifier"@.len() != "literal_element"@.len());
}

/// Where a part is missing that would name a value, none is on offer to it, and where the
/// values are missing nothing is recorded. A call without arguments is what is called.
pub proof fn go_parts_may_be_missing(t: CstView, i: int, source: Seq<char>, place: Place)
    ensures
        ({
            let symbols = found_all(go_outline(t, source), place).symbols;
            let assigns = t.data.kind == "short_var_declaration"@ || t.data.kind
                == "assignment_statement"@;
            let declares = t.data.kind == "var_spec"@ || t.data.kind == "const_spec"@;
            &&& assigns && none_in(t, "left"@) && first_in(t, "right"@, i) ==> forall|j: int|
                0 <= j < t.children[i].children.len() && t.children[i].children[j].data.named
                    ==> holds_run(
                    symbols,
                    found_all(
                        go_outline(#[trigger] t.children[i].children[j], source),
                        Place { hint: None, ..place },
                    ).symbols,
                )
            &&& assigns && none_in(t, "right"@) ==> symbols.len() == 0
            &&& declares && none_in(t, "value"@) ==> symbols.len() == 0
            &&& t.data.kind == "keyed_element"@ && none_in(t, "value"@) ==> symbols.len() == 0
            &&& t.data.kind == "keyed_element"@ && none_in(t, "key"@) && first_in(t, "value"@, i)
                ==> symbols == found_all(
                go_outline(t.children[i], source),
                Place { hint: None, ..place },
            ).symbols
            &&& t.data.kind == "call_expression"@ && none_in(t, "arguments"@) && first_in(
                t,
                "function"@,
                i,
            ) ==> symbols == found_all(go_outline(t.children[i], source), place).symbols
        }),
{
    kinds_differ();
    fields_are_looked_up(t, "left"@, source);
    fields_are_looked_up(t, "right"@, source);
    fields_are_looked_up(t, "value"@, source);
    fields_are_looked_up(t, "key"@, source);
    fields_are_looked_up(t, "function"@, source);
    fields_are_looked_up(t, "arguments"@, source);
    let assigns = t.data.kind == "short_var_declaration"@ || t.data.kind
        == "assignment_statement"@;
    let symbols = found_all(go_outline(t, source), place).symbols;
    if assigns && none_in(t, "left"@) && first_in(t, "right"@, i) {
        let values = t.children[i].children;
        assert forall|j: int|
            0 <= j < values.len() && values[j].data.named implies holds_run(
            symbols,
            found_all(
                go_outline(#[trigger] values[j], source),
                Place { hint: None, ..place },
            ).symbols,
        ) by {
            value_is_bound(bound_names(t), values, j, source, place);
        }
    }
    if t.data.kind == "keyed_element"@ && none_in(t, "key"@) && first_in(t, "value"@, i) {
        let bound = binding_view(None, go_outline(t.children[i], source));
        assert(go_outline(t, source) =~= seq![bound]);
        bindings_offer(bound, place);
        assert(Place { scopes: place.scopes, hint: None, depth: place.depth }
            == Place { hint: None, ..place });
    }
}

/// The symbols of a Go source are what is recorded of its syntax tree with nothing around
/// it. A source with a syntax error has none.
pub proof fn go_files_are_walked(source: Seq<char>)
    ensures
        ({
            let top = Place { scopes: Seq::empty(), hint: None, depth: 0 };
            match go_symbols(source) {
                Ok(symbols) => {
                    &&& addressable(source)
                    &&& go_parse(source) matches Ok(Some(nodes)) && !(nodes.len() > 0
                        && nodes[0].1.error)
                    &&& symbols == found_all(
                        go_outline(parsed_tree(go_parse(source)), source),
                        top,
                    ).symbols
                },
                Err(e) => {
                    &&& addressable(source) && strict_error(go_parse(source), source) is None
                        ==> exists|i: int|
                        0 <= i < found_all(
                            go_outline(parsed_tree(go_parse(source)), source),
                            top,
                        ).symbols.len() && (#[trigger] found_all(
                            go_outline(parsed_tree(go_parse(source)), source),
                            top,
                        ).symbols[i]).depth > u32::MAX
                    &&& !addressable(source) ==> e == AnalyzerError::TooLong
                    &&& addressable(source) && go_parse(source) is Err ==> e
                        == AnalyzerError::Grammar
                    &&& addressable(source) && (go_parse(source) matches Ok(Some(nodes))
                        && nodes.len() > 0 && nodes[0].1.error) ==> e == AnalyzerError::Syntax
                },
            }
        }),
{
    if addressable(source) && strict_error(go_parse(source), source) is None {
        file_symbols_stand_alone(go_outline(parsed_tree(go_parse(source)), source));
    }
}

} // verus!
