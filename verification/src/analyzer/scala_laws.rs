//! What is recorded of a Scala source, in terms of its syntax tree.
use vstd::prelude::*;

use super::outline::{
    LabelView, OutlineView, Place, found_all, function_count_all,
    inner_place, scope_view,
};
use super::outline_laws::{
    bindings_offer, dotted, file_symbols_stand_alone, found_in_turn, functions_add_up,
    functions_are_recorded, functions_of_one, holds_run, inner_runs, parts_are_found,
    scopes_qualify,
};
use super::scala::{
    callee_name, instance_supertype, is_instance_type, scala_instance_outline, scala_outline,
    scala_outline_all, scala_symbols, type_base_name,
};
use super::syntax_laws::{
    fields_are_looked_up, first_in, first_kind, first_named, kinds_are_looked_up,
    named_are_looked_up, no_named, none_in,
};
use super::treesitter::{
    CstView, content_end_row, field_at, first_where, first_where_found, is_named, last_where,
    last_where_found, named_at, node_text, parsed_tree, scala_parse, strict_error,
};
use super::{AnalyzerError, addressable};

verus! {

/// The kinds that matter differ.
proof fn kinds_differ()
    ensures
        "class_definition"@ != "object_definition"@,
        "class_definition"@ != "trait_definition"@,
        "class_definition"@ != "enum_definition"@,
        "class_definition"@ != "given_definition"@,
        "class_definition"@ != "package_object"@,
        "class_definition"@ != "simple_enum_case"@,
        "class_definition"@ != "full_enum_case"@,
        "class_definition"@ != "instance_expression"@,
        "class_definition"@ != "function_definition"@,
        "class_definition"@ != "lambda_expression"@,
        "class_definition"@ != "case_block"@,
        "class_definition"@ != "indented_cases"@,
        "class_definition"@ != "colon_argument"@,
        "class_definition"@ != "val_definition"@,
        "class_definition"@ != "var_definition"@,
        "class_definition"@ != "call_expression"@,
        "class_definition"@ != "infix_expression"@,
        "object_definition"@ != "trait_definition"@,
        "object_definition"@ != "enum_definition"@,
        "object_definition"@ != "given_definition"@,
        "object_definition"@ != "package_object"@,
        "object_definition"@ != "simple_enum_case"@,
        "object_definition"@ != "full_enum_case"@,
        "object_definition"@ != "instance_expression"@,
        "object_definition"@ != "function_definition"@,
        "object_definition"@ != "lambda_expression"@,
        "object_definition"@ != "case_block"@,
        "object_definition"@ != "indented_cases"@,
        "object_definition"@ != "colon_argument"@,
        "object_definition"@ != "val_definition"@,
        "object_definition"@ != "var_definition"@,
        "object_definition"@ != "call_expression"@,
        "object_definition"@ != "infix_expression"@,
        "trait_definition"@ != "enum_definition"@,
        "trait_definition"@ != "given_definition"@,
        "trait_definition"@ != "package_object"@,
        "trait_definition"@ != "simple_enum_case"@,
        "trait_definition"@ != "full_enum_case"@,
        "trait_definition"@ != "instance_expression"@,
        "trait_definition"@ != "function_definition"@,
        "trait_definition"@ != "lambda_expression"@,
        "trait_definition"@ != "case_block"@,
        "trait_definition"@ != "indented_cases"@,
        "trait_definition"@ != "colon_argument"@,
        "trait_definition"@ != "val_definition"@,
        "trait_definition"@ != "var_definition"@,
        "trait_definition"@ != "call_expression"@,
        "trait_definition"@ != "infix_expression"@,
        "enum_definition"@ != "given_definition"@,
        "enum_definition"@ != "package_object"@,
        "enum_definition"@ != "simple_enum_case"@,
        "enum_definition"@ != "full_enum_case"@,
        "enum_definition"@ != "instance_expression"@,
        "enum_definition"@ != "function_definition"@,
        "enum_definition"@ != "lambda_expression"@,
        "enum_definition"@ != "case_block"@,
        "enum_definition"@ != "indented_cases"@,
        "enum_definition"@ != "colon_argument"@,
        "enum_definition"@ != "val_definition"@,
        "enum_definition"@ != "var_definition"@,
        "enum_definition"@ != "call_expression"@,
        "enum_definition"@ != "infix_expression"@,
        "given_definition"@ != "package_object"@,
        "given_definition"@ != "simple_enum_case"@,
        "given_definition"@ != "full_enum_case"@,
        "given_definition"@ != "instance_expression"@,
        "given_definition"@ != "function_definition"@,
        "given_definition"@ != "lambda_expression"@,
        "given_definition"@ != "case_block"@,
        "given_definition"@ != "indented_cases"@,
        "given_definition"@ != "colon_argument"@,
        "given_definition"@ != "val_definition"@,
        "given_definition"@ != "var_definition"@,
        "given_definition"@ != "call_expression"@,
        "given_definition"@ != "infix_expression"@,
        "package_object"@ != "simple_enum_case"@,
        "package_object"@ != "full_enum_case"@,
        "package_object"@ != "instance_expression"@,
        "package_object"@ != "function_definition"@,
        "package_object"@ != "lambda_expression"@,
        "package_object"@ != "case_block"@,
        "package_object"@ != "indented_cases"@,
        "package_object"@ != "colon_argument"@,
        "package_object"@ != "val_definition"@,
        "package_object"@ != "var_definition"@,
        "package_object"@ != "call_expression"@,
        "package_object"@ != "infix_expression"@,
        "simple_enum_case"@ != "full_enum_case"@,
        "simple_enum_case"@ != "instance_expression"@,
        "simple_enum_case"@ != "function_definition"@,
        "simple_enum_case"@ != "lambda_expression"@,
        "simple_enum_case"@ != "case_block"@,
        "simple_enum_case"@ != "indented_cases"@,
        "simple_enum_case"@ != "colon_argument"@,
        "simple_enum_case"@ != "val_definition"@,
        "simple_enum_case"@ != "var_definition"@,
        "simple_enum_case"@ != "call_expression"@,
        "simple_enum_case"@ != "infix_expression"@,
        "full_enum_case"@ != "instance_expression"@,
        "full_enum_case"@ != "function_definition"@,
        "full_enum_case"@ != "lambda_expression"@,
        "full_enum_case"@ != "case_block"@,
        "full_enum_case"@ != "indented_cases"@,
        "full_enum_case"@ != "colon_argument"@,
        "full_enum_case"@ != "val_definition"@,
        "full_enum_case"@ != "var_definition"@,
        "full_enum_case"@ != "call_expression"@,
        "full_enum_case"@ != "infix_expression"@,
        "instance_expression"@ != "function_definition"@,
        "instance_expression"@ != "lambda_expression"@,
        "instance_expression"@ != "case_block"@,
        "instance_expression"@ != "indented_cases"@,
        "instance_expression"@ != "colon_argument"@,
        "instance_expression"@ != "val_definition"@,
        "instance_expression"@ != "var_definition"@,
        "instance_expression"@ != "call_expression"@,
        "instance_expression"@ != "infix_expression"@,
        "function_definition"@ != "lambda_expression"@,
        "function_definition"@ != "case_block"@,
        "function_definition"@ != "indented_cases"@,
        "function_definition"@ != "colon_argument"@,
        "function_definition"@ != "val_definition"@,
        "function_definition"@ != "var_definition"@,
        "function_definition"@ != "call_expression"@,
        "function_definition"@ != "infix_expression"@,
        "lambda_expression"@ != "case_block"@,
        "lambda_expression"@ != "indented_cases"@,
        "lambda_expression"@ != "colon_argument"@,
        "lambda_expression"@ != "val_definition"@,
        "lambda_expression"@ != "var_definition"@,
        "lambda_expression"@ != "call_expression"@,
        "lambda_expression"@ != "infix_expression"@,
        "case_block"@ != "indented_cases"@,
        "case_block"@ != "colon_argument"@,
        "case_block"@ != "val_definition"@,
        "case_block"@ != "var_definition"@,
        "case_block"@ != "call_expression"@,
        "case_block"@ != "infix_expression"@,
        "indented_cases"@ != "colon_argument"@,
        "indented_cases"@ != "val_definition"@,
        "indented_cases"@ != "var_definition"@,
        "indented_cases"@ != "call_expression"@,
        "indented_cases"@ != "infix_expression"@,
        "colon_argument"@ != "val_definition"@,
        "colon_argument"@ != "var_definition"@,
        "colon_argument"@ != "call_expression"@,
        "colon_argument"@ != "infix_expression"@,
        "val_definition"@ != "var_definition"@,
        "val_definition"@ != "call_expression"@,
        "val_definition"@ != "infix_expression"@,
        "var_definition"@ != "call_expression"@,
        "var_definition"@ != "infix_expression"@,
        "call_expression"@ != "infix_expression"@,
{
    reveal_strlit("class_definition");
    assert("class_definition"@.len() == 16);
    reveal_strlit("object_definition");
    assert("object_definition"@.len() == 17);
    reveal_strlit("trait_definition");
    assert("trait_definition"@.len() == 16);
    reveal_strlit("enum_definition");
    assert("enum_definition"@.len() == 15);
    reveal_strlit("given_definition");
    assert("given_definition"@.len() == 16);
    reveal_strlit("package_object");
    assert("package_object"@.len() == 14);
    reveal_strlit("simple_enum_case");
    assert("simple_enum_case"@.len() == 16);
    reveal_strlit("full_enum_case");
    assert("full_enum_case"@.len() == 14);
    reveal_strlit("instance_expression");
    assert("instance_expression"@.len() == 19);
    reveal_strlit("function_definition");
    assert("function_definition"@.len() == 19);
    reveal_strlit("lambda_expression");
    assert("lambda_expression"@.len() == 17);
    reveal_strlit("case_block");
    assert("case_block"@.len() == 10);
    reveal_strlit("indented_cases");
    assert("indented_cases"@.len() == 14);
    reveal_strlit("colon_argument");
    assert("colon_argument"@.len() == 14);
    reveal_strlit("val_definition");
    assert("val_definition"@.len() == 14);
    reveal_strlit("var_definition");
    assert("var_definition"@.len() == 14);
    reveal_strlit("call_expression");
    assert("call_expression"@.len() == 15);
    reveal_strlit("infix_expression");
    assert("infix_expression"@.len() == 16);
    assert("class_definition"@[0] != "trait_definition"@[0]);
    assert("class_definition"@[0] != "given_definition"@[0]);
    assert("class_definition"@[0] != "simple_enum_case"@[0]);
    assert("class_definition"@[0] != "infix_expression"@[0]);
    assert("object_definition"@[0] != "lambda_expression"@[0]);
    assert("trait_definition"@[0] != "given_definition"@[0]);
    assert("trait_definition"@[0] != "simple_enum_case"@[0]);
    assert("trait_definition"@[0] != "infix_expression"@[0]);
    assert("enum_definition"@[0] != "call_expression"@[0]);
    assert("given_definition"@[0] != "simple_enum_case"@[0]);
    assert("given_definition"@[0] != "infix_expression"@[0]);
    assert("package_object"@[0] != "full_enum_case"@[0]);
    assert("package_object"@[0] != "indented_cases"@[0]);
    assert("package_object"@[0] != "colon_argument"@[0]);
    assert("package_object"@[0] != "val_definition"@[0]);
    assert("package_object"@[0] != "var_definition"@[0]);
    assert("simple_enum_case"@[0] != "infix_expression"@[0]);
    assert("full_enum_case"@[0] != "indented_cases"@[0]);
    assert("full_enum_case"@[0] != "colon_argument"@[0]);
    assert("full_enum_case"@[0] != "val_definition"@[0]);
    assert("full_enum_case"@[0] != "var_definition"@[0]);
    assert("instance_expression"@[0] != "function_definition"@[0]);
    assert("indented_cases"@[0] != "colon_argument"@[0]);
    assert("indented_cases"@[0] != "val_definition"@[0]);
    assert("indented_cases"@[0] != "var_definition"@[0]);
    assert("colon_argument"@[0] != "val_definition"@[0]);
    assert("colon_argument"@[0] != "var_definition"@[0]);
    assert("val_definition"@[2] != "var_definition"@[2]);
}

/// The kinds of callees differ.
proof fn callee_kinds_differ()
    ensures
        "identifier"@ != "operator_identifier"@,
        "identifier"@ != "field_expression"@,
        "identifier"@ != "generic_function"@,
        "identifier"@ != "call_expression"@,
        "operator_identifier"@ != "field_expression"@,
        "operator_identifier"@ != "generic_function"@,
        "operator_identifier"@ != "call_expression"@,
        "field_expression"@ != "generic_function"@,
        "field_expression"@ != "call_expression"@,
        "generic_function"@ != "call_expression"@,
{
    reveal_strlit("identifier");
    assert("identifier"@.len() == 10);
    reveal_strlit("operator_identifier");
    assert("operator_identifier"@.len() == 19);
    reveal_strlit("field_expression");
    assert("field_expression"@.len() == 16);
    reveal_strlit("generic_function");
    assert("generic_function"@.len() == 16);
    reveal_strlit("call_expression");
    assert("call_expression"@.len() == 15);
    assert("field_expression"@[0] != "generic_function"@[0]);
}

/// The kinds of types differ.
proof fn type_kinds_differ()
    ensures
        "generic_type"@ != "compound_type"@,
        "generic_type"@ != "stable_type_identifier"@,
        "compound_type"@ != "stable_type_identifier"@,
{
    reveal_strlit("generic_type");
    assert("generic_type"@.len() == 12);
    reveal_strlit("compound_type");
    assert("compound_type"@.len() == 13);
    reveal_strlit("stable_type_identifier");
    assert("stable_type_identifier"@.len() == 22);
}

/// Whether a node names a scope for what is inside it.
pub open spec fn scala_is_scope(t: CstView) -> bool {
    ||| t.data.kind == "class_definition"@
    ||| t.data.kind == "object_definition"@
    ||| t.data.kind == "trait_definition"@
    ||| t.data.kind == "enum_definition"@
    ||| t.data.kind == "given_definition"@
    ||| t.data.kind == "package_object"@
    ||| t.data.kind == "simple_enum_case"@
    ||| t.data.kind == "full_enum_case"@
}

/// Whether the child at `index` is the body of a `def`.
pub open spec fn scala_is_body(parent: Option<CstView>, index: int) -> bool {
    &&& parent is Some
    &&& parent->0.data.kind == "function_definition"@
    &&& first_in(parent->0, "body"@, index)
}

/// Whether a node is a function: a `def`, and a lambda or a list of cases that is not the
/// body of one, the cases of a `match` and of a `catch` left out.
pub open spec fn scala_is_function(t: CstView, parent: Option<CstView>, index: int) -> bool {
    let handled = parent is Some && (parent->0.data.kind == "match_expression"@
        || parent->0.data.kind == "catch_clause"@);
    ||| t.data.kind == "function_definition"@
    ||| t.data.kind == "lambda_expression"@ && !scala_is_body(parent, index)
    ||| t.data.kind == "case_block"@ && !scala_is_body(parent, index) && !handled
    ||| t.data.kind == "indented_cases"@ && !scala_is_body(parent, index) && !handled
    ||| t.data.kind == "colon_argument"@ && exists|i: int| #[trigger]
        first_in(t, "lambda_start"@, i)
}

/// Whether a node picks which of its children are walked, and with what on offer.
pub open spec fn scala_picks(t: CstView) -> bool {
    ||| t.data.kind == "instance_expression"@ && exists|i: int| #[trigger]
        first_kind(t, "template_body"@, i)
    ||| t.data.kind == "val_definition"@
    ||| t.data.kind == "var_definition"@
    ||| t.data.kind == "call_expression"@
    ||| t.data.kind == "infix_expression"@ && exists|left: int, op: int, right: int| #[trigger]
        scala_infix(t, left, op, right)
}

/// Whether an infix call has its three parts at these places.
pub open spec fn scala_infix(t: CstView, left: int, op: int, right: int) -> bool {
    &&& first_in(t, "left"@, left)
    &&& first_in(t, "operator"@, op)
    &&& first_in(t, "right"@, right)
}

/// Where the children of a node stand: below a function with one more function around
/// them and no hint, below a scope with its name around them, and below any other node
/// where the node stands.
pub open spec fn scala_stands_inside(
    t: CstView,
    parent: Option<CstView>,
    index: int,
    source: Seq<char>,
    place: Place,
    inner: Place,
) -> bool {
    if scala_is_function(t, parent, index) {
        inner == (Place { scopes: place.scopes, hint: None, depth: place.depth + 1 })
    } else if scala_is_scope(t) {
        &&& forall|i: int| #[trigger]
            first_in(t, "name"@, i) ==> inner == (Place {
                scopes: place.scopes.push(node_text(t.children[i].data, source)),
                hint: place.hint,
                depth: place.depth,
            })
        &&& none_in(t, "name"@) ==> inner == place
    } else {
        inner == place
    }
}

/// What is inside a node as a whole, and how it stands in the outline.
proof fn wrapping(
    t: CstView,
    parent: Option<CstView>,
    index: int,
    source: Seq<char>,
    place: Place,
) -> (inner: Place)
    requires
        !scala_picks(t),
    ensures
        scala_stands_inside(t, parent, index, source, place, inner),
        ({
            let whole = scala_outline(t, parent, index, source);
            let all = scala_outline_all(t, t.children.len() as int, source);
            ||| whole == all && inner == place && !scala_is_function(t, parent, index)
            ||| whole == seq![whole[0]] && whole[0].children == all && inner == inner_place(
                whole[0],
                place,
            ) && (whole[0].data is Function <==> scala_is_function(t, parent, index))
        }),
{
    kinds_differ();
    kinds_are_looked_up(t, "template_body"@, source);
    fields_are_looked_up(t, "name"@, source);
    fields_are_looked_up(t, "lambda_start"@, source);
    fields_are_looked_up(t, "left"@, source);
    fields_are_looked_up(t, "operator"@, source);
    fields_are_looked_up(t, "right"@, source);
    if let Some(p) = parent {
        fields_are_looked_up(p, "body"@, source);
    }
    let whole = scala_outline(t, parent, index, source);
    let all = scala_outline_all(t, t.children.len() as int, source);
    if t.data.kind == "infix_expression"@ {
        if let (Some(left), Some(op), Some(right)) = (
            field_at(t, "left"@),
            field_at(t, "operator"@),
            field_at(t, "right"@),
        ) {
            assert(scala_infix(t, left, op, right));
        }
    }
    if scala_is_function(t, parent, index) {
        assert(whole =~= seq![whole[0]]);
        inner_place(whole[0], place)
    } else if scala_is_scope(t) {
        match field_at(t, "name"@) {
            Some(i) => {
                let name = node_text(t.children[i].data, source);
                assert(whole =~= seq![scope_view(LabelView::Fixed(name), all)]);
                inner_place(whole[0], place)
            },
            None => {
                assert(whole == all);
                place
            },
        }
    } else {
        assert(whole == all);
        place
    }
}

proof fn outlines_split(t: CstView, n: int, i: int, source: Seq<char>) -> (after: Seq<OutlineView>)
    requires
        0 <= i < n <= t.children.len(),
    ensures
        scala_outline_all(t, n, source) == scala_outline_all(t, i, source) + scala_outline(
            t.children[i],
            Some(t),
            i,
            source,
        ) + after,
    decreases n,
{
    let child = scala_outline(t.children[i], Some(t), i, source);
    if i == n - 1 {
        let after = Seq::<OutlineView>::empty();
        assert(scala_outline_all(t, n, source) =~= scala_outline_all(t, i, source) + child
            + after);
        after
    } else {
        let before = outlines_split(t, n - 1, i, source);
        let after = before + scala_outline(t.children[n - 1], Some(t), n - 1, source);
        assert(scala_outline_all(t, n, source) =~= scala_outline_all(t, i, source) + child
            + after);
        after
    }
}

/// Every child of a node that does not pick is walked: what is recorded of it stands in a
/// row among what is recorded of the node. This holds of nodes of every kind, of functions
/// and scopes too.
pub proof fn scala_children_are_walked(
    t: CstView,
    parent: Option<CstView>,
    index: int,
    i: int,
    source: Seq<char>,
    place: Place,
)
    requires
        !scala_picks(t),
        0 <= i < t.children.len(),
    ensures
        exists|inner: Place| #[trigger]
            scala_stands_inside(t, parent, index, source, place, inner) && holds_run(
                found_all(scala_outline(t, parent, index, source), place).symbols,
                found_all(
                    scala_outline(t.children[i], Some(t), i, source),
                    Place { hint: found_all(scala_outline_all(t, i, source), inner).hint, ..inner },
                ).symbols,
            ),
{
    let inner = wrapping(t, parent, index, source, place);
    let whole = scala_outline(t, parent, index, source);
    let after = outlines_split(t, t.children.len() as int, i, source);
    let before = scala_outline_all(t, i, source);
    let part = scala_outline(t.children[i], Some(t), i, source);
    parts_are_found(before, part, after, inner);
    let child = found_all(part, Place { hint: found_all(before, inner).hint, ..inner }).symbols;
    if whole != scala_outline_all(t, t.children.len() as int, source) || inner != place {
        inner_runs(whole[0], place, child);
    }
    assert(scala_stands_inside(t, parent, index, source, place, inner));
}

/// The number of functions below the first `n` children of a node, one by one.
pub open spec fn scala_functions_below(t: CstView, n: int, source: Seq<char>) -> nat
    decreases n,
{
    if n <= 0 || n > t.children.len() {
        0
    } else {
        scala_functions_below(t, n - 1, source) + function_count_all(
            scala_outline(t.children[n - 1], Some(t), n - 1, source),
        )
    }
}

proof fn functions_below_add_up(t: CstView, n: int, source: Seq<char>)
    ensures
        function_count_all(scala_outline_all(t, n, source)) == scala_functions_below(t, n, source),
    decreases n,
{
    if 0 < n <= t.children.len() {
        functions_below_add_up(t, n - 1, source);
        functions_add_up(
            scala_outline_all(t, n - 1, source),
            scala_outline(t.children[n - 1], Some(t), n - 1, source),
        );
    }
}

/// Nothing else is recorded: a node that does not pick has as many functions as its
/// children together, and one more if it is a function itself.
pub proof fn scala_functions_are_all_walked(
    t: CstView,
    parent: Option<CstView>,
    index: int,
    source: Seq<char>,
)
    requires
        !scala_picks(t),
    ensures
        function_count_all(scala_outline(t, parent, index, source)) == scala_functions_below(
            t,
            t.children.len() as int,
            source,
        ) + if scala_is_function(t, parent, index) {
            1nat
        } else {
            0
        },
{
    let place = Place { scopes: Seq::empty(), hint: None, depth: 0 };
    let inner = wrapping(t, parent, index, source, place);
    let whole = scala_outline(t, parent, index, source);
    functions_below_add_up(t, t.children.len() as int, source);
    if !(whole == scala_outline_all(t, t.children.len() as int, source) && inner == place
        && !scala_is_function(t, parent, index)) {
        functions_of_one(whole[0]);
    }
}

/// The name of a function: that of a `def`, `<constructor>` for `this`, and else the one on
/// offer.
pub open spec fn scala_goes_by(
    t: CstView,
    source: Seq<char>,
    hint: Option<Seq<char>>,
    name: Seq<char>,
) -> bool {
    let kind = t.data.kind;
    &&& kind == "function_definition"@ ==> {
        &&& forall|i: int| #[trigger]
            first_in(t, "name"@, i) ==> name == (if node_text(t.children[i].data, source)
                == seq!['t', 'h', 'i', 's'] {
                "<constructor>"@
            } else {
                node_text(t.children[i].data, source)
            })
        &&& none_in(t, "name"@) ==> name == "<def>"@
    }
    &&& kind == "lambda_expression"@ || kind == "colon_argument"@ ==> (match hint {
        Some(offered) => name == offered,
        None => name == "<lambda>"@,
    })
    &&& kind == "case_block"@ || kind == "indented_cases"@ ==> (match hint {
        Some(offered) => name == offered,
        None => name == "<partial>"@,
    })
}

/// A function is recorded first of all that is below it: from the line of its node to that
/// of its last own token, one level below the functions around it.
pub proof fn scala_functions_come_first(
    t: CstView,
    parent: Option<CstView>,
    index: int,
    source: Seq<char>,
    place: Place,
)
    requires
        scala_is_function(t, parent, index),
    ensures
        ({
            let symbols = found_all(scala_outline(t, parent, index, source), place).symbols;
            &&& symbols.len() > 0
            &&& symbols[0].start_line == t.data.start_row + 1
            &&& symbols[0].end_line == if content_end_row(t) < t.data.start_row {
                t.data.start_row + 1
            } else {
                content_end_row(t) + 1
            }
            &&& symbols[0].depth == place.depth + 1
            &&& exists|name: Seq<char>| #[trigger]
                scala_goes_by(t, source, place.hint, name) && symbols[0].name == dotted(
                    place.scopes,
                    name,
                )
        }),
{
    kinds_differ();
    fields_are_looked_up(t, "name"@, source);
    fields_are_looked_up(t, "lambda_start"@, source);
    if let Some(p) = parent {
        fields_are_looked_up(p, "body"@, source);
    }
    let whole = scala_outline(t, parent, index, source);
    assert(whole =~= seq![whole[0]]);
    functions_are_recorded(whole[0], place);
    let name = match whole[0].data->Function_label {
        LabelView::Fixed(name) => name,
        LabelView::Hinted(other) => match place.hint {
            Some(name) => name,
            None => other,
        },
    };
    reveal_strlit("this");
    assert("this"@ =~= seq!['t', 'h', 'i', 's']);
    reveal_strlit("<def>");
    assert("<def>"@.len() != "this"@.len());
    assert(scala_goes_by(t, source, place.hint, name));
}

/// Of a `val` and a `var` the value is walked with the name on offer that its pattern is,
/// where that is an identifier. Nothing else is walked.
pub proof fn scala_values_are_named(
    t: CstView,
    parent: Option<CstView>,
    index: int,
    pattern: int,
    value: int,
    source: Seq<char>,
    place: Place,
)
    requires
        t.data.kind == "val_definition"@ || t.data.kind == "var_definition"@,
    ensures
        ({
            let symbols = found_all(scala_outline(t, parent, index, source), place).symbols;
            &&& none_in(t, "value"@) ==> symbols.len() == 0
            &&& first_in(t, "value"@, value) && first_in(t, "pattern"@, pattern) ==> symbols
                == found_all(
                scala_outline(t.children[value], Some(t), value, source),
                Place { hint: scala_identifier(t.children[pattern], source), ..place },
            ).symbols
            &&& first_in(t, "value"@, value) && none_in(t, "pattern"@) ==> symbols == found_all(
                scala_outline(t.children[value], Some(t), value, source),
                Place { hint: None, ..place },
            ).symbols
        }),
{
    kinds_differ();
    fields_are_looked_up(t, "value"@, source);
    fields_are_looked_up(t, "pattern"@, source);
    if field_at(t, "value"@) is Some {
        let whole = scala_outline(t, parent, index, source);
        assert(whole =~= seq![whole[0]]);
        bindings_offer(whole[0], place);
        let hint = whole[0].data->hint;
        assert(Place { scopes: place.scopes, hint, depth: place.depth } == Place { hint, ..place });
    }
}

/// The text of a node that is a plain or an operator identifier.
pub open spec fn scala_identifier(t: CstView, source: Seq<char>) -> Option<Seq<char>> {
    if t.data.kind == "identifier"@ || t.data.kind == "operator_identifier"@ {
        Some(node_text(t.data, source))
    } else {
        None
    }
}

/// Of a call what is called is walked first, and then its arguments with a name on offer:
/// that of the callee, with `()` behind it. Nothing else is walked.
pub proof fn scala_arguments_are_named(
    t: CstView,
    parent: Option<CstView>,
    index: int,
    function: int,
    arguments: int,
    source: Seq<char>,
    place: Place,
)
    requires
        t.data.kind == "call_expression"@,
        first_in(t, "function"@, function),
    ensures
        ({
            let symbols = found_all(scala_outline(t, parent, index, source), place).symbols;
            let called = scala_outline(t.children[function], Some(t), function, source);
            &&& none_in(t, "arguments"@) ==> symbols == found_all(called, place).symbols
            &&& first_in(t, "arguments"@, arguments) ==> symbols == found_all(
                called,
                place,
            ).symbols + found_all(
                scala_outline(t.children[arguments], Some(t), arguments, source),
                Place {
                    hint: match callee_name(t.children[function], source) {
                        Some(name) => Some(name + seq!['(', ')']),
                        None => None,
                    },
                    ..place
                },
            ).symbols
        }),
{
    kinds_differ();
    fields_are_looked_up(t, "function"@, source);
    fields_are_looked_up(t, "arguments"@, source);
    reveal_strlit("()");
    assert("()"@ =~= seq!['(', ')']);
    let whole = scala_outline(t, parent, index, source);
    let first = scala_outline(t.children[function], Some(t), function, source);
    if first_in(t, "arguments"@, arguments) {
        let rest = whole.last();
        assert(whole =~= first + seq![rest]);
        found_in_turn(first, seq![rest], place);
        let then = Place { hint: found_all(first, place).hint, ..place };
        bindings_offer(rest, then);
        let hint = rest.data->hint;
        assert(Place { scopes: then.scopes, hint, depth: then.depth } == Place { hint, ..place });
    }
}

/// The name of a callee: its text where it is an identifier, its field where it is a field
/// expression, and that of what is called where it is a call or a generic function.
pub proof fn scala_callees_are_named(t: CstView, i: int, source: Seq<char>)
    ensures
        t.data.kind == "identifier"@ || t.data.kind == "operator_identifier"@ ==> callee_name(
            t,
            source,
        ) == Some(node_text(t.data, source)),
        t.data.kind == "field_expression"@ && first_in(t, "field"@, i) ==> callee_name(t, source)
            == Some(node_text(t.children[i].data, source)),
        (t.data.kind == "generic_function"@ || t.data.kind == "call_expression"@) && first_in(
            t,
            "function"@,
            i,
        ) ==> callee_name(t, source) == callee_name(t.children[i], source),
        t.data.kind != "identifier"@ && t.data.kind != "operator_identifier"@ && t.data.kind
            != "field_expression"@ && t.data.kind != "generic_function"@ && t.data.kind
            != "call_expression"@ ==> callee_name(t, source) is None,
{
    fields_are_looked_up(t, "field"@, source);
    fields_are_looked_up(t, "function"@, source);
    callee_kinds_differ();
}

/// Of an infix call the left side is walked first, and then the right side with the name of
/// the operator on offer, `()` behind it, where that is an identifier.
pub proof fn scala_infix_calls_are_named(
    t: CstView,
    parent: Option<CstView>,
    index: int,
    left: int,
    op: int,
    right: int,
    source: Seq<char>,
    place: Place,
)
    requires
        t.data.kind == "infix_expression"@,
        scala_infix(t, left, op, right),
    ensures
        found_all(scala_outline(t, parent, index, source), place).symbols == found_all(
            scala_outline(t.children[left], Some(t), left, source),
            place,
        ).symbols + found_all(
            scala_outline(t.children[right], Some(t), right, source),
            Place {
                hint: match scala_identifier(t.children[op], source) {
                    Some(name) => Some(name + seq!['(', ')']),
                    None => None,
                },
                ..place
            },
        ).symbols,
{
    kinds_differ();
    fields_are_looked_up(t, "left"@, source);
    fields_are_looked_up(t, "operator"@, source);
    fields_are_looked_up(t, "right"@, source);
    reveal_strlit("()");
    assert("()"@ =~= seq!['(', ')']);
    let whole = scala_outline(t, parent, index, source);
    let first = scala_outline(t.children[left], Some(t), left, source);
    let rest = whole.last();
    assert(whole =~= first + seq![rest]);
    found_in_turn(first, seq![rest], place);
    let then = Place { hint: found_all(first, place).hint, ..place };
    bindings_offer(rest, then);
    let hint = rest.data->hint;
    assert(Place { scopes: then.scopes, hint, depth: then.depth } == Place { hint, ..place });
}

/// Whether a node below an instance expression is the type that it is of.
pub open spec fn scala_is_instance_type(t: CstView, i: int) -> bool {
    &&& 0 <= i < t.children.len()
    &&& t.children[i].data.named
    &&& t.children[i].data.kind != "template_body"@
    &&& t.children[i].data.kind != "arguments"@
}

/// The name that an instance with a body goes by: the bare name of the first type below it.
pub proof fn scala_instances_go_by_their_type(t: CstView, i: int, source: Seq<char>)
    ensures
        scala_is_instance_type(t, i) && (forall|j: int|
            0 <= j < i ==> !#[trigger] scala_is_instance_type(t, j)) ==> instance_supertype(
            t,
            source,
        ) == Some(type_base_name(t.children[i], source)),
        (forall|j: int| !#[trigger] scala_is_instance_type(t, j)) ==> instance_supertype(
            t,
            source,
        ) is None,
{
    first_where_found(t.children, is_instance_type());
    if let Some(k) = first_where(t.children, is_instance_type()) {
        assert(is_instance_type()(t.children[k]));
        assert(scala_is_instance_type(t, k));
        if scala_is_instance_type(t, i) && i < k {
            assert(!is_instance_type()(t.children[i]));
        }
    } else if scala_is_instance_type(t, i) {
        assert(!is_instance_type()(t.children[i]));
    }
}

/// The bare name of a type: that of its first named child where it is generic or compound,
/// the text of its last named child where it is a path, and else its text. One of these
/// that has no named child goes by its text too.
pub proof fn scala_types_are_bared(t: CstView, i: int, source: Seq<char>)
    ensures
        (t.data.kind == "generic_type"@ || t.data.kind == "compound_type"@) && first_named(t, 0, i)
            ==> type_base_name(t, source) == type_base_name(t.children[i], source),
        t.data.kind == "stable_type_identifier"@ && 0 <= i < t.children.len()
            && t.children[i].data.named && (forall|j: int|
            i < j < t.children.len() ==> !(#[trigger] t.children[j]).data.named)
            ==> type_base_name(t, source) == node_text(t.children[i].data, source),
        t.data.kind != "generic_type"@ && t.data.kind != "compound_type"@ && t.data.kind
            != "stable_type_identifier"@ ==> type_base_name(t, source) == node_text(t.data, source),
        no_named(t, 0) ==> type_base_name(t, source) == node_text(t.data, source),
{
    named_are_looked_up(t);
    type_kinds_differ();
    last_where_found(t.children, is_named());
    if let Some(k) = named_at(t) {
        assert(t.children[k].data.named);
    }
    if let Some(k) = last_where(t.children, is_named()) {
        assert(is_named()(t.children[k]));
        assert(t.children[k].data.named);
        if 0 <= i < t.children.len() && t.children[i].data.named && k < i {
            assert(!is_named()(t.children[i]));
        }
    } else if 0 <= i < t.children.len() {
        assert(!is_named()(t.children[i]));
    }
}

/// The name of an instance, or a placeholder.
spec fn instance_name(t: CstView, source: Seq<char>) -> Seq<char> {
    match instance_supertype(t, source) {
        Some(name) => name,
        None => "<anon>"@,
    }
}

proof fn instance_splits(
    t: CstView,
    body: int,
    name: Seq<char>,
    n: int,
    i: int,
    source: Seq<char>,
) -> (after: Seq<OutlineView>)
    requires
        0 <= i < n <= t.children.len(),
    ensures
        scala_instance_outline(t, body, name, n, source) == scala_instance_outline(
            t,
            body,
            name,
            i,
            source,
        ) + instance_part(t, body, name, i, source) + after,
    decreases n,
{
    let part = instance_part(t, body, name, i, source);
    let before = scala_instance_outline(t, body, name, i, source);
    if i == n - 1 {
        let after = Seq::<OutlineView>::empty();
        assert(scala_instance_outline(t, body, name, n, source) =~= before + part + after);
        after
    } else {
        let more = instance_splits(t, body, name, n - 1, i, source);
        let after = more + instance_part(t, body, name, n - 1, source);
        assert(scala_instance_outline(t, body, name, n, source) =~= before + part + after);
        after
    }
}

spec fn instance_part(t: CstView, body: int, name: Seq<char>, i: int, source: Seq<char>) -> Seq<
    OutlineView,
> {
    let child = t.children[i];
    if i == body {
        seq![
            scope_view(
                LabelView::Fixed(name),
                scala_outline_all(child, child.children.len() as int, source),
            ),
        ]
    } else {
        scala_outline(child, Some(t), i, source)
    }
}

/// Of an instance with a body every child is walked, what is in the body with the name of
/// the instance around it.
pub proof fn scala_instances_are_walked(
    t: CstView,
    parent: Option<CstView>,
    index: int,
    body: int,
    i: int,
    j: int,
    source: Seq<char>,
    place: Place,
)
    requires
        t.data.kind == "instance_expression"@,
        first_kind(t, "template_body"@, body),
        0 <= i < t.children.len(),
    ensures
        ({
            let symbols = found_all(scala_outline(t, parent, index, source), place).symbols;
            let name = match instance_supertype(t, source) {
                Some(name) => name,
                None => "<anon>"@,
            };
            let before = found_all(scala_instance_outline(t, body, name, i, source), place);
            let inner = Place {
                scopes: place.scopes.push(name),
                hint: before.hint,
                depth: place.depth,
            };
            &&& i != body ==> holds_run(
                symbols,
                found_all(
                    scala_outline(t.children[i], Some(t), i, source),
                    Place { hint: before.hint, ..place },
                ).symbols,
            )
            &&& i == body && 0 <= j < t.children[body].children.len() ==> holds_run(
                symbols,
                found_all(
                    scala_outline(
                        t.children[body].children[j],
                        Some(t.children[body]),
                        j,
                        source,
                    ),
                    Place {
                        hint: found_all(
                            scala_outline_all(t.children[body], j, source),
                            inner,
                        ).hint,
                        ..inner
                    },
                ).symbols,
            )
        }),
{
    kinds_differ();
    kinds_are_looked_up(t, "template_body"@, source);
    let name = instance_name(t, source);
    let n = t.children.len() as int;
    let whole = scala_outline(t, parent, index, source);
    assert(whole == scala_instance_outline(t, body, name, n, source));
    let before = scala_instance_outline(t, body, name, i, source);
    let part = instance_part(t, body, name, i, source);
    let after = instance_splits(t, body, name, n, i, source);
    parts_are_found(before, part, after, place);
    let then = Place { hint: found_all(before, place).hint, ..place };
    if i == body && 0 <= j < t.children[body].children.len() {
        let template = t.children[body];
        let inner = Place {
            scopes: place.scopes.push(name),
            hint: found_all(before, place).hint,
            depth: place.depth,
        };
        scopes_qualify(part[0], then, name);
        assert(part =~= seq![part[0]]);
        let tail = outlines_split(template, template.children.len() as int, j, source);
        let first = scala_outline_all(template, j, source);
        let inside = scala_outline(template.children[j], Some(template), j, source);
        parts_are_found(first, inside, tail, inner);
        super::outline_laws::runs_of_runs(
            found_all(whole, place).symbols,
            found_all(part, then).symbols,
            found_all(inside, Place { hint: found_all(first, inner).hint, ..inner }).symbols,
        );
    }
}

/// The number of functions of an instance with a body up to the child at `n`, one by one.
pub open spec fn scala_functions_of_instance(
    t: CstView,
    body: int,
    n: int,
    source: Seq<char>,
) -> nat
    decreases n,
{
    if n <= 0 || n > t.children.len() {
        0
    } else {
        scala_functions_of_instance(t, body, n - 1, source) + if n - 1 == body {
            scala_functions_below(
                t.children[body],
                t.children[body].children.len() as int,
                source,
            )
        } else {
            function_count_all(scala_outline(t.children[n - 1], Some(t), n - 1, source))
        }
    }
}

/// Nothing else is recorded of an instance with a body.
pub proof fn scala_instances_are_all_walked(
    t: CstView,
    parent: Option<CstView>,
    index: int,
    body: int,
    source: Seq<char>,
)
    requires
        t.data.kind == "instance_expression"@,
        first_kind(t, "template_body"@, body),
    ensures
        function_count_all(scala_outline(t, parent, index, source)) == scala_functions_of_instance(
            t,
            body,
            t.children.len() as int,
            source,
        ),
{
    kinds_differ();
    kinds_are_looked_up(t, "template_body"@, source);
    functions_of_instance_add_up(
        t,
        body,
        instance_name(t, source),
        t.children.len() as int,
        source,
    );
}

proof fn functions_of_instance_add_up(
    t: CstView,
    body: int,
    name: Seq<char>,
    n: int,
    source: Seq<char>,
)
    requires
        0 <= body < t.children.len(),
    ensures
        function_count_all(scala_instance_outline(t, body, name, n, source))
            == scala_functions_of_instance(t, body, n, source),
    decreases n,
{
    if 0 < n <= t.children.len() {
        functions_of_instance_add_up(t, body, name, n - 1, source);
        let before = scala_instance_outline(t, body, name, n - 1, source);
        let part = instance_part(t, body, name, n - 1, source);
        functions_add_up(before, part);
        assert(scala_instance_outline(t, body, name, n, source) =~= before + part);
        if n - 1 == body {
            assert(part =~= seq![part[0]]);
            functions_of_one(part[0]);
            functions_below_add_up(
                t.children[body],
                t.children[body].children.len() as int,
                source,
            );
        }
    }
}

/// The symbols of a Scala source are what is recorded of its syntax tree with nothing
/// around it. A source with a syntax error has none.
pub proof fn scala_files_are_walked(source: Seq<char>)
    ensures
        ({
            let top = Place { scopes: Seq::empty(), hint: None, depth: 0 };
            match scala_symbols(source) {
                Ok(symbols) => {
                    &&& addressable(source)
                    &&& scala_parse(source) matches Ok(Some(nodes)) && !(nodes.len() > 0
                        && nodes[0].1.error)
                    &&& symbols == found_all(
                        scala_outline(parsed_tree(scala_parse(source)), None, 0, source),
                        top,
                    ).symbols
                },
                Err(e) => {
                    &&& addressable(source) && strict_error(scala_parse(source), source) is None
                        ==> exists|i: int|
                        0 <= i < found_all(
                            scala_outline(parsed_tree(scala_parse(source)), None, 0, source),
                            top,
                        ).symbols.len() && (#[trigger] found_all(
                            scala_outline(parsed_tree(scala_parse(source)), None, 0, source),
                            top,
                        ).symbols[i]).depth > u32::MAX
                    &&& !addressable(source) ==> e == AnalyzerError::TooLong
                    &&& addressable(source) && scala_parse(source) is Err ==> e
                        == AnalyzerError::Grammar
                    &&& addressable(source) && (scala_parse(source) matches Ok(Some(nodes))
                        && nodes.len() > 0 && nodes[0].1.error) ==> e == AnalyzerError::Syntax
                },
            }
        }),
{
    if addressable(source) && strict_error(scala_parse(source), source) is None {
        file_symbols_stand_alone(
            scala_outline(parsed_tree(scala_parse(source)), None, 0, source),
        );
    }
}

} // verus!
