//! What is recorded of a Rust source, in terms of its parts.
use vstd::prelude::*;
use vstd::utf8::encode_utf8;

use super::outline::{OutlineView, Place, found_all, function_count_all, inner_place};
use super::outline_laws::{
    dotted, file_symbols_stand_alone, found_alone, found_in_turn, functions_add_up,
    functions_are_recorded, functions_of_one, holds_run, inner_runs, parts_are_found,
};
use super::rust::{
    PatternLayerView, RustPartView, RustTreeView, TypeLayerView, all_placed, expr_closure_inside,
    expr_closure_is, expr_closure_met, impl_item_fn_inside, impl_item_fn_is, impl_item_fn_met,
    impl_type, item_fn_inside, item_fn_is, item_fn_met, item_impl_inside, item_impl_met,
    item_mod_inside, item_mod_is, item_mod_met, item_trait_inside, item_trait_is, item_trait_met,
    local_inside, local_met, local_pattern, pattern_inside, pattern_is, placed, rust_outline,
    rust_outline_all, rust_parse, rust_symbols, trait_item_fn_inside, trait_item_fn_is,
    trait_item_fn_met, type_inside, type_is,
};
use super::{AnalyzerError, SymbolView};

verus! {

/// Whether a part is a function, and its place among the functions and closures.
pub open spec fn rust_is_function(part: RustPartView, at: nat) -> bool {
    ||| part matches RustPartView::Function { at: own, .. } && own == at
    ||| part matches RustPartView::Closure { at: own } && own == at
}

/// A function and a closure is recorded first of all that is inside it: on the lines of its
/// place, one level below the functions around it. A function goes by its name, a closure
/// by the name on offer.
pub proof fn rust_functions_come_first(
    t: RustTreeView,
    at: nat,
    lines: Seq<(int, int)>,
    place: Place,
)
    requires
        rust_is_function(t.data, at),
        at < lines.len(),
    ensures
        ({
            let symbols = found_all(rust_outline(t, lines), place).symbols;
            &&& symbols.len() > 0
            &&& symbols[0].start_line == lines[at as int].0
            &&& symbols[0].end_line == lines[at as int].1
            &&& symbols[0].depth == place.depth + 1
            &&& t.data matches RustPartView::Function { name, .. } ==> symbols[0].name == dotted(
                place.scopes,
                name,
            )
            &&& t.data is Closure && place.hint is Some ==> symbols[0].name == dotted(
                place.scopes,
                place.hint->0,
            )
            &&& t.data is Closure && place.hint is None ==> symbols[0].name == dotted(
                place.scopes,
                "<closure>"@,
            )
        }),
{
    let whole = rust_outline(t, lines);
    assert(whole =~= seq![whole[0]]);
    functions_are_recorded(whole[0], place);
}

/// The name of the type that an `impl` block is for: the last segment of the path that its
/// innermost layer is.
pub open spec fn rust_impl_name(layers: Seq<TypeLayerView>) -> Seq<char> {
    if layers.len() > 0 && layers[layers.len() - 1] is Path
        && layers[layers.len() - 1]->Path_0.len() > 0 {
        let segments = layers[layers.len() - 1]->Path_0;
        segments[segments.len() - 1]
    } else {
        "<type>"@
    }
}

/// The name that a `let` binding offers: the identifier that the innermost layer of its
/// pattern is.
pub open spec fn rust_let_name(layers: Seq<PatternLayerView>) -> Option<Seq<char>> {
    if layers.len() > 0 && layers[layers.len() - 1] is Ident {
        Some(layers[layers.len() - 1]->Ident_0)
    } else {
        None
    }
}

/// Where what is inside a part stands: inside a function with one more function around it
/// and no hint, inside an `impl` block, a trait and a module with their name around it, and
/// inside a `let` binding with its name on offer.
pub open spec fn rust_inside(part: RustPartView, place: Place) -> Place {
    match part {
        RustPartView::Function { .. } => Place {
            scopes: place.scopes,
            hint: None,
            depth: place.depth + 1,
        },
        RustPartView::Closure { .. } => Place {
            scopes: place.scopes,
            hint: None,
            depth: place.depth + 1,
        },
        RustPartView::Impl { self_type } => Place {
            scopes: place.scopes.push(rust_impl_name(self_type)),
            hint: place.hint,
            depth: place.depth,
        },
        RustPartView::Scope { name } => Place {
            scopes: place.scopes.push(name),
            hint: place.hint,
            depth: place.depth,
        },
        RustPartView::Local { pattern } => Place { hint: rust_let_name(pattern), ..place },
    }
}

proof fn inside_is_inner(t: RustTreeView, lines: Seq<(int, int)>, place: Place)
    ensures
        rust_outline(t, lines) == seq![rust_outline(t, lines)[0]],
        rust_outline(t, lines)[0].children == rust_outline_all(t.children, lines),
        inner_place(rust_outline(t, lines)[0], place) == rust_inside(t.data, place),
        rust_outline(t, lines)[0].data is Function <==> t.data is Function || t.data is Closure,
{
    let whole = rust_outline(t, lines);
    assert(whole =~= seq![whole[0]]);
}

proof fn outlines_split(trees: Seq<RustTreeView>, i: int, lines: Seq<(int, int)>) -> (after: Seq<
    OutlineView,
>)
    requires
        0 <= i < trees.len(),
    ensures
        rust_outline_all(trees, lines) == rust_outline_all(trees.take(i), lines) + rust_outline(
            trees[i],
            lines,
        ) + after,
    decreases trees.len(),
{
    let rest = trees.drop_last();
    let part = rust_outline(trees[i], lines);
    let before = rust_outline_all(trees.take(i), lines);
    if i == trees.len() - 1 {
        assert(trees.take(i) =~= rest);
        let after = Seq::<OutlineView>::empty();
        assert(rust_outline_all(trees, lines) =~= before + part + after);
        after
    } else {
        let more = outlines_split(rest, i, lines);
        assert(rest.take(i) =~= trees.take(i));
        let after = more + rust_outline(trees.last(), lines);
        assert(rust_outline_all(trees, lines) =~= before + part + after);
        after
    }
}

/// Everything inside a part is walked, whatever the part is: what is recorded of it stands
/// in a row among what is recorded of the part.
pub proof fn rust_children_are_walked(
    t: RustTreeView,
    i: int,
    lines: Seq<(int, int)>,
    place: Place,
)
    requires
        0 <= i < t.children.len(),
    ensures
        ({
            let inner = rust_inside(t.data, place);
            let hint = found_all(rust_outline_all(t.children.take(i), lines), inner).hint;
            holds_run(
                found_all(rust_outline(t, lines), place).symbols,
                found_all(rust_outline(t.children[i], lines), Place { hint, ..inner }).symbols,
            )
        }),
{
    let inner = rust_inside(t.data, place);
    inside_is_inner(t, lines, place);
    let after = outlines_split(t.children, i, lines);
    let before = rust_outline_all(t.children.take(i), lines);
    let part = rust_outline(t.children[i], lines);
    parts_are_found(before, part, after, inner);
    inner_runs(
        rust_outline(t, lines)[0],
        place,
        found_all(part, Place { hint: found_all(before, inner).hint, ..inner }).symbols,
    );
}

/// The number of functions and closures of parts, one by one.
pub open spec fn rust_functions_below(trees: Seq<RustTreeView>, lines: Seq<(int, int)>) -> nat
    decreases trees.len(),
{
    if trees.len() == 0 {
        0
    } else {
        rust_functions_below(trees.drop_last(), lines) + function_count_all(
            rust_outline(trees.last(), lines),
        )
    }
}

proof fn functions_below_add_up(trees: Seq<RustTreeView>, lines: Seq<(int, int)>)
    ensures
        function_count_all(rust_outline_all(trees, lines)) == rust_functions_below(trees, lines),
    decreases trees.len(),
{
    if trees.len() > 0 {
        functions_below_add_up(trees.drop_last(), lines);
        functions_add_up(
            rust_outline_all(trees.drop_last(), lines),
            rust_outline(trees.last(), lines),
        );
    }
}

/// Nothing else is recorded: a part has as many functions and closures as what is inside it,
/// and one more if it is one itself.
pub proof fn rust_functions_are_all_walked(t: RustTreeView, lines: Seq<(int, int)>)
    ensures
        function_count_all(rust_outline(t, lines)) == rust_functions_below(t.children, lines) + if
            t.data is Function || t.data is Closure {
            1nat
        } else {
            0
        },
{
    let place = Place { scopes: Seq::empty(), hint: None, depth: 0 };
    inside_is_inner(t, lines, place);
    functions_below_add_up(t.children, lines);
    functions_of_one(rust_outline(t, lines)[0]);
}

/// Parts are walked from first to last, every one of them: before what is recorded of a
/// part there is what is recorded of the parts before it.
pub proof fn rust_lists_are_walked(
    trees: Seq<RustTreeView>,
    i: int,
    lines: Seq<(int, int)>,
    place: Place,
)
    requires
        0 <= i < trees.len(),
    ensures
        ({
            let before = found_all(rust_outline_all(trees.take(i), lines), place);
            let then = found_all(
                rust_outline(trees[i], lines),
                Place { hint: before.hint, ..place },
            );
            &&& (before.symbols + then.symbols).is_prefix_of(
                found_all(rust_outline_all(trees, lines), place).symbols,
            )
            &&& function_count_all(rust_outline_all(trees, lines)) == rust_functions_below(
                trees,
                lines,
            )
        }),
{
    let after = outlines_split(trees, i, lines);
    let before = rust_outline_all(trees.take(i), lines);
    let part = rust_outline(trees[i], lines);
    functions_below_add_up(trees, lines);
    found_in_turn(before, part, place);
    found_in_turn(before + part, after, place);
}

/// What a part leaves on offer: a closure takes it, a function leaves it, and so does a
/// `let` binding, whose own name is on offer inside it alone.
pub proof fn rust_offers_are_taken(t: RustTreeView, lines: Seq<(int, int)>, place: Place)
    ensures
        ({
            let left = found_all(rust_outline(t, lines), place).hint;
            match t.data {
                RustPartView::Function { .. } => left == place.hint,
                RustPartView::Closure { .. } => left is None,
                RustPartView::Local { .. } => left == place.hint,
                _ => true,
            }
        }),
{
    inside_is_inner(t, lines, place);
    found_alone(rust_outline(t, lines)[0], place);
}

/// A walk over a Rust file meets a free function, a method, a function of a trait and a
/// closure each as one part at the next place, with its own ends and with all that is
/// inside it.
pub proof fn rust_definitions_are_met(
    free: syn::ItemFn,
    method: syn::ImplItemFn,
    signature: syn::TraitItemFn,
    closure: syn::ExprClosure,
    at: nat,
)
    ensures
        ({
            let met = item_fn_met(free, at);
            &&& met.trees.len() == 1
            &&& met.trees[0].data == (RustPartView::Function { name: item_fn_is(free).name, at })
            &&& met.trees[0].children == item_fn_inside(free, at + 1).trees
            &&& met.ends.len() == 1 + item_fn_inside(free, at + 1).ends.len()
            &&& met.ends[0] == item_fn_is(free).ends
            &&& met.ends.drop_first() == item_fn_inside(free, at + 1).ends
        }),
        ({
            let met = impl_item_fn_met(method, at);
            &&& met.trees.len() == 1
            &&& met.trees[0].data == (RustPartView::Function {
                name: impl_item_fn_is(method).name,
                at,
            })
            &&& met.trees[0].children == impl_item_fn_inside(method, at + 1).trees
            &&& met.ends.len() == 1 + impl_item_fn_inside(method, at + 1).ends.len()
            &&& met.ends[0] == impl_item_fn_is(method).ends
            &&& met.ends.drop_first() == impl_item_fn_inside(method, at + 1).ends
        }),
        ({
            let met = trait_item_fn_met(signature, at);
            &&& met.trees.len() == 1
            &&& met.trees[0].data == (RustPartView::Function {
                name: trait_item_fn_is(signature).name,
                at,
            })
            &&& met.trees[0].children == trait_item_fn_inside(signature, at + 1).trees
            &&& met.ends.len() == 1 + trait_item_fn_inside(signature, at + 1).ends.len()
            &&& met.ends[0] == trait_item_fn_is(signature).ends
            &&& met.ends.drop_first() == trait_item_fn_inside(signature, at + 1).ends
        }),
        ({
            let met = expr_closure_met(closure, at);
            &&& met.trees.len() == 1
            &&& met.trees[0].data == (RustPartView::Closure { at })
            &&& met.trees[0].children == expr_closure_inside(closure, at + 1).trees
            &&& met.ends.len() == 1 + expr_closure_inside(closure, at + 1).ends.len()
            &&& met.ends[0] == expr_closure_is(closure)
            &&& met.ends.drop_first() == expr_closure_inside(closure, at + 1).ends
        }),
{
    assert(item_fn_met(free, at).ends.drop_first() =~= item_fn_inside(free, at + 1).ends);
    assert(impl_item_fn_met(method, at).ends.drop_first() =~= impl_item_fn_inside(
        method,
        at + 1,
    ).ends);
    assert(trait_item_fn_met(signature, at).ends.drop_first() =~= trait_item_fn_inside(
        signature,
        at + 1,
    ).ends);
    assert(expr_closure_met(closure, at).ends.drop_first() =~= expr_closure_inside(
        closure,
        at + 1,
    ).ends);
}

/// It meets a trait, a module, an `impl` block and a `let` binding each as one part that
/// takes up no place, with all that is inside it. An `impl` block goes by the type inside
/// the references and the parentheses, and a `let` binding by the pattern in front of the
/// type.
pub proof fn rust_scopes_are_met(
    interface: syn::ItemTrait,
    module: syn::ItemMod,
    block: syn::ItemImpl,
    binding: syn::Local,
    at: nat,
)
    ensures
        ({
            let met = item_trait_met(interface, at);
            &&& met.trees.len() == 1
            &&& met.trees[0].data == (RustPartView::Scope { name: item_trait_is(interface) })
            &&& met.trees[0].children == item_trait_inside(interface, at).trees
            &&& met.ends == item_trait_inside(interface, at).ends
        }),
        ({
            let met = item_mod_met(module, at);
            &&& met.trees.len() == 1
            &&& met.trees[0].data == (RustPartView::Scope { name: item_mod_is(module) })
            &&& met.trees[0].children == item_mod_inside(module, at).trees
            &&& met.ends == item_mod_inside(module, at).ends
        }),
        ({
            let met = item_impl_met(block, at);
            let ty = impl_type(block);
            &&& met.trees.len() == 1
            &&& met.trees[0].data is Impl
            &&& type_is(ty) is Around ==> met.trees[0].data->self_type.len() == 1 + type_inside(
                ty,
            ).len() && met.trees[0].data->self_type.drop_first() == type_inside(ty)
            &&& !(type_is(ty) is Around) ==> met.trees[0].data->self_type.len() == 1
            &&& met.trees[0].data->self_type[0] == type_is(ty)
            &&& met.trees[0].children == item_impl_inside(block, at).trees
            &&& met.ends == item_impl_inside(block, at).ends
        }),
        ({
            let met = local_met(binding, at);
            let pattern = local_pattern(binding);
            &&& met.trees.len() == 1
            &&& met.trees[0].data is Local
            &&& pattern_is(pattern) is Typed ==> met.trees[0].data->pattern.len() == 1
                + pattern_inside(pattern).len() && met.trees[0].data->pattern.drop_first()
                == pattern_inside(pattern)
            &&& !(pattern_is(pattern) is Typed) ==> met.trees[0].data->pattern.len() == 1
            &&& met.trees[0].data->pattern[0] == pattern_is(pattern)
            &&& met.trees[0].children == local_inside(binding, at).trees
            &&& met.ends == local_inside(binding, at).ends
        }),
{
    let ty = impl_type(block);
    let pattern = local_pattern(binding);
    if type_is(ty) is Around {
        assert((seq![type_is(ty)] + type_inside(ty)).drop_first() =~= type_inside(ty));
    }
    if pattern_is(pattern) is Typed {
        assert((seq![pattern_is(pattern)] + pattern_inside(pattern)).drop_first()
            =~= pattern_inside(pattern));
    }
}

/// A part has its place where it is no function or has a place below the count, and where
/// everything inside it has.
pub proof fn places_are_below_the_count(t: RustTreeView, count: nat)
    ensures
        placed(t, count) <==> {
            &&& forall|at: nat| #[trigger] rust_is_function(t.data, at) ==> at < count
            &&& all_placed(t.children, count)
        },
{
    if let RustPartView::Function { at, .. } = t.data {
        assert(rust_is_function(t.data, at));
    }
    if let RustPartView::Closure { at } = t.data {
        assert(rust_is_function(t.data, at));
    }
}

/// The symbols of a file are what is recorded of its parts with nothing around them. A
/// source that is too long and one that is refused have none.
pub proof fn rust_files_are_walked(source: Seq<char>)
    ensures
        ({
            let top = Place { scopes: Seq::empty(), hint: None, depth: 0 };
            let fits = encode_utf8(source).len() <= 0x1000_0000;
            &&& !fits ==> rust_symbols(source) == Err::<Seq<SymbolView>, AnalyzerError>(
                AnalyzerError::TooLong,
            )
            &&& fits && rust_parse(source) is Err ==> rust_symbols(source) == Err::<
                Seq<SymbolView>,
                AnalyzerError,
            >(AnalyzerError::Syntax)
            &&& fits ==> (rust_parse(source) matches Ok(file) ==> {
                &&& rust_symbols(source) matches Ok(symbols) ==> symbols == found_all(
                    rust_outline_all(file.trees, file.lines),
                    top,
                ).symbols
                &&& all_placed(file.trees, file.lines.len()) && rust_symbols(source) is Err
                    ==> exists|i: int|
                    0 <= i < found_all(
                        rust_outline_all(file.trees, file.lines),
                        top,
                    ).symbols.len() && (#[trigger] found_all(
                        rust_outline_all(file.trees, file.lines),
                        top,
                    ).symbols[i]).depth > u32::MAX
            })
        }),
{
    if let Ok(file) = rust_parse(source) {
        file_symbols_stand_alone(rust_outline_all(file.trees, file.lines));
    }
}

} // verus!
