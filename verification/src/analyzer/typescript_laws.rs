//! What is recorded of a TypeScript or JavaScript source, in terms of its parts.
use vstd::prelude::*;
use vstd::utf8::encode_utf8;

use super::lines::{line_counts_line_ends, line_ends};
use super::outline::{
    OutlineView, Place, found_all, function_count_all, inner_place, outline_result,
};
use super::outline_laws::{
    dotted, file_symbols_stand_alone, found_alone, found_in_turn,
    functions_add_up, functions_are_recorded, functions_of_one, holds_run, inner_runs,
    parts_are_found,
};
use super::typescript::{
    CalleeView, TsPartView, TsTreeView, tsx_parse,
    typescript_outline, typescript_outline_all, typescript_parse, typescript_parts,
    typescript_symbols,
};
use super::{AnalyzerError, SymbolView};

verus! {

/// The number of line feeds among bytes.
pub open spec fn line_feeds(bytes: Seq<u8>) -> nat {
    bytes.filter(|b: u8| b == 10).len()
}

proof fn line_feeds_end_lines(bytes: Seq<u8>)
    ensures
        line_ends(bytes) == line_feeds(bytes),
    decreases bytes.len(),
{
    reveal(Seq::filter);
    if bytes.len() > 0 {
        line_feeds_end_lines(bytes.drop_last());
    }
}

/// Whether a part is a function.
pub open spec fn ts_is_function(part: TsPartView) -> bool {
    part is Function || part is Arrow
}

/// A function and an arrow function is recorded first of all that is inside it: from the
/// line on which its first byte lies to the one on which its last byte lies, one level
/// below the functions around it. It goes by its own name, or else by the one on offer. One
/// that ends in front of the first byte ends on the first line.
pub proof fn ts_functions_come_first(
    t: TsTreeView,
    start: int,
    end: int,
    name: Option<Seq<char>>,
    source: Seq<char>,
    place: Place,
)
    requires
        t.data == (TsPartView::Function { name, start, end }) || t.data == (TsPartView::Arrow {
            start,
            end,
        }) && name is None,
        0 <= start <= encode_utf8(source).len(),
        0 <= end <= encode_utf8(source).len(),
    ensures
        ({
            let bytes = encode_utf8(source);
            let symbols = found_all(typescript_outline(t, source), place).symbols;
            let other = if t.data is Arrow {
                "<arrow>"@
            } else {
                "<anonymous>"@
            };
            &&& symbols.len() > 0
            &&& symbols[0].start_line == 1 + line_feeds(bytes.take(start))
            &&& end > 0 ==> symbols[0].end_line == 1 + line_feeds(bytes.take(end - 1))
            &&& end == 0 ==> symbols[0].end_line == 1
            &&& symbols[0].depth == place.depth + 1
            &&& name matches Some(own) ==> symbols[0].name == dotted(place.scopes, own)
            &&& name is None && place.hint is Some ==> symbols[0].name == dotted(
                place.scopes,
                place.hint->0,
            )
            &&& name is None && place.hint is None ==> symbols[0].name == dotted(
                place.scopes,
                other,
            )
        }),
{
    let bytes = encode_utf8(source);
    let whole = typescript_outline(t, source);
    assert(whole =~= seq![whole[0]]);
    functions_are_recorded(whole[0], place);
    line_counts_line_ends(bytes, start);
    line_feeds_end_lines(bytes.take(start));
    if end > 0 {
        line_counts_line_ends(bytes, end - 1);
        line_feeds_end_lines(bytes.take(end - 1));
    } else {
        line_counts_line_ends(bytes, 0);
        assert(bytes.take(0).len() == 0);
    }
}

/// What is on offer to the arguments of a call: the name of the function or of the member
/// that is called, with `()` behind it.
pub open spec fn ts_call_offers(callee: CalleeView) -> Option<Seq<char>> {
    match callee {
        CalleeView::Identifier(name) => Some(name + seq!['(', ')']),
        CalleeView::Member(Some(name)) => Some(name + seq!['(', ')']),
        CalleeView::Member(None) => None,
    }
}

/// Where what is inside a part stands: inside a function with one more function around it
/// and no hint, inside a class with its name around it, and inside anything else with the
/// name of that on offer. A class without a name takes the one on offer.
pub open spec fn ts_inside(part: TsPartView, place: Place) -> Place {
    match part {
        TsPartView::Function { .. } => Place {
            scopes: place.scopes,
            hint: None,
            depth: place.depth + 1,
        },
        TsPartView::Arrow { .. } => Place {
            scopes: place.scopes,
            hint: None,
            depth: place.depth + 1,
        },
        TsPartView::Class { name: Some(name) } => Place {
            scopes: place.scopes.push(name),
            hint: place.hint,
            depth: place.depth,
        },
        TsPartView::Class { name: None } => Place {
            scopes: place.scopes.push(
                match place.hint {
                    Some(name) => name,
                    None => "<anonymous class>"@,
                },
            ),
            hint: None,
            depth: place.depth,
        },
        TsPartView::Member { name } => Place { hint: name, ..place },
        TsPartView::Property { name } => Place { hint: name, ..place },
        TsPartView::Declarator { name } => Place { hint: name, ..place },
        TsPartView::Call { callee } => Place { hint: ts_call_offers(callee), ..place },
    }
}

proof fn inside_is_inner(t: TsTreeView, source: Seq<char>, place: Place)
    ensures
        typescript_outline(t, source) == seq![typescript_outline(t, source)[0]],
        typescript_outline(t, source)[0].children == typescript_outline_all(t.children, source),
        inner_place(typescript_outline(t, source)[0], place) == ts_inside(t.data, place),
        typescript_outline(t, source)[0].data is Function <==> ts_is_function(t.data),
{
    reveal_strlit("()");
    assert("()"@ =~= seq!['(', ')']);
    let whole = typescript_outline(t, source);
    assert(whole =~= seq![whole[0]]);
}

proof fn outlines_split(trees: Seq<TsTreeView>, i: int, source: Seq<char>) -> (after: Seq<
    OutlineView,
>)
    requires
        0 <= i < trees.len(),
    ensures
        typescript_outline_all(trees, source) == typescript_outline_all(trees.take(i), source)
            + typescript_outline(trees[i], source) + after,
    decreases trees.len(),
{
    let rest = trees.drop_last();
    let part = typescript_outline(trees[i], source);
    let before = typescript_outline_all(trees.take(i), source);
    if i == trees.len() - 1 {
        assert(trees.take(i) =~= rest);
        let after = Seq::<OutlineView>::empty();
        assert(typescript_outline_all(trees, source) =~= before + part + after);
        after
    } else {
        let more = outlines_split(rest, i, source);
        assert(rest.take(i) =~= trees.take(i));
        let after = more + typescript_outline(trees.last(), source);
        assert(typescript_outline_all(trees, source) =~= before + part + after);
        after
    }
}

/// Everything inside a part is walked, whatever the part is: what is recorded of it stands
/// in a row among what is recorded of the part.
pub proof fn ts_children_are_walked(t: TsTreeView, i: int, source: Seq<char>, place: Place)
    requires
        0 <= i < t.children.len(),
    ensures
        ({
            let inner = ts_inside(t.data, place);
            let hint = found_all(typescript_outline_all(t.children.take(i), source), inner).hint;
            holds_run(
                found_all(typescript_outline(t, source), place).symbols,
                found_all(
                    typescript_outline(t.children[i], source),
                    Place { hint, ..inner },
                ).symbols,
            )
        }),
{
    let inner = ts_inside(t.data, place);
    inside_is_inner(t, source, place);
    let after = outlines_split(t.children, i, source);
    let before = typescript_outline_all(t.children.take(i), source);
    let part = typescript_outline(t.children[i], source);
    parts_are_found(before, part, after, inner);
    inner_runs(
        typescript_outline(t, source)[0],
        place,
        found_all(part, Place { hint: found_all(before, inner).hint, ..inner }).symbols,
    );
}

/// The number of functions of parts, one by one.
pub open spec fn ts_functions_below(trees: Seq<TsTreeView>, source: Seq<char>) -> nat
    decreases trees.len(),
{
    if trees.len() == 0 {
        0
    } else {
        ts_functions_below(trees.drop_last(), source) + function_count_all(
            typescript_outline(trees.last(), source),
        )
    }
}

proof fn functions_below_add_up(trees: Seq<TsTreeView>, source: Seq<char>)
    ensures
        function_count_all(typescript_outline_all(trees, source)) == ts_functions_below(
            trees,
            source,
        ),
    decreases trees.len(),
{
    if trees.len() > 0 {
        functions_below_add_up(trees.drop_last(), source);
        functions_add_up(
            typescript_outline_all(trees.drop_last(), source),
            typescript_outline(trees.last(), source),
        );
    }
}

/// Nothing else is recorded: a part has as many functions as what is inside it, and one
/// more if it is a function itself.
pub proof fn ts_functions_are_all_walked(t: TsTreeView, source: Seq<char>)
    ensures
        function_count_all(typescript_outline(t, source)) == ts_functions_below(
            t.children,
            source,
        ) + if ts_is_function(t.data) {
            1nat
        } else {
            0
        },
{
    let place = Place { scopes: Seq::empty(), hint: None, depth: 0 };
    inside_is_inner(t, source, place);
    functions_below_add_up(t.children, source);
    functions_of_one(typescript_outline(t, source)[0]);
}

/// Parts are walked from first to last, every one of them: before what is recorded of a
/// part there is what is recorded of the parts before it.
pub proof fn ts_lists_are_walked(trees: Seq<TsTreeView>, i: int, source: Seq<char>, place: Place)
    requires
        0 <= i < trees.len(),
    ensures
        ({
            let before = found_all(typescript_outline_all(trees.take(i), source), place);
            let then = found_all(
                typescript_outline(trees[i], source),
                Place { hint: before.hint, ..place },
            );
            &&& (before.symbols + then.symbols).is_prefix_of(
                found_all(typescript_outline_all(trees, source), place).symbols,
            )
            &&& function_count_all(typescript_outline_all(trees, source)) == ts_functions_below(
                trees,
                source,
            )
        }),
{
    let after = outlines_split(trees, i, source);
    let before = typescript_outline_all(trees.take(i), source);
    let part = typescript_outline(trees[i], source);
    functions_below_add_up(trees, source);
    found_in_turn(before, part, place);
    found_in_turn(before + part, after, place);
}

/// What a part leaves on offer: a function takes it unless it has a name of its own, a
/// member of a class leaves nothing, and a property, a variable and a call leave it as it
/// was.
pub proof fn ts_offers_are_taken(t: TsTreeView, source: Seq<char>, place: Place)
    ensures
        ({
            let left = found_all(typescript_outline(t, source), place).hint;
            match t.data {
                TsPartView::Function { name, .. } => left == (if name is Some {
                    place.hint
                } else {
                    None
                }),
                TsPartView::Arrow { .. } => left is None,
                TsPartView::Member { .. } => left is None,
                TsPartView::Property { .. } => left == place.hint,
                TsPartView::Declarator { .. } => left == place.hint,
                TsPartView::Call { .. } => left == place.hint,
                TsPartView::Class { .. } => true,
            }
        }),
{
    inside_is_inner(t, source, place);
    found_alone(typescript_outline(t, source)[0], place);
}

/// What is recorded of a file.
pub open spec fn ts_recorded(path: Seq<char>, source: Seq<char>) -> Seq<SymbolView> {
    let top = Place { scopes: Seq::empty(), hint: None, depth: 0 };
    match typescript_parse(path, source) {
        Ok(trees) => found_all(typescript_outline_all(trees, source), top).symbols,
        Err(_) => found_all(typescript_outline_all(tsx_parse(source), source), top).symbols,
    }
}

/// The symbols of a file are what is recorded of its parts with nothing around them, the
/// parts in the dialect that its path tells, or in TSX where it tells none. A file too long
/// to be parsed has none, and one with too many lines is an error.
pub proof fn ts_files_are_walked(path: Seq<char>, source: Seq<char>)
    ensures
        ({
            let top = Place { scopes: Seq::empty(), hint: None, depth: 0 };
            let bytes = encode_utf8(source);
            let fits = bytes.len() <= u32::MAX && line_feeds(bytes) < u32::MAX;
            &&& bytes.len() > u32::MAX ==> typescript_symbols(path, source) == Ok::<
                Seq<SymbolView>,
                AnalyzerError,
            >(Seq::empty())
            &&& bytes.len() <= u32::MAX && line_feeds(bytes) >= u32::MAX ==> typescript_symbols(
                path,
                source,
            ) == Err::<Seq<SymbolView>, AnalyzerError>(AnalyzerError::TooLong)
            &&& fits ==> (typescript_symbols(path, source) matches Ok(symbols) ==> {
                &&& typescript_parse(path, source) matches Ok(trees) ==> symbols == found_all(
                    typescript_outline_all(trees, source),
                    top,
                ).symbols
                &&& typescript_parse(path, source) is Err ==> symbols == found_all(
                    typescript_outline_all(tsx_parse(source), source),
                    top,
                ).symbols
            })
            &&& fits && typescript_symbols(path, source) is Err ==> exists|i: int|
                0 <= i < ts_recorded(path, source).len() && (#[trigger] ts_recorded(
                    path,
                    source,
                )[i]).depth > u32::MAX
        }),
{
    line_feeds_end_lines(encode_utf8(source));
    let outlines = typescript_outline_all(typescript_parts(path, source), source);
    file_symbols_stand_alone(outlines);
    let top = Place { scopes: Seq::empty(), hint: None, depth: 0 };
    let symbols = found_all(outlines, top).symbols;
    assert(ts_recorded(path, source) == symbols);
    if outline_result(outlines) is Err {
        let i = choose|i: int| 0 <= i < symbols.len() && (#[trigger] symbols[i]).depth > u32::MAX;
        assert(ts_recorded(path, source)[i].depth > u32::MAX);
    }
}

} // verus!
