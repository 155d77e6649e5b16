//! What holds of the symbols of every outline, whatever the language: they are those of
//! its constructs in turn, each named and placed by what is around it.
use vstd::prelude::*;

use super::outline::{
    LabelView, OutlineView, PartView, Place, depth_is_bounded_all, found, found_all,
    function_count_all, inner_place, label_name, nesting, nesting_all, outline_result,
    qualified,
};
use super::SymbolView;
use crate::text::joined;

verus! {

/// What stands before, a part, and what stands after.
pub open spec fn spliced(
    before: Seq<SymbolView>,
    part: Seq<SymbolView>,
    after: Seq<SymbolView>,
) -> Seq<SymbolView> {
    before + part + after
}

/// Whether symbols stand in a row among others.
pub open spec fn holds_run(whole: Seq<SymbolView>, part: Seq<SymbolView>) -> bool {
    exists|before: Seq<SymbolView>, after: Seq<SymbolView>|
        whole == #[trigger] spliced(before, part, after)
}

/// A name behind the names of the scopes around it, outermost first, each with a dot.
pub open spec fn dotted(scopes: Seq<Seq<char>>, name: Seq<char>) -> Seq<char>
    decreases scopes.len(),
{
    if scopes.len() == 0 {
        name
    } else {
        scopes[0] + seq!['.'] + dotted(scopes.drop_first(), name)
    }
}

/// Names are qualified by every scope around them, outermost first.
pub proof fn names_are_dotted(scopes: Seq<Seq<char>>, name: Seq<char>)
    ensures
        qualified(scopes, name) == dotted(scopes, name),
    decreases scopes.len(),
{
    if scopes.len() > 0 {
        let rest = scopes.drop_first();
        names_are_dotted(rest, name);
        joined_from_front(scopes);
        if rest.len() == 0 {
            assert(joined(scopes, seq!['.']) =~= scopes[0]);
            assert(qualified(scopes, name) =~= dotted(scopes, name));
        } else {
            assert(qualified(scopes, name) =~= scopes[0] + seq!['.'] + qualified(rest, name));
        }
    }
}

proof fn joined_from_front(parts: Seq<Seq<char>>)
    requires
        parts.len() > 0,
    ensures
        parts.len() > 1 ==> joined(parts, seq!['.']) == parts[0] + seq!['.'] + joined(
            parts.drop_first(),
            seq!['.'],
        ),
    decreases parts.len(),
{
    if parts.len() > 1 {
        let rest = parts.drop_last();
        joined_from_front(rest);
        if rest.len() > 1 {
            assert(parts.drop_first().drop_last() =~= rest.drop_first());
            assert(joined(parts, seq!['.']) =~= parts[0] + seq!['.'] + joined(
                parts.drop_first(),
                seq!['.'],
            ));
        } else {
            assert(joined(rest, seq!['.']) =~= parts[0]);
            assert(joined(parts.drop_first(), seq!['.']) =~= parts[1]);
        }
    }
}

/// What is found in two lists of constructs is what is found in the first, and then what
/// is found in the second with the hint that the first leaves.
pub proof fn found_in_turn(a: Seq<OutlineView>, b: Seq<OutlineView>, place: Place)
    ensures
        ({
            let then = Place { hint: found_all(a, place).hint, ..place };
            &&& found_all(a + b, place).symbols == found_all(a, place).symbols + found_all(
                b,
                then,
            ).symbols
            &&& found_all(a + b, place).hint == found_all(b, then).hint
        }),
    decreases b.len(),
{
    let then = Place { hint: found_all(a, place).hint, ..place };
    if b.len() > 0 {
        found_in_turn(a, b.drop_last(), place);
        assert((a + b).drop_last() =~= a + b.drop_last());
        let before = found_all(b.drop_last(), then);
        assert(Place { hint: before.hint, ..then } == Place { hint: before.hint, ..place });
        assert(found_all(a + b, place).symbols =~= found_all(a, place).symbols + found_all(
            b,
            then,
        ).symbols);
    } else {
        assert(a + b =~= a);
        assert(found_all(a, place).symbols =~= found_all(a, place).symbols + found_all(
            b,
            then,
        ).symbols);
    }
}

/// What is found in a part of a list stands in a row among what is found in the list.
pub proof fn parts_are_found(
    before: Seq<OutlineView>,
    part: Seq<OutlineView>,
    after: Seq<OutlineView>,
    place: Place,
)
    ensures
        holds_run(
            found_all(before + part + after, place).symbols,
            found_all(part, Place { hint: found_all(before, place).hint, ..place }).symbols,
        ),
{
    found_in_turn(before, part, place);
    found_in_turn(before + part, after, place);
    let then = Place { hint: found_all(before + part, place).hint, ..place };
    let x = found_all(before, place).symbols;
    let y = found_all(part, Place { hint: found_all(before, place).hint, ..place }).symbols;
    let z = found_all(after, then).symbols;
    assert(found_all(before + part + after, place).symbols =~= spliced(x, y, z));
}

/// Where symbols stand in a row among others, so does what stands in a row among them.
pub proof fn runs_of_runs(whole: Seq<SymbolView>, part: Seq<SymbolView>, inner: Seq<SymbolView>)
    requires
        holds_run(whole, part),
        holds_run(part, inner),
    ensures
        holds_run(whole, inner),
{
    let (a, b) = choose|a: Seq<SymbolView>, b: Seq<SymbolView>|
        whole == #[trigger] spliced(a, part, b);
    let (c, d) = choose|c: Seq<SymbolView>, d: Seq<SymbolView>|
        part == #[trigger] spliced(c, inner, d);
    assert(whole =~= spliced(a + c, inner, d + b));
}

/// The last part of a row stands in a row.
pub proof fn tail_is_run(before: Seq<SymbolView>, part: Seq<SymbolView>)
    ensures
        holds_run(before + part, part),
        holds_run(part, part),
{
    assert(before + part =~= spliced(before, part, Seq::empty()));
    assert(part =~= spliced(Seq::empty(), part, Seq::empty()));
}

/// What is found in one construct alone.
pub proof fn found_alone(outline: OutlineView, place: Place)
    ensures
        found_all(seq![outline], place).symbols == found(outline, place).symbols,
        found_all(seq![outline], place).hint == found(outline, place).hint,
{
    reveal_with_fuel(found_all, 2);
    let list = seq![outline];
    assert(list.drop_last() =~= Seq::empty());
    assert(list.last() == outline);
    assert(Place { hint: place.hint, ..place } == place);
    assert(found_all(list, place).symbols =~= found(outline, place).symbols);
}

/// A function is recorded before what is inside it: under its own name or, where it takes
/// the hint, under the hint if there is one, behind the scopes around it, on its lines,
/// one level below the functions around it. What is inside it sees no hint and one more
/// function around it. A function that takes the hint leaves none, and one with a name
/// of its own leaves it.
pub proof fn functions_are_recorded(outline: OutlineView, place: Place)
    requires
        outline.data is Function,
    ensures
        ({
            let own = found_all(seq![outline], place);
            let inside = found_all(
                outline.children,
                Place { scopes: place.scopes, hint: None, depth: place.depth + 1 },
            );
            &&& own.symbols.len() == 1 + inside.symbols.len()
            &&& own.symbols.drop_first() == inside.symbols
            &&& own.symbols[0].start_line == outline.data->start_line
            &&& own.symbols[0].end_line == outline.data->end_line
            &&& own.symbols[0].depth == place.depth + 1
            &&& outline.data->Function_label matches LabelView::Fixed(name) ==> own.symbols[0].name
                == dotted(place.scopes, name) && own.hint == place.hint
            &&& outline.data->Function_label matches LabelView::Hinted(other) ==> {
                &&& place.hint matches Some(name) ==> own.symbols[0].name == dotted(
                    place.scopes,
                    name,
                )
                &&& place.hint is None ==> own.symbols[0].name == dotted(place.scopes, other)
                &&& own.hint is None
            }
        }),
{
    found_alone(outline, place);
    let label = outline.data->Function_label;
    names_are_dotted(place.scopes, label_name(label, place.hint));
    let inner = Place { scopes: place.scopes, hint: None, depth: place.depth + 1 };
    assert(inner == Place { hint: None, depth: place.depth + 1, ..place });
    let own = found_all(seq![outline], place).symbols;
    assert(own.drop_first() =~= found_all(outline.children, inner).symbols);
}

/// A scope records nothing itself. What is inside it sees its name behind those of the
/// scopes around it, and as many functions around it.
pub proof fn scopes_qualify(outline: OutlineView, place: Place, name: Seq<char>)
    requires
        outline.data == (PartView::Scope { label: LabelView::Fixed(name) }),
    ensures
        found_all(seq![outline], place) == found_all(
            outline.children,
            Place { scopes: place.scopes.push(name), hint: place.hint, depth: place.depth },
        ),
{
    found_alone(outline, place);
    let inner = Place { scopes: place.scopes.push(name), hint: place.hint, depth: place.depth };
    assert(inner == inner_place(outline, place));
    assert(found(outline, place) == found_all(outline.children, inner));
}

/// A binding records nothing itself. What is inside it sees the hint that it offers, and
/// afterwards the hint is what it was, or none where the binding clears it.
pub proof fn bindings_offer(outline: OutlineView, place: Place)
    requires
        outline.data is Binding,
    ensures
        found_all(seq![outline], place).symbols == found_all(
            outline.children,
            Place { scopes: place.scopes, hint: outline.data->hint, depth: place.depth },
        ).symbols,
        !outline.data->clears ==> found_all(seq![outline], place).hint == place.hint,
        outline.data->clears ==> found_all(seq![outline], place).hint is None,
{
    found_alone(outline, place);
    assert(Place { scopes: place.scopes, hint: outline.data->hint, depth: place.depth }
        == Place { hint: outline.data->hint, ..place });
}

/// A delegate records nothing itself. What is inside it stands where it stands, and
/// afterwards the hint is what it was.
pub proof fn delegates_stand_aside(outline: OutlineView, place: Place)
    requires
        outline.data is Delegate,
    ensures
        found_all(seq![outline], place).symbols == found_all(outline.children, place).symbols,
        found_all(seq![outline], place).hint == place.hint,
{
    found_alone(outline, place);
}

/// What stands in a row among what is found inside a construct does so among what is found
/// in the construct.
pub proof fn inner_runs(outline: OutlineView, place: Place, part: Seq<SymbolView>)
    requires
        holds_run(found_all(outline.children, inner_place(outline, place)).symbols, part),
    ensures
        holds_run(found_all(seq![outline], place).symbols, part),
{
    found_alone(outline, place);
    let inside = found_all(outline.children, inner_place(outline, place)).symbols;
    let own = found(outline, place).symbols;
    if outline.data is Function {
        assert(own =~= seq![own[0]] + inside);
        tail_is_run(seq![own[0]], inside);
        runs_of_runs(own, inside, part);
    }
}

/// Two lists of constructs have as many functions as the one and the other.
pub proof fn functions_add_up(a: Seq<OutlineView>, b: Seq<OutlineView>)
    ensures
        function_count_all(a + b) == function_count_all(a) + function_count_all(b),
    decreases b.len(),
{
    if b.len() > 0 {
        functions_add_up(a, b.drop_last());
        assert((a + b).drop_last() =~= a + b.drop_last());
    } else {
        assert(a + b =~= a);
    }
}

/// One construct has one function more than what is inside it if it is a function, and
/// else as many.
pub proof fn functions_of_one(outline: OutlineView)
    ensures
        function_count_all(seq![outline]) == function_count_all(outline.children) + if
            outline.data is Function {
            1nat
        } else {
            0
        },
{
    reveal_with_fuel(function_count_all, 2);
    assert(seq![outline].drop_last() =~= Seq::empty());
    assert(seq![outline].last() == outline);
}

/// The symbols of a file are what is found in it with nothing around: no scope, no hint
/// and no function. They are missing only where one of them would nest deeper than a
/// depth can count.
pub proof fn file_symbols_stand_alone(outlines: Seq<OutlineView>)
    ensures
        ({
            let top = Place { scopes: Seq::empty(), hint: None, depth: 0 };
            let symbols = found_all(outlines, top).symbols;
            match outline_result(outlines) {
                Ok(list) => list == symbols && forall|i: int|
                    0 <= i < list.len() ==> 1 <= (#[trigger] list[i]).depth <= u32::MAX,
                Err(_) => exists|i: int|
                    0 <= i < symbols.len() && (#[trigger] symbols[i]).depth > u32::MAX,
            }
        }),
{
    let top = Place { scopes: Seq::empty(), hint: None, depth: 0 };
    depth_is_bounded_all(outlines, top);
    if nesting_all(outlines) > u32::MAX {
        let i = deepest_of_all(outlines, top);
        assert(found_all(outlines, top).symbols[i].depth > u32::MAX);
    }
}

proof fn deepest(outline: OutlineView, place: Place) -> (i: int)
    requires
        nesting(outline) > 0,
    ensures
        0 <= i < found(outline, place).symbols.len(),
        found(outline, place).symbols[i].depth == place.depth + nesting(outline),
    decreases outline,
{
    let inner = inner_place(outline, place);
    let inside = found_all(outline.children, inner).symbols;
    if outline.data is Function {
        let own = found(outline, place).symbols;
        assert(own == seq![own[0]] + inside);
        if nesting_all(outline.children) > 0 {
            let i = deepest_of_all(outline.children, inner);
            assert(own[i + 1] == inside[i]);
            i + 1
        } else {
            0
        }
    } else {
        deepest_of_all(outline.children, inner)
    }
}

proof fn deepest_of_all(outlines: Seq<OutlineView>, place: Place) -> (i: int)
    requires
        nesting_all(outlines) > 0,
    ensures
        0 <= i < found_all(outlines, place).symbols.len(),
        found_all(outlines, place).symbols[i].depth == place.depth + nesting_all(outlines),
    decreases outlines,
{
    let rest = outlines.drop_last();
    let before = found_all(rest, place);
    let then = Place { hint: before.hint, ..place };
    if nesting_all(rest) > nesting(outlines.last()) {
        deepest_of_all(rest, place)
    } else {
        let i = deepest(outlines.last(), then);
        let last = found(outlines.last(), then).symbols;
        assert(found_all(outlines, place).symbols[before.symbols.len() + i] == last[i]);
        before.symbols.len() + i
    }
}

} // verus!
