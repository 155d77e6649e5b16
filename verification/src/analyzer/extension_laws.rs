//! How extensions are read from paths and from a config, in terms of their characters.
use vstd::prelude::*;

use super::extension::{
    component_start, file_name, last_component, last_dot, normalized, normalized_all,
    path_extension, trimmed_end, trimmed_start, white, without_dots,
};
use crate::text::{ascii_lower, lowered};

verus! {

/// Whether one text is another in lower case: as long, with a small letter for every ASCII
/// capital and the same character for any other.
pub open spec fn is_lower_case_of(low: Seq<char>, text: Seq<char>) -> bool {
    &&& low.len() == text.len()
    &&& forall|i: int|
        0 <= i < text.len() ==> {
            &&& 'A' <= text[i] && text[i] <= 'Z' ==> #[trigger] low[i] as int == text[i] as int
                + 32
            &&& !('A' <= text[i] && text[i] <= 'Z') ==> low[i] == text[i]
        }
}

/// Lower case is taken character by character.
pub proof fn lower_case_is_taken(text: Seq<char>)
    ensures
        is_lower_case_of(lowered(text), text),
        forall|low: Seq<char>| #[trigger] is_lower_case_of(low, text) ==> low == lowered(text),
{
    assert forall|i: int| 0 <= i < text.len() implies {
        &&& 'A' <= text[i] && text[i] <= 'Z' ==> #[trigger] lowered(text)[i] as int
            == text[i] as int + 32
        &&& !('A' <= text[i] && text[i] <= 'Z') ==> lowered(text)[i] == text[i]
    } by {
        let c = text[i];
        assert(lowered(text)[i] == ascii_lower(c));
    }
    assert forall|low: Seq<char>| #[trigger] is_lower_case_of(low, text) implies low == lowered(
        text,
    ) by {
        assert forall|i: int| 0 <= i < text.len() implies low[i] == lowered(text)[i] by {
            let c = text[i];
            assert(lowered(text)[i] == ascii_lower(c));
            assert(low[i] as int == lowered(text)[i] as int);
        }
        assert(low =~= lowered(text));
    }
}

/// Of the ASCII characters, the blank and those from the tab to the carriage return are
/// white space, and no others.
pub proof fn ascii_white_space(c: char)
    requires
        (c as int) < 128,
    ensures
        white(c) <==> c as int == 32 || 9 <= c as int <= 13,
{
}

/// Of the others, these are: the next line, the no-break space, the Ogham space mark, the
/// spaces from the en quad to the hair space, the line and the paragraph separator, the
/// narrow no-break space, the medium mathematical space and the ideographic space.
pub proof fn other_white_space(c: char)
    requires
        c as int >= 128,
    ensures
        white(c) <==> c as int == 0x85 || c as int == 0xa0 || c as int == 0x1680 || 0x2000
            <= c as int <= 0x200a || c as int == 0x2028 || c as int == 0x2029 || c as int == 0x202f
            || c as int == 0x205f || c as int == 0x3000,
{
}

/// Whether every character of a text is white space.
pub open spec fn all_white(text: Seq<char>) -> bool {
    forall|i: int| 0 <= i < text.len() ==> white(#[trigger] text[i])
}

/// Whether every character of a text is a dot.
pub open spec fn all_dots(text: Seq<char>) -> bool {
    forall|i: int| 0 <= i < text.len() ==> #[trigger] text[i] == '.'
}

/// A configured extension is matched by what it is without the white space around it and the
/// dots in front of it, in lower case.
pub proof fn extensions_are_bared(
    before: Seq<char>,
    dots: Seq<char>,
    name: Seq<char>,
    after: Seq<char>,
)
    requires
        all_white(before),
        all_dots(dots),
        all_white(after),
        name.len() > 0,
        name[0] != '.',
        dots.len() > 0 || !white(name[0]),
        !white(name[name.len() - 1]),
    ensures
        normalized(before + dots + name + after) matches Some(low) && is_lower_case_of(low, name),
{
    let whole = before + dots + name + after;
    let middle = dots + name;
    lower_case_is_taken(name);
    assert(whole =~= before + (middle + after));
    start_is_trimmed(before, middle + after);
    end_is_trimmed(middle, after);
    dots_are_dropped(dots, name);
}

/// An extension of white space and dots alone is none.
pub proof fn bare_extensions_are_none(before: Seq<char>, dots: Seq<char>, after: Seq<char>)
    requires
        all_white(before),
        all_dots(dots),
        all_white(after),
    ensures
        normalized(before + dots + after) is None,
{
    let whole = before + dots + after;
    if dots.len() > 0 {
        assert(whole =~= before + (dots + after));
        start_is_trimmed(before, dots + after);
        end_is_trimmed(dots, after);
    } else {
        assert forall|i: int| 0 <= i < whole.len() implies white(#[trigger] whole[i]) by {
            if i < before.len() {
                assert(white(before[i]));
            } else {
                assert(white(after[i - before.len()]));
            }
        }
        assert(whole =~= whole + Seq::empty());
        start_is_trimmed(whole, Seq::empty());
        assert(trimmed_end(trimmed_start(whole)) =~= dots);
    }
    assert(dots =~= dots + Seq::empty());
    dots_are_dropped(dots, Seq::empty());
}

proof fn start_is_trimmed(before: Seq<char>, rest: Seq<char>)
    requires
        all_white(before),
        rest.len() > 0 ==> !white(rest[0]),
    ensures
        trimmed_start(before + rest) == rest,
    decreases before.len(),
{
    let whole = before + rest;
    if before.len() > 0 {
        assert(white(before[0]));
        assert(whole[0] == before[0]);
        let less = before.drop_first();
        assert forall|i: int| 0 <= i < less.len() implies white(#[trigger] less[i]) by {
            assert(white(before[i + 1]));
        }
        start_is_trimmed(less, rest);
        assert(whole.drop_first() =~= less + rest);
    } else {
        assert(whole =~= rest);
    }
}

proof fn end_is_trimmed(rest: Seq<char>, after: Seq<char>)
    requires
        all_white(after),
        rest.len() > 0 ==> !white(rest[rest.len() - 1]),
    ensures
        trimmed_end(rest + after) == rest,
    decreases after.len(),
{
    let whole = rest + after;
    if after.len() > 0 {
        assert(white(after[after.len() - 1]));
        assert(whole.last() == after[after.len() - 1]);
        let less = after.drop_last();
        assert forall|i: int| 0 <= i < less.len() implies white(#[trigger] less[i]) by {
            assert(white(after[i]));
        }
        end_is_trimmed(rest, less);
        assert(whole.drop_last() =~= rest + less);
    } else {
        assert(whole =~= rest);
    }
}

proof fn dots_are_dropped(dots: Seq<char>, name: Seq<char>)
    requires
        all_dots(dots),
        name.len() > 0 ==> name[0] != '.',
    ensures
        without_dots(dots + name) == name,
    decreases dots.len(),
{
    let whole = dots + name;
    if dots.len() > 0 {
        assert(dots[0] == '.');
        assert(whole[0] == '.');
        let less = dots.drop_first();
        assert forall|i: int| 0 <= i < less.len() implies #[trigger] less[i] == '.' by {
            assert(dots[i + 1] == '.');
        }
        dots_are_dropped(less, name);
        assert(whole.drop_first() =~= less + name);
    } else {
        assert(whole =~= name);
    }
}

/// A list of extensions is matched by what each of them is matched by, in their order.
pub proof fn extensions_are_matched_in_turn(list: Seq<Seq<char>>, ext: Seq<char>)
    ensures
        normalized(ext) matches Some(name) ==> normalized_all(list.push(ext)) == normalized_all(
            list,
        ).push(name),
        normalized(ext) is None ==> normalized_all(list.push(ext)) == normalized_all(list),
        normalized_all(Seq::empty()).len() == 0,
{
    assert(list.push(ext).drop_last() =~= list);
}

/// Whether a path ends with a file name: the name holds no `/` and is neither `.` nor `..`,
/// and nothing or a `/` stands in front of it.
pub open spec fn names_file(before: Seq<char>, name: Seq<char>) -> bool {
    &&& before.len() == 0 || before[before.len() - 1] == '/'
    &&& name.len() > 0
    &&& forall|i: int| 0 <= i < name.len() ==> #[trigger] name[i] != '/'
    &&& name != seq!['.']
    &&& name != seq!['.', '.']
}

/// The extension of a path is what follows the last dot of its file name, in lower case. A
/// name without a dot, or with one at its start alone, has no extension.
pub proof fn extension_follows_last_dot(before: Seq<char>, name: Seq<char>, dot: int)
    requires
        names_file(before, name),
    ensures
        0 < dot < name.len() && name[dot] == '.' && (forall|i: int|
            dot < i < name.len() ==> #[trigger] name[i] != '.') ==> (path_extension(before + name)
            matches Some(ext) && is_lower_case_of(ext, name.skip(dot + 1))),
        (forall|i: int| 0 < i < name.len() ==> #[trigger] name[i] != '.') ==> path_extension(
            before + name,
        ) is None,
{
    let path = before + name;
    let n = before.len() as int;
    component_is_found(before, name);
    assert(path.skip(n) =~= name);
    assert(path.last() == name[name.len() - 1]);
    assert(last_component(path) == Some((n, path.len() as int)));
    assert(path.subrange(n, path.len() as int) =~= name);
    assert(file_name(path) == Some(name));
    if 0 < dot < name.len() && name[dot] == '.' && (forall|i: int|
        dot < i < name.len() ==> #[trigger] name[i] != '.') {
        last_dot_is_found(name, dot);
        lower_case_is_taken(name.skip(dot + 1));
    }
    if forall|i: int| 0 < i < name.len() ==> #[trigger] name[i] != '.' {
        no_late_dot(name);
    }
}

proof fn component_is_found(before: Seq<char>, name: Seq<char>)
    requires
        before.len() == 0 || before[before.len() - 1] == '/',
        forall|i: int| 0 <= i < name.len() ==> #[trigger] name[i] != '/',
    ensures
        component_start(before + name) == before.len(),
    decreases name.len(),
{
    let path = before + name;
    if name.len() > 0 {
        assert(path.last() == name[name.len() - 1]);
        let less = name.drop_last();
        assert forall|i: int| 0 <= i < less.len() implies #[trigger] less[i] != '/' by {
            assert(name[i] != '/');
        }
        component_is_found(before, less);
        assert(path.drop_last() =~= before + less);
    } else {
        assert(path =~= before);
    }
}

proof fn last_dot_is_found(name: Seq<char>, dot: int)
    requires
        0 <= dot < name.len(),
        name[dot] == '.',
        forall|i: int| dot < i < name.len() ==> #[trigger] name[i] != '.',
    ensures
        last_dot(name) == Some(dot),
    decreases name.len(),
{
    if dot < name.len() - 1 {
        assert(name[name.len() - 1] != '.');
        let less = name.drop_last();
        assert forall|i: int| dot < i < less.len() implies #[trigger] less[i] != '.' by {
            assert(name[i] != '.');
        }
        last_dot_is_found(less, dot);
    }
}

proof fn no_late_dot(name: Seq<char>)
    requires
        forall|i: int| 0 < i < name.len() ==> #[trigger] name[i] != '.',
    ensures
        last_dot(name) matches Some(dot) ==> dot == 0,
    decreases name.len(),
{
    reveal_with_fuel(last_dot, 2);
    if name.len() > 1 {
        assert(name[name.len() - 1] != '.');
        let less = name.drop_last();
        assert forall|i: int| 0 < i < less.len() implies #[trigger] less[i] != '.' by {
            assert(name[i] != '.');
        }
        no_late_dot(less);
    }
}

/// A slash at the end of a path changes nothing, and neither does a dot behind one.
pub proof fn trailing_slashes_do_not_count(path: Seq<char>)
    ensures
        path_extension(path.push('/')) == path_extension(path),
        path_extension(path.push('/').push('.')) == path_extension(path),
        path_extension(Seq::<char>::empty()) is None,
{
    let slashed = path.push('/');
    let dotted = slashed.push('.');
    assert(slashed.drop_last() =~= path);
    reveal_with_fuel(component_start, 2);
    assert(dotted.drop_last() =~= slashed);
    assert(component_start(dotted) == slashed.len());
    assert(dotted.skip(slashed.len() as int) =~= seq!['.']);
    assert(dotted.take(slashed.len() as int) =~= slashed);
    reveal_with_fuel(last_component, 3);
    assert(last_component(slashed) == last_component(path));
    assert(last_component(dotted) == last_component(path));
    component_within(path);
    if let Some((from, to)) = last_component(path) {
        assert(slashed.subrange(from, to) =~= path.subrange(from, to));
        assert(dotted.subrange(from, to) =~= path.subrange(from, to));
    }
}

proof fn component_within(path: Seq<char>)
    ensures
        last_component(path) matches Some((from, to)) ==> 0 <= from <= to <= path.len(),
    decreases path.len(),
{
    if path.len() > 0 {
        if path.last() == '/' {
            component_within(path.drop_last());
        } else {
            super::extension::component_starts_before(path);
            let from = component_start(path);
            if path.skip(from) == seq!['.'] {
                component_within(path.take(from));
            }
        }
    }
}

} // verus!
