//! File extensions: what a path's extension is, and how a configured one is
//! read.
use vstd::prelude::*;

use crate::text::{ascii_lower, chars_of, lower, lowered, text_from, text_option};

verus! {

/// Whether a character is white space (the Unicode property `White_Space`).
pub open spec fn white(c: char) -> bool {
    ||| '\u{9}' <= c && c <= '\u{d}'
    ||| c == ' '
    ||| c == '\u{85}'
    ||| c == '\u{a0}'
    ||| c == '\u{1680}'
    ||| '\u{2000}' <= c && c <= '\u{200a}'
    ||| c == '\u{2028}'
    ||| c == '\u{2029}'
    ||| c == '\u{202f}'
    ||| c == '\u{205f}'
    ||| c == '\u{3000}'
}

/// `s` without the white space at its start.
pub open spec fn trimmed_start(s: Seq<char>) -> Seq<char>
    decreases s.len(),
{
    if s.len() > 0 && white(s[0]) {
        trimmed_start(s.drop_first())
    } else {
        s
    }
}

/// `s` without the white space at its end.
pub open spec fn trimmed_end(s: Seq<char>) -> Seq<char>
    decreases s.len(),
{
    if s.len() > 0 && white(s.last()) {
        trimmed_end(s.drop_last())
    } else {
        s
    }
}

/// `s` without the dots at its start.
pub open spec fn without_dots(s: Seq<char>) -> Seq<char>
    decreases s.len(),
{
    if s.len() > 0 && s[0] == '.' {
        without_dots(s.drop_first())
    } else {
        s
    }
}

/// A configured extension as it is matched: white space around it and leading
/// dots dropped, in lower case. `None` where nothing is left.
pub open spec fn normalized(ext: Seq<char>) -> Option<Seq<char>> {
    let name = lowered(without_dots(trimmed_end(trimmed_start(ext))));
    if name.len() == 0 {
        None
    } else {
        Some(name)
    }
}

/// The extensions of a list as they are matched.
pub open spec fn normalized_all(list: Seq<Seq<char>>) -> Seq<Seq<char>>
    decreases list.len(),
{
    if list.len() == 0 {
        Seq::empty()
    } else {
        let before = normalized_all(list.drop_last());
        match normalized(list.last()) {
            Some(ext) => before.push(ext),
            None => before,
        }
    }
}

fn is_white(c: char) -> (is: bool)
    ensures
        is == white(c),
{
    ('\u{9}' <= c && c <= '\u{d}') || c == ' ' || c == '\u{85}' || c == '\u{a0}' || c == '\u{1680}'
        || ('\u{2000}' <= c && c <= '\u{200a}') || c == '\u{2028}' || c == '\u{2029}' || c
        == '\u{202f}' || c == '\u{205f}' || c == '\u{3000}'
}

/// Where `chars` without the white space at its start begins.
fn start_of_text(chars: &Vec<char>) -> (from: usize)
    ensures
        from <= chars@.len(),
        chars@.skip(from as int) == trimmed_start(chars@),
{
    let mut from: usize = 0;
    assert(chars@.skip(0) =~= chars@);
    while from < chars.len()
        invariant
            from <= chars@.len(),
            trimmed_start(chars@.skip(from as int)) == trimmed_start(chars@),
        decreases chars@.len() - from,
    {
        let ghost rest = chars@.skip(from as int);
        assert(rest[0] == chars@[from as int]);
        if !is_white(chars[from]) {
            return from;
        }
        assert(rest.drop_first() =~= chars@.skip(from + 1));
        from += 1;
    }
    from
}

/// Where `chars[from..]` without the white space at its end ends.
fn end_of_text(chars: &Vec<char>, from: usize) -> (to: usize)
    requires
        from <= chars@.len(),
    ensures
        from <= to <= chars@.len(),
        chars@.subrange(from as int, to as int) == trimmed_end(chars@.skip(from as int)),
{
    let mut to: usize = chars.len();
    assert(chars@.subrange(from as int, to as int) =~= chars@.skip(from as int));
    while to > from
        invariant
            from <= to <= chars@.len(),
            trimmed_end(chars@.subrange(from as int, to as int)) == trimmed_end(
                chars@.skip(from as int),
            ),
        decreases to - from,
    {
        let ghost part = chars@.subrange(from as int, to as int);
        assert(part.last() == chars@[to - 1]);
        if !is_white(chars[to - 1]) {
            return to;
        }
        assert(part.drop_last() =~= chars@.subrange(from as int, to - 1));
        to -= 1;
    }
    to
}

/// Where `chars[from..to]` without the dots at its start begins.
fn end_of_dots(chars: &Vec<char>, from: usize, to: usize) -> (rest: usize)
    requires
        from <= to <= chars@.len(),
    ensures
        from <= rest <= to,
        chars@.subrange(rest as int, to as int) == without_dots(
            chars@.subrange(from as int, to as int),
        ),
{
    let mut rest = from;
    while rest < to
        invariant
            from <= rest <= to <= chars@.len(),
            without_dots(chars@.subrange(rest as int, to as int)) == without_dots(
                chars@.subrange(from as int, to as int),
            ),
        decreases to - rest,
    {
        let ghost part = chars@.subrange(rest as int, to as int);
        assert(part[0] == chars@[rest as int]);
        if chars[rest] != '.' {
            return rest;
        }
        assert(part.drop_first() =~= chars@.subrange(rest + 1, to as int));
        rest += 1;
    }
    rest
}

/// Normalizes an extension: white space around it trimmed, leading dots dropped,
/// in lower case. `None` where nothing is left.
pub fn normalize_ext(ext: &str) -> (name: Option<String>)
    ensures
        text_option(name) == normalized(ext@),
{
    let chars = chars_of(ext);
    let from = start_of_text(&chars);
    let to = end_of_text(&chars, from);
    let from = end_of_dots(&chars, from, to);
    if from == to {
        return None;
    }
    Some(lower(text_from(&chars, from, to).as_str()))
}

/// Where the last component of a `/`-separated path starts and ends. Empty
/// components and `.` at the end do not count.
pub open spec fn last_component(path: Seq<char>) -> Option<(int, int)>
    decreases path.len(),
{
    if path.len() == 0 {
        None
    } else if path.last() == '/' {
        last_component(path.drop_last())
    } else {
        proof {
            component_starts_before(path);
        }
        let from = component_start(path);
        if path.skip(from) == seq!['.'] {
            last_component(path.take(from))
        } else {
            Some((from, path.len() as int))
        }
    }
}

/// Where the component that a path ends in starts: behind its last `/`.
pub open spec fn component_start(path: Seq<char>) -> int
    decreases path.len(),
{
    if path.len() == 0 || path.last() == '/' {
        path.len() as int
    } else {
        component_start(path.drop_last())
    }
}

/// The file name of a path: its last component, if that is no `..`.
pub open spec fn file_name(path: Seq<char>) -> Option<Seq<char>> {
    match last_component(path) {
        Some((from, to)) => {
            let name = path.subrange(from, to);
            if name == seq!['.', '.'] {
                None
            } else {
                Some(name)
            }
        },
        None => None,
    }
}

/// Where the last dot of a name is.
pub open spec fn last_dot(name: Seq<char>) -> Option<int>
    decreases name.len(),
{
    if name.len() == 0 {
        None
    } else if name.last() == '.' {
        Some(name.len() - 1)
    } else {
        last_dot(name.drop_last())
    }
}

/// The extension of a path in lower case: what follows the last dot of its file
/// name, if a dot is there that does not begin it.
pub open spec fn path_extension(path: Seq<char>) -> Option<Seq<char>> {
    match file_name(path) {
        Some(name) => match last_dot(name) {
            Some(dot) => if dot > 0 {
                Some(lowered(name.skip(dot + 1)))
            } else {
                None
            },
            None => None,
        },
        None => None,
    }
}

fn start_of_component(chars: &Vec<char>, to: usize) -> (from: usize)
    requires
        to <= chars@.len(),
    ensures
        from == component_start(chars@.take(to as int)),
        from <= to,
{
    let mut from = to;
    while from > 0 && chars[from - 1] != '/'
        invariant
            from <= to <= chars@.len(),
            component_start(chars@.take(from as int)) == component_start(chars@.take(to as int)),
        decreases from,
    {
        assert(chars@.take(from as int).drop_last() =~= chars@.take(from - 1));
        from -= 1;
    }
    from
}

/// Lower-cased file extension (without dot) of `path`, if it has one.
pub fn extension_of(path: &str) -> (ext: Option<String>)
    ensures
        text_option(ext) == path_extension(path@),
{
    let chars = chars_of(path);
    let mut to: usize = chars.len();
    assert(chars@.take(to as int) =~= path@);
    while to > 0
        invariant
            to <= chars@.len(),
            chars@ == path@,
            last_component(chars@.take(to as int)) == last_component(path@),
        decreases to,
    {
        let ghost head = chars@.take(to as int);
        if chars[to - 1] == '/' {
            assert(head.drop_last() =~= chars@.take(to - 1));
            to -= 1;
        } else {
            let from = start_of_component(&chars, to);
            proof {
                component_starts_before(head);
            }
            assert(head.skip(from as int) =~= chars@.subrange(from as int, to as int));
            if to - from == 1 && chars[from] == '.' {
                assert(head.skip(from as int) =~= seq!['.']);
                assert(head.take(from as int) =~= chars@.take(from as int));
                to = from;
            } else {
                assert(head.skip(from as int) != seq!['.']) by {
                    if head.skip(from as int) == seq!['.'] {
                        assert(head.skip(from as int)[0] == chars@[from as int]);
                    }
                }
                return extension_in(&chars, from, to);
            }
        }
    }
    None
}

/// A component that does not end in `/` holds at least one character.
pub proof fn component_starts_before(path: Seq<char>)
    requires
        path.len() > 0,
        path.last() != '/',
    ensures
        0 <= component_start(path) < path.len(),
    decreases path.len(),
{
    reveal_with_fuel(component_start, 2);
    let rest = path.drop_last();
    if rest.len() > 0 && rest.last() != '/' {
        component_starts_before(rest);
    }
}

fn extension_in(chars: &Vec<char>, from: usize, to: usize) -> (ext: Option<String>)
    requires
        from < to <= chars@.len(),
        last_component(chars@) == Some((from as int, to as int)),
    ensures
        text_option(ext) == path_extension(chars@),
{
    let ghost name = chars@.subrange(from as int, to as int);
    if to - from == 2 && chars[from] == '.' && chars[from + 1] == '.' {
        assert(name =~= seq!['.', '.']);
        return None;
    }
    assert(name != seq!['.', '.']) by {
        if name == seq!['.', '.'] {
            assert(name[0] == chars@[from as int]);
            assert(name[1] == chars@[from + 1]);
        }
    }
    let mut dot = to;
    assert(name.take(to - from) =~= name);
    while dot > from
        invariant
            from <= dot <= to <= chars@.len(),
            name == chars@.subrange(from as int, to as int),
            last_dot(name.take(dot - from)) == last_dot(name),
            file_name(chars@) == Some(name),
        decreases dot,
    {
        let ghost head = name.take(dot - from);
        assert(head.last() == chars@[dot - 1]);
        if chars[dot - 1] == '.' {
            if dot - 1 == from {
                return None;
            }
            assert(name.skip(dot - from) =~= chars@.subrange(dot as int, to as int));
            return Some(lower(text_from(chars, dot, to).as_str()));
        }
        assert(head.drop_last() =~= name.take(dot - 1 - from));
        dot -= 1;
    }
    None
}

/// A leading dot is optional: `vue` and `.vue` are the same extension. An
/// extension that starts with white space is another matter, since a dot in front
/// keeps it from being trimmed.
pub proof fn leading_dot_is_optional(ext: Seq<char>)
    requires
        ext.len() > 0 ==> !white(ext[0]),
    ensures
        normalized(seq!['.'] + ext) == normalized(ext),
{
    let dotted = seq!['.'] + ext;
    assert(dotted[0] == '.');
    assert(trimmed_start(dotted) == dotted);
    assert(trimmed_start(ext) == ext);
    trimmed_end_behind_dot(ext);
    let (with, without) = (trimmed_end(dotted), trimmed_end(ext));
    assert(with[0] == '.');
    assert(with.drop_first() =~= without);
}

proof fn trimmed_end_behind_dot(ext: Seq<char>)
    ensures
        trimmed_end(seq!['.'] + ext) == seq!['.'] + trimmed_end(ext),
    decreases ext.len(),
{
    let dotted = seq!['.'] + ext;
    if ext.len() > 0 {
        assert(dotted.last() == ext.last());
        assert(dotted.drop_last() =~= seq!['.'] + ext.drop_last());
        trimmed_end_behind_dot(ext.drop_last());
    } else {
        assert(dotted.last() == '.');
        assert(dotted =~= seq!['.'] + trimmed_end(ext));
    }
}

/// Extensions are matched case-insensitively: the case of a configured extension
/// does not matter.
pub proof fn case_does_not_matter(ext: Seq<char>)
    ensures
        normalized(lowered(ext)) == normalized(ext),
{
    lowered_start(ext);
    lowered_end(trimmed_start(ext));
    lowered_dots(trimmed_end(trimmed_start(ext)));
    lowered_twice(without_dots(trimmed_end(trimmed_start(ext))));
}

proof fn lowered_twice(s: Seq<char>)
    ensures
        lowered(lowered(s)) == lowered(s),
{
    assert(lowered(lowered(s)) =~= lowered(s));
}

proof fn lowered_start(s: Seq<char>)
    ensures
        trimmed_start(lowered(s)) == lowered(trimmed_start(s)),
    decreases s.len(),
{
    if s.len() > 0 {
        assert(lowered(s)[0] == ascii_lower(s[0]));
        assert(lowered(s).drop_first() =~= lowered(s.drop_first()));
        lowered_start(s.drop_first());
    }
}

proof fn lowered_end(s: Seq<char>)
    ensures
        trimmed_end(lowered(s)) == lowered(trimmed_end(s)),
    decreases s.len(),
{
    if s.len() > 0 {
        assert(lowered(s).last() == ascii_lower(s.last()));
        assert(lowered(s).drop_last() =~= lowered(s.drop_last()));
        lowered_end(s.drop_last());
    }
}

proof fn lowered_dots(s: Seq<char>)
    ensures
        without_dots(lowered(s)) == lowered(without_dots(s)),
    decreases s.len(),
{
    if s.len() > 0 {
        assert(lowered(s)[0] == ascii_lower(s[0]));
        assert(lowered(s).drop_first() =~= lowered(s.drop_first()));
        lowered_dots(s.drop_first());
    }
}

/// The case of a path's extension does not matter either, nor that of the rest of
/// the path.
pub proof fn path_case_does_not_matter(path: Seq<char>)
    ensures
        path_extension(lowered(path)) == path_extension(path),
{
    lowered_last_component(path);
    match last_component(path) {
        Some((from, to)) => {
            last_component_within(path);
            let name = path.subrange(from, to);
            let low = lowered(path).subrange(from, to);
            assert(low =~= lowered(name));
            lowered_last_dot(name);
            last_dot_within(name);
            if name == seq!['.', '.'] {
                assert(low =~= seq!['.', '.']);
            } else if low == seq!['.', '.'] {
                assert(low[0] == ascii_lower(name[0]) && low[1] == ascii_lower(name[1]));
                assert(name =~= seq!['.', '.']);
            }
            match last_dot(name) {
                Some(dot) => {
                    assert(low.skip(dot + 1) =~= lowered(name.skip(dot + 1)));
                    lowered_twice(name.skip(dot + 1));
                },
                None => {},
            }
        },
        None => {},
    }
}

proof fn lowered_component_start(path: Seq<char>)
    ensures
        component_start(lowered(path)) == component_start(path),
        0 <= component_start(path) <= path.len(),
    decreases path.len(),
{
    if path.len() > 0 {
        assert(lowered(path).last() == ascii_lower(path.last()));
        assert(lowered(path).drop_last() =~= lowered(path.drop_last()));
        lowered_component_start(path.drop_last());
    }
}

proof fn lowered_last_component(path: Seq<char>)
    ensures
        last_component(lowered(path)) == last_component(path),
    decreases path.len(),
{
    if path.len() > 0 {
        let low = lowered(path);
        assert(low.last() == ascii_lower(path.last()));
        if path.last() == '/' {
            assert(low.drop_last() =~= lowered(path.drop_last()));
            lowered_last_component(path.drop_last());
        } else {
            component_starts_before(path);
            lowered_component_start(path);
            let from = component_start(path);
            assert(low.skip(from) =~= lowered(path.skip(from)));
            assert(low.take(from) =~= lowered(path.take(from)));
            if path.skip(from) == seq!['.'] {
                assert(low.skip(from) =~= seq!['.']);
                lowered_last_component(path.take(from));
            } else if low.skip(from) == seq!['.'] {
                assert(low.skip(from)[0] == ascii_lower(path.skip(from)[0]));
                assert(path.skip(from) =~= seq!['.']);
            }
        }
    }
}

proof fn last_component_within(path: Seq<char>)
    ensures
        last_component(path) matches Some((from, to)) ==> 0 <= from < to <= path.len(),
    decreases path.len(),
{
    if path.len() > 0 {
        if path.last() == '/' {
            last_component_within(path.drop_last());
        } else {
            component_starts_before(path);
            last_component_within(path.take(component_start(path)));
        }
    }
}

proof fn lowered_last_dot(name: Seq<char>)
    ensures
        last_dot(lowered(name)) == last_dot(name),
    decreases name.len(),
{
    if name.len() > 0 {
        assert(lowered(name).last() == ascii_lower(name.last()));
        assert(lowered(name).drop_last() =~= lowered(name.drop_last()));
        lowered_last_dot(name.drop_last());
    }
}

proof fn last_dot_within(name: Seq<char>)
    ensures
        last_dot(name) matches Some(dot) ==> 0 <= dot < name.len(),
    decreases name.len(),
{
    if name.len() > 0 {
        last_dot_within(name.drop_last());
    }
}

} // verus!
