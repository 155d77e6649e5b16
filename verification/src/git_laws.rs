//! What the engine takes from git history, in terms of what git gives.
use vstd::prelude::*;

use crate::git_history::{
    Delta, DeltaPath, DiffLine, added_by_path, added_line, added_numbers, added_paths, binary,
    delta_paths, escaped, floor_length, walked,
};
use crate::lists::{contains_after_push, distinct, distinct_keeps_each_once};

verus! {

/// The walk takes commits from the newest on, each where it stands in the history, and it
/// takes the one at `i` exactly where the limit leaves room for it and no newer commit is
/// the floor.
pub proof fn walk_stops_at_floor_and_limit(
    ids: Seq<Seq<char>>,
    stop_at: Option<Seq<char>>,
    limit: Option<usize>,
    i: int,
)
    requires
        0 <= i < ids.len(),
    ensures
        ({
            let kept = walked(ids, stop_at, limit);
            &&& kept.len() <= ids.len()
            &&& i < kept.len() ==> kept[i] == ids[i]
            &&& i < kept.len() <==> (limit matches Some(n) ==> i < n) && (
            stop_at matches Some(stop) ==> forall|j: int| 0 <= j < i ==> ids[j] != stop)
        }),
{
    if let Some(stop) = stop_at {
        floor_stands_at(ids, stop, i);
    }
    floor_within(ids, stop_at);
}

proof fn floor_within(ids: Seq<Seq<char>>, stop_at: Option<Seq<char>>)
    ensures
        floor_length(ids, stop_at) <= ids.len(),
    decreases ids.len(),
{
    if ids.len() > 0 {
        floor_within(ids.drop_first(), stop_at);
    }
}

proof fn floor_stands_at(ids: Seq<Seq<char>>, stop: Seq<char>, i: int)
    requires
        0 <= i < ids.len(),
    ensures
        i < floor_length(ids, Some(stop)) <==> forall|j: int| 0 <= j < i ==> ids[j] != stop,
    decreases ids.len(),
{
    if ids[0] == stop {
        if i > 0 {
            assert(ids[0] == stop);
        }
    } else if i > 0 {
        let rest = ids.drop_first();
        floor_stands_at(rest, stop, i - 1);
        assert forall|j: int| 0 <= j < i implies (ids[j] != stop <==> j == 0 || rest[j - 1]
            != stop) by {}
        if forall|j: int| 0 <= j < i ==> ids[j] != stop {
            assert forall|j: int| 0 <= j < i - 1 implies rest[j] != stop by {
                assert(ids[j + 1] != stop);
            }
        }
        if forall|j: int| 0 <= j < i - 1 ==> rest[j] != stop {
            assert forall|j: int| 0 <= j < i implies ids[j] != stop by {
                if j > 0 {
                    assert(rest[j - 1] != stop);
                }
            }
        }
    }
}

/// The paths of a list of changes are those of its changes in turn. A change has the path
/// on its new side, or the one on its old side where the new side has none, and a path that
/// is not UTF-8 is passed over.
pub proof fn changes_have_their_paths(a: Seq<Delta>, b: Seq<Delta>, delta: Delta)
    ensures
        delta_paths(a + b) == delta_paths(a) + delta_paths(b),
        delta.new_path matches DeltaPath::Text(path) ==> delta_paths(seq![delta]) == seq![path@],
        delta.new_path is Unreadable ==> delta_paths(seq![delta]).len() == 0,
        delta.new_path is Missing ==> (delta.old_path matches DeltaPath::Text(path) ==> delta_paths(
            seq![delta],
        ) == seq![path@]),
        delta.new_path is Missing && !(delta.old_path is Text) ==> delta_paths(
            seq![delta],
        ).len() == 0,
    decreases b.len(),
{
    reveal_with_fuel(delta_paths, 2);
    assert(seq![delta].drop_last() =~= Seq::empty());
    assert(seq![delta].last() == delta);
    assert(Seq::<Seq<char>>::empty().push(delta_paths(seq![delta])[0]) =~= seq![
        delta_paths(seq![delta])[0],
    ]);
    if b.len() > 0 {
        changes_have_their_paths(a, b.drop_last(), delta);
        assert((a + b).drop_last() =~= a + b.drop_last());
        assert(delta_paths(a + b) =~= delta_paths(a) + delta_paths(b));
    } else {
        assert(a + b =~= a);
        assert(delta_paths(a + b) =~= delta_paths(a) + delta_paths(b));
    }
}

/// Whether a line of a diff is one that the new side of the file at `path` has and the old
/// side has not, and its number.
pub open spec fn adds(line: DiffLine, path: Seq<char>, number: u32) -> bool {
    &&& line.origin == '+'
    &&& line.new_lineno == Some(number)
    &&& line.path matches Some(own) && own@ == path
}

/// The lines of a diff are sorted by file: a file is listed exactly where it has added
/// lines, and with the number of each of them and no other.
pub proof fn diffs_give_added_lines(lines: Seq<DiffLine>, path: Seq<char>)
    ensures
        ({
            let files = added_by_path(lines);
            &&& forall|k: int, n: u32|
                0 <= k < lines.len() && #[trigger] adds(lines[k], path, n) ==> exists|f: int|
                    0 <= f < files.len() && (#[trigger] files[f]).0 == path && files[f].1.contains(
                        n,
                    )
            &&& forall|f: int, n: u32|
                0 <= f < files.len() && (#[trigger] files[f]).0 == path
                    && #[trigger] files[f].1.contains(n) ==> exists|k: int|
                    0 <= k < lines.len() && #[trigger] adds(lines[k], path, n)
            &&& forall|f: int|
                0 <= f < files.len() ==> (#[trigger] files[f]).1.len() > 0
        }),
{
    let files = added_by_path(lines);
    let paths = distinct(added_paths(lines));
    distinct_keeps_each_once(added_paths(lines));
    assert forall|k: int, n: u32|
        0 <= k < lines.len() && #[trigger] adds(lines[k], path, n) implies exists|f: int|
        0 <= f < files.len() && (#[trigger] files[f]).0 == path && files[f].1.contains(n) by {
        added_is_listed(lines, k, path, n);
        assert(paths.contains(path));
        let f = paths.index_of(path);
        assert(files[f] == (path, added_numbers(lines, path)));
    }
    assert forall|f: int, n: u32|
        0 <= f < files.len() && (#[trigger] files[f]).0 == path
            && #[trigger] files[f].1.contains(n) implies exists|k: int|
        0 <= k < lines.len() && #[trigger] adds(lines[k], path, n) by {
        assert(files[f] == (paths[f], added_numbers(lines, paths[f])));
        let k = listed_is_added(lines, path, n);
        assert(adds(lines[k], path, n));
    }
    assert forall|f: int| 0 <= f < files.len() implies (#[trigger] files[f]).1.len() > 0 by {
        assert(paths.contains(paths[f]));
        assert(added_paths(lines).contains(paths[f]));
        listed_has_lines(lines, paths[f]);
    }
}

proof fn added_is_listed(lines: Seq<DiffLine>, k: int, path: Seq<char>, n: u32)
    requires
        0 <= k < lines.len(),
        adds(lines[k], path, n),
    ensures
        added_paths(lines).contains(path),
        added_numbers(lines, path).contains(n),
    decreases lines.len(),
{
    let rest = lines.drop_last();
    let (a, b) = (added_paths(rest), added_numbers(rest, path));
    if k < rest.len() {
        assert(rest[k] == lines[k]);
        added_is_listed(rest, k, path, n);
    } else {
        assert(added_line(lines.last()) == Some((path, n)));
    }
    if let Some((p, number)) = added_line(lines.last()) {
        contains_after_push(a, p, path);
        contains_after_push(b, number, n);
    }
}

proof fn listed_is_added(lines: Seq<DiffLine>, path: Seq<char>, n: u32) -> (k: int)
    requires
        added_numbers(lines, path).contains(n),
    ensures
        0 <= k < lines.len(),
        adds(lines[k], path, n),
    decreases lines.len(),
{
    let rest = lines.drop_last();
    let before = added_numbers(rest, path);
    if before.contains(n) {
        let k = listed_is_added(rest, path, n);
        assert(rest[k] == lines[k]);
        k
    } else {
        if let Some((p, number)) = added_line(lines.last()) {
            contains_after_push(before, number, n);
        }
        lines.len() - 1
    }
}

proof fn listed_has_lines(lines: Seq<DiffLine>, path: Seq<char>)
    requires
        added_paths(lines).contains(path),
    ensures
        added_numbers(lines, path).len() > 0,
    decreases lines.len(),
{
    let rest = lines.drop_last();
    let before = added_paths(rest);
    if before.contains(path) {
        listed_has_lines(rest, path);
    } else if let Some((p, _)) = added_line(lines.last()) {
        contains_after_push(before, p, path);
    }
}

/// The numbers of a file are those of its lines in turn.
pub proof fn numbers_stand_in_turn(a: Seq<DiffLine>, line: DiffLine, path: Seq<char>, n: u32)
    ensures
        adds(line, path, n) ==> added_numbers(a.push(line), path) == added_numbers(a, path).push(
            n,
        ),
        (forall|m: u32| !#[trigger] adds(line, path, m)) ==> added_numbers(a.push(line), path)
            == added_numbers(a, path),
{
    assert(a.push(line).drop_last() =~= a);
    if let Some((p, m)) = added_line(line) {
        assert(adds(line, p, m));
    }
}

/// A path is escaped character by character: a backslash comes before each of `*`, `?`, `[`,
/// `]` and `\`, and every other character stays as it is.
pub proof fn characters_are_escaped_in_turn(a: Seq<char>, b: Seq<char>, c: char)
    ensures
        escaped(a + b) == escaped(a) + escaped(b),
        c == '*' || c == '?' || c == '[' || c == ']' || c == '\\' ==> escaped(seq![c]) == seq![
            '\\',
            c,
        ],
        c != '*' && c != '?' && c != '[' && c != ']' && c != '\\' ==> escaped(seq![c]) == seq![c],
    decreases b.len(),
{
    reveal_with_fuel(escaped, 2);
    assert(seq![c].drop_last() =~= Seq::empty());
    assert(seq![c].last() == c);
    assert(Seq::<char>::empty().push('\\').push(c) =~= seq!['\\', c]);
    assert(Seq::<char>::empty().push(c) =~= seq![c]);
    if b.len() > 0 {
        characters_are_escaped_in_turn(a, b.drop_last(), c);
        assert((a + b).drop_last() =~= a + b.drop_last());
        assert(escaped(a + b) =~= escaped(a) + escaped(b));
    } else {
        assert(a + b =~= a);
        assert(escaped(a + b) =~= escaped(a) + escaped(b));
    }
}

/// Contents are binary exactly where one of their first 8000 bytes is NUL.
pub proof fn early_nul_is_binary(bytes: Seq<u8>)
    ensures
        binary(bytes) <==> bytes.take(
            if bytes.len() < 8000 {
                bytes.len() as int
            } else {
                8000
            },
        ).contains(0u8),
{
    let n = if bytes.len() < 8000 {
        bytes.len() as int
    } else {
        8000
    };
    let head = bytes.take(n);
    if binary(bytes) {
        let i = choose|i: int| 0 <= i < bytes.len() && i < 8000 && #[trigger] bytes[i] == 0;
        assert(head[i] == 0u8);
    }
    if head.contains(0u8) {
        let i = head.index_of(0u8);
        assert(bytes[i] == 0);
    }
}

} // verus!
