//! What the engine takes from git history: which commits are walked, the files a
//! commit changed, and the added or modified lines of a chosen subset of files.
use vstd::hash_map::StringHashMap;
use vstd::prelude::*;
use vstd::utf8::{decode_utf8, valid_utf8};

use crate::lists::{contains_after_push, distinct, distinct_keeps_each_once};
use crate::text::{same_text, text_option, texts};

verus! {

/// How many of `ids` are walked until `stop_at` is reached, itself counted.
pub open spec fn floor_length(ids: Seq<Seq<char>>, stop_at: Option<Seq<char>>) -> nat
    decreases ids.len(),
{
    match stop_at {
        Some(stop) => if ids.len() == 0 {
            0
        } else if ids[0] == stop {
            1
        } else {
            1 + floor_length(ids.drop_first(), stop_at)
        },
        None => ids.len(),
    }
}

/// The commits that are analyzed of those reachable from `HEAD`, newest first: up
/// to and with the floor, and at most so many.
pub open spec fn walked(
    ids: Seq<Seq<char>>,
    stop_at: Option<Seq<char>>,
    limit: Option<usize>,
) -> Seq<Seq<char>> {
    let floor = floor_length(ids, stop_at);
    match limit {
        Some(n) => if n < floor {
            ids.take(n as int)
        } else {
            ids.take(floor as int)
        },
        None => ids.take(floor as int),
    }
}

/// The floor is inclusive: a walk down to a reachable commit ends with it and
/// meets it nowhere before. Where the floor is not met the whole history is
/// walked.
pub proof fn floor_is_inclusive(ids: Seq<Seq<char>>, stop: Seq<char>)
    ensures
        floor_length(ids, Some(stop)) <= ids.len(),
        ids.contains(stop) ==> {
            let n = floor_length(ids, Some(stop)) as int;
            &&& n > 0
            &&& ids[n - 1] == stop
            &&& forall|i: int| 0 <= i < n - 1 ==> ids[i] != stop
            &&& walked(ids, Some(stop), None) == ids.take(n)
        },
        !ids.contains(stop) ==> walked(ids, Some(stop), None) == ids,
    decreases ids.len(),
{
    if ids.len() > 0 {
        let rest = ids.drop_first();
        floor_is_inclusive(rest, stop);
        if ids[0] != stop {
            if ids.contains(stop) {
                let i = ids.index_of(stop);
                assert(rest[i - 1] == stop);
                let n = floor_length(ids, Some(stop)) as int;
                assert forall|i: int| 0 <= i < n - 1 implies ids[i] != stop by {
                    if i > 0 {
                        assert(rest[i - 1] == ids[i]);
                    }
                }
            } else {
                assert forall|i: int| 0 <= i < rest.len() implies rest[i] != stop by {
                    assert(ids[i + 1] == rest[i]);
                }
                assert(!rest.contains(stop));
                assert(rest.take(floor_length(rest, Some(stop)) as int) == rest);
                assert(floor_length(rest, Some(stop)) == rest.len());
                assert(ids.take(ids.len() as int) =~= ids);
            }
        } else {
            assert(ids.contains(stop));
        }
    } else {
        assert(ids.take(0) =~= ids);
    }
}

/// The commits that are analyzed of those reachable from `HEAD`, newest first.
pub fn commit_oids(ids: Vec<String>, stop_at: Option<&str>, limit: Option<usize>) -> (kept: Vec<
    String,
>)
    ensures
        texts(kept@) == walked(
            texts(ids@),
            (match stop_at {
                Some(stop) => Some(stop@),
                None => None,
            }),
            limit,
        ),
{
    let ghost all = texts(ids@);
    let mut count: usize = ids.len();
    if let Some(stop) = stop_at {
        let ghost floor = floor_length(all, Some(stop@)) as int;
        let mut i: usize = 0;
        assert(all.skip(0) =~= all);
        let mut found = false;
        while i < ids.len() && !found
            invariant
                i <= ids@.len() == all.len(),
                all == texts(ids@),
                floor == floor_length(all, Some(stop@)),
                !found ==> floor == i + floor_length(all.skip(i as int), Some(stop@)),
                found ==> floor == i,
            decreases ids@.len() - i,
        {
            let ghost rest = all.skip(i as int);
            assert(rest[0] == ids@[i as int]@);
            assert(rest.drop_first() =~= all.skip(i + 1));
            if same_text(ids[i].as_str(), stop) {
                found = true;
            }
            i += 1;
        }
        count = i;
    }
    if let Some(n) = limit {
        if n < count {
            count = n;
        }
    }
    let mut kept = ids;
    kept.truncate(count);
    assert(texts(kept@) =~= all.take(count as int));
    kept
}

/// Whether a history floor bounds the walk: it is `HEAD` or an ancestor of it. A
/// commit off to the side can never be reached, so it is rejected rather than
/// silently scanning the entire history.
pub fn floor_accepted(head: &str, stop_at: &str, descends: bool) -> (accepted: bool)
    ensures
        accepted == (head@ == stop_at@ || descends),
{
    same_text(head, stop_at) || descends
}

/// A path on one side of a delta.
pub enum DeltaPath {
    /// The side has no path.
    Missing,
    /// The path is not UTF-8.
    Unreadable,
    Text(String),
}

/// One changed file of a commit.
pub struct Delta {
    pub new_path: DeltaPath,
    pub old_path: DeltaPath,
}

/// The path of a changed file. The new side carries it for additions and
/// modifications, the old side for deletions.
pub open spec fn delta_path(delta: Delta) -> Option<Seq<char>> {
    let path = if delta.new_path is Missing {
        delta.old_path
    } else {
        delta.new_path
    };
    match path {
        DeltaPath::Text(text) => Some(text@),
        _ => None,
    }
}

/// The paths of changed files.
pub open spec fn delta_paths(deltas: Seq<Delta>) -> Seq<Seq<char>>
    decreases deltas.len(),
{
    if deltas.len() == 0 {
        Seq::empty()
    } else {
        let before = delta_paths(deltas.drop_last());
        match delta_path(deltas.last()) {
            Some(path) => before.push(path),
            None => before,
        }
    }
}

/// Paths changed by a commit: any change counts, deletions too.
pub fn changed_paths(deltas: &Vec<Delta>) -> (paths: Vec<String>)
    ensures
        texts(paths@) == delta_paths(deltas@),
{
    let mut paths: Vec<String> = Vec::new();
    let mut i: usize = 0;
    assert(texts(paths@) =~= Seq::empty());
    assert(deltas@.take(0) =~= Seq::empty());
    while i < deltas.len()
        invariant
            i <= deltas@.len(),
            texts(paths@) == delta_paths(deltas@.take(i as int)),
        decreases deltas@.len() - i,
    {
        let ghost before = texts(paths@);
        assert(deltas@.take(i + 1).drop_last() =~= deltas@.take(i as int));
        let delta = &deltas[i];
        let path = match &delta.new_path {
            DeltaPath::Missing => &delta.old_path,
            path => path,
        };
        if let DeltaPath::Text(text) = path {
            paths.push(text.clone());
            assert(texts(paths@) =~= before.push(text@));
        }
        i += 1;
    }
    assert(deltas@.take(i as int) =~= deltas@);
    paths
}

/// One line of a diff: its origin mark, its number on the new side, and the path
/// of its file on the new side.
pub struct DiffLine {
    pub origin: char,
    pub new_lineno: Option<u32>,
    pub path: Option<String>,
}

/// The path and the number of an added line. `+` marks one on the new side.
pub open spec fn added_line(line: DiffLine) -> Option<(Seq<char>, u32)> {
    match (line.new_lineno, line.path) {
        (Some(lineno), Some(path)) => if line.origin == '+' {
            Some((path@, lineno))
        } else {
            None
        },
        _ => None,
    }
}

/// The paths with added lines, in the order in which they are met.
pub open spec fn added_paths(lines: Seq<DiffLine>) -> Seq<Seq<char>>
    decreases lines.len(),
{
    if lines.len() == 0 {
        Seq::empty()
    } else {
        let before = added_paths(lines.drop_last());
        match added_line(lines.last()) {
            Some((path, _)) => before.push(path),
            None => before,
        }
    }
}

/// The numbers of the added lines of one file.
pub open spec fn added_numbers(lines: Seq<DiffLine>, path: Seq<char>) -> Seq<u32>
    decreases lines.len(),
{
    if lines.len() == 0 {
        Seq::empty()
    } else {
        let before = added_numbers(lines.drop_last(), path);
        match added_line(lines.last()) {
            Some((p, lineno)) => if p == path {
                before.push(lineno)
            } else {
                before
            },
            None => before,
        }
    }
}

/// The added lines of a diff, file by file.
pub open spec fn added_by_path(lines: Seq<DiffLine>) -> Seq<(Seq<char>, Seq<u32>)> {
    distinct(added_paths(lines)).map_values(
        |path: Seq<char>| (path, added_numbers(lines, path)),
    )
}

/// Files and their lines.
pub open spec fn file_lines(files: Seq<(String, Vec<u32>)>) -> Seq<(Seq<char>, Seq<u32>)> {
    files.map_values(|f: (String, Vec<u32>)| (f.0@, f.1@))
}

/// Whether an index says where the files are in `paths`.
spec fn finds(index: Map<Seq<char>, usize>, paths: Seq<Seq<char>>) -> bool {
    &&& forall|path: Seq<char>| #[trigger] index.contains_key(path) <==> paths.contains(path)
    &&& forall|path: Seq<char>| #[trigger]
        index.contains_key(path) ==> index[path] < paths.len() && paths[index[path] as int] == path
}

/// Added or modified line numbers (new side, 1-based) of a diff, file by file.
pub fn changed_lines(lines: &Vec<DiffLine>) -> (files: Vec<(String, Vec<u32>)>)
    ensures
        file_lines(files@) == added_by_path(lines@),
{
    let mut files: Vec<(String, Vec<u32>)> = Vec::new();
    let mut index: StringHashMap<usize> = StringHashMap::new();
    let mut i: usize = 0;
    assert(lines@.take(0) =~= Seq::empty());
    assert(file_lines(files@) =~= added_by_path(lines@.take(0)));
    while i < lines.len()
        invariant
            i <= lines@.len(),
            file_lines(files@) == added_by_path(lines@.take(i as int)),
            finds(index@, distinct(added_paths(lines@.take(i as int)))),
        decreases lines@.len() - i,
    {
        let ghost so_far = lines@.take(i as int);
        let ghost next = lines@.take(i + 1);
        let ghost paths = distinct(added_paths(so_far));
        let ghost before = files@;
        let ghost old_index = index@;
        proof {
            assert(next.drop_last() =~= so_far);
            assert(next.last() == lines@[i as int]);
            distinct_keeps_each_once(added_paths(so_far));
            assert(file_lines(before).len() == before.len());
            assert forall|k: int| 0 <= k < before.len() implies (before[k].0@, before[k].1@)
                == #[trigger] added_by_path(so_far)[k] by {
                assert(file_lines(before)[k] == (before[k].0@, before[k].1@));
            }
        }
        let line = &lines[i];
        if line.origin == '+' {
            if let (Some(lineno), Some(path)) = (line.new_lineno, &line.path) {
                proof {
                    assert(added_line(*line) == Some((path@, lineno)));
                    assert(added_paths(next).drop_last() =~= added_paths(so_far));
                }
                let place: Option<usize> = match index.get(path.as_str()) {
                    Some(k) => Some(*k),
                    None => None,
                };
                match place {
                    Some(k) => {
                        files[k].1.push(lineno);
                        assert forall|j: int| 0 <= j < files@.len() implies (
                            (#[trigger] files@[j]).0@,
                            files@[j].1@,
                        ) == added_by_path(next)[j] by {
                            assert(added_by_path(so_far)[j].0 == paths[j]);
                            assert(j != k ==> paths[j] != path@);
                        }
                    },
                    None => {
                        let mut numbers: Vec<u32> = Vec::new();
                        numbers.push(lineno);
                        index.insert(path.clone(), files.len());
                        files.push((path.clone(), numbers));
                        proof {
                            assert(!paths.contains(path@));
                            no_added_line(so_far, path@);
                            assert(numbers@ =~= added_numbers(next, path@));
                        }
                        assert forall|j: int| 0 <= j < files@.len() implies (
                            (#[trigger] files@[j]).0@,
                            files@[j].1@,
                        ) == added_by_path(next)[j] by {
                            if j < before.len() {
                                assert(added_by_path(so_far)[j].0 == paths[j]);
                                assert(paths[j] != path@);
                            }
                        }
                        assert forall|p: Seq<char>| #[trigger]
                            index@.contains_key(p) <==> distinct(added_paths(next)).contains(p) by {
                            contains_after_push(paths, path@, p);
                        }
                    },
                }
                assert(file_lines(files@) =~= added_by_path(next));
            } else {
                assert(added_by_path(next) =~= added_by_path(so_far));
            }
        } else {
            assert(added_by_path(next) =~= added_by_path(so_far));
        }
        i += 1;
    }
    assert(lines@.take(i as int) =~= lines@);
    files
}

proof fn no_added_line(lines: Seq<DiffLine>, path: Seq<char>)
    requires
        !distinct(added_paths(lines)).contains(path),
    ensures
        added_numbers(lines, path) == Seq::<u32>::empty(),
{
    distinct_keeps_each_once(added_paths(lines));
    nothing_added(lines, path);
}

proof fn nothing_added(lines: Seq<DiffLine>, path: Seq<char>)
    requires
        !added_paths(lines).contains(path),
    ensures
        added_numbers(lines, path) == Seq::<u32>::empty(),
    decreases lines.len(),
{
    if lines.len() > 0 {
        let rest = lines.drop_last();
        let all = added_paths(lines);
        assert forall|i: int| 0 <= i < added_paths(rest).len() implies added_paths(rest)[i]
            != path by {
            assert(all[i] == added_paths(rest)[i]);
        }
        nothing_added(rest, path);
        match added_line(lines.last()) {
            Some((p, _)) => {
                assert(all[all.len() - 1] == p);
            },
            None => {},
        }
    }
}

/// Whether a character means something to fnmatch.
pub open spec fn is_meta(c: char) -> bool {
    c == '*' || c == '?' || c == '[' || c == ']' || c == '\\'
}

/// A path with a backslash in front of every fnmatch metacharacter.
pub open spec fn escaped(path: Seq<char>) -> Seq<char>
    decreases path.len(),
{
    if path.len() == 0 {
        Seq::empty()
    } else if is_meta(path.last()) {
        escaped(path.drop_last()).push('\\').push(path.last())
    } else {
        escaped(path.drop_last()).push(path.last())
    }
}

/// What a pathspec without a bare metacharacter matches: a backslash and the
/// metacharacter behind it stand for that one, every other character for itself.
pub open spec fn literal_of(spec_text: Seq<char>) -> Option<Seq<char>>
    decreases spec_text.len(),
{
    if spec_text.len() == 0 {
        Some(Seq::empty())
    } else {
        let last = spec_text.last();
        let quoted = spec_text.len() > 1 && is_meta(last) && spec_text[spec_text.len() - 2] == '\\';
        if quoted {
            match literal_of(spec_text.take(spec_text.len() - 2)) {
                Some(text) => Some(text.push(last)),
                None => None,
            }
        } else if is_meta(last) {
            None
        } else {
            match literal_of(spec_text.drop_last()) {
                Some(text) => Some(text.push(last)),
                None => None,
            }
        }
    }
}

/// An escaped path matches that path literally: every metacharacter in it is
/// quoted, and what is quoted and what is not spell the path.
pub proof fn escaped_is_literal(path: Seq<char>)
    ensures
        literal_of(escaped(path)) == Some(path),
    decreases path.len(),
{
    if path.len() > 0 {
        let rest = path.drop_last();
        let text = escaped(path);
        escaped_is_literal(rest);
        assert(rest.push(path.last()) =~= path);
        if is_meta(path.last()) {
            assert(text.take(text.len() - 2) =~= escaped(rest));
        } else {
            assert(text.drop_last() =~= escaped(rest));
        }
    }
}

/// Backslash-escapes the fnmatch metacharacters in `path` so a pathspec matches it
/// literally (filenames may legitimately contain `*`, `?`, `[`, `]`).
pub fn escape_pathspec(path: &str) -> (text: String)
    ensures
        text@ == escaped(path@),
{
    let mut out = String::new();
    for c in it: path.chars()
        invariant
            out@ == escaped(path@.take(it.index() as int)),
            it.seq() == path@,
    {
        assert(path@.take(it.index() as int + 1).drop_last() =~= path@.take(it.index() as int));
        if c == '*' || c == '?' || c == '[' || c == ']' || c == '\\' {
            out.push('\\');
        }
        out.push(c);
    }
    assert(path@.take(path@.len() as int) =~= path@);
    out
}

/// `std::str::from_utf8`: the text that the bytes encode, if they are valid UTF-8.
#[verifier::external_body]
fn utf8_text(bytes: &[u8]) -> (text: Option<String>)
    ensures
        match text {
            Some(s) => valid_utf8(bytes@) && s@ == decode_utf8(bytes@),
            None => !valid_utf8(bytes@),
        },
{
    std::str::from_utf8(bytes).ok().map(str::to_string)
}

/// How many bytes at the start of contents tell whether they are binary.
pub const BINARY_PREFIX: usize = 8000;

/// Whether contents are binary: git takes them for that where a NUL stands among
/// their first bytes.
pub open spec fn binary(bytes: Seq<u8>) -> bool {
    exists|i: int| 0 <= i < bytes.len() && i < BINARY_PREFIX && #[trigger] bytes[i] == 0
}

fn is_binary(bytes: &[u8]) -> (is: bool)
    ensures
        is == binary(bytes@),
{
    let mut i: usize = 0;
    while i < bytes.len() && i < BINARY_PREFIX
        invariant
            i <= bytes@.len(),
            i <= BINARY_PREFIX,
            forall|j: int| 0 <= j < i ==> bytes@[j] != 0,
        decreases bytes@.len() - i,
    {
        if bytes[i] == 0 {
            return true;
        }
        i += 1;
    }
    false
}

/// The contents of a blob as text. `None` if they are binary or not valid UTF-8.
pub fn blob_text(bytes: &[u8]) -> (text: Option<String>)
    ensures
        text_option(text) == (if valid_utf8(bytes@) && !binary(bytes@) {
            Some(decode_utf8(bytes@))
        } else {
            None
        }),
{
    if is_binary(bytes) {
        None
    } else {
        utf8_text(bytes)
    }
}

} // verus!
