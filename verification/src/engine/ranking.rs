//! What the leaderboards show, in terms of the commits behind them.
use vstd::prelude::*;

use super::commit::{ConfigView, analysis};
use super::laws::{
    failures_are_listed_once, files_are_ranked, newest_is_latest, of_key_add, of_key_members,
    period_spans_commits, same_elements, sighting_origin, symbols_are_ranked,
};
use super::reduce::{
    all_failures, all_files, all_sightings, file_leq, keys, newest, of_key, present,
    reduced, sightings_in, symbol_leq, symbol_stat, truncated,
};
use super::{FileStat, FileStatView, HitView, OutcomeView, SymbolStat, SymbolStatView};
use crate::lists::{occurrences, occurrences_add};
use crate::sorting::Ordered;
use crate::text::{text_less, text_less_first_difference, text_less_total};

verus! {

/// Of a leaderboard cut short the first rows are shown, as many as were asked for or all
/// of them.
pub proof fn first_rows_are_shown<T>(rows: Seq<T>, top: Option<usize>)
    ensures
        match top {
            Some(n) => truncated(rows, top).len() == if n < rows.len() {
                n as nat
            } else {
                rows.len()
            },
            None => truncated(rows, top).len() == rows.len(),
        },
        forall|i: int|
            0 <= i < truncated(rows, top).len() ==> #[trigger] truncated(rows, top)[i] == rows[i],
{
}

/// The same of whole results: with a limit of `n`, the first `n` rows of each
/// leaderboard are shown, or all of them where there are fewer, and nothing else
/// changes.
pub proof fn top_rows_are_shown(list: Seq<OutcomeView>, n: usize, glob_filtered: bool)
    ensures
        ({
            let all = reduced(list, None, glob_filtered);
            let cut = reduced(list, Some(n), glob_filtered);
            &&& cut.files.len() <= n
            &&& cut.files.len() < n ==> cut.files.len() == all.files.len()
            &&& cut.files.len() <= all.files.len()
            &&& forall|i: int|
                0 <= i < cut.files.len() ==> #[trigger] cut.files[i] == all.files[i]
            &&& cut.symbols.len() <= n
            &&& cut.symbols.len() < n ==> cut.symbols.len() == all.symbols.len()
            &&& cut.symbols.len() <= all.symbols.len()
            &&& forall|i: int|
                0 <= i < cut.symbols.len() ==> #[trigger] cut.symbols[i] == all.symbols[i]
            &&& cut.total_files == all.total_files
            &&& cut.parse_failures == all.parse_failures
            &&& cut.commit_count == all.commit_count
            &&& cut.period == all.period
            &&& cut.glob_filtered == all.glob_filtered
        }),
{
}

/// Whether one text stands before another: they agree up to some place, where the first
/// ends and the second does not, or the first has the lesser character.
pub open spec fn stands_before(a: Seq<char>, b: Seq<char>) -> bool {
    exists|k: int|
        0 <= k <= a.len() && k < b.len() && #[trigger] a.take(k) == b.take(k) && (k == a.len()
            || a[k] < b[k])
}

/// Whether a path is the given one.
pub open spec fn is_path(path: Seq<char>) -> spec_fn(Seq<char>) -> bool {
    |p: Seq<char>| p == path
}

/// How often commits list a path among their files.
pub open spec fn times_changed(list: Seq<OutcomeView>, path: Seq<char>) -> nat
    decreases list.len(),
{
    if list.len() == 0 {
        0
    } else {
        times_changed(list.drop_last(), path) + list.last().files.filter(is_path(path)).len()
    }
}

/// How often commits credit the function `name` of the file at `path`.
pub open spec fn times_credited(
    list: Seq<OutcomeView>,
    path: Seq<char>,
    name: Seq<char>,
) -> nat
    decreases list.len(),
{
    if list.len() == 0 {
        0
    } else {
        times_credited(list.drop_last(), path, name) + list.last().symbols.filter(
            |h: HitView| h.path == path && h.name == name,
        ).len()
    }
}

/// A row of the file leaderboard says how often commits list its path, which some commit
/// does. Rows with more changes stand first, and of rows with as many the one whose path
/// stands before the other's.
pub proof fn file_rows_count_and_rank(list: Seq<OutcomeView>, glob_filtered: bool)
    ensures
        ({
            let result = reduced(list, None, glob_filtered);
            let rows = result.files;
            &&& result.total_files == rows.len()
            &&& forall|i: int|
                0 <= i < rows.len() ==> (#[trigger] rows[i]).changes == times_changed(
                    list,
                    rows[i].path,
                )
            &&& forall|i: int|
                0 <= i < rows.len() ==> exists|c: int|
                    0 <= c < list.len() && (#[trigger] list[c]).files.contains(
                        (#[trigger] rows[i]).path,
                    )
            &&& forall|i: int, j: int|
                0 <= i < j < rows.len() ==> {
                    ||| (#[trigger] rows[i]).changes > (#[trigger] rows[j]).changes
                    ||| rows[i].changes == rows[j].changes && stands_before(
                        rows[i].path,
                        rows[j].path,
                    )
                }
        }),
{
    let paths = all_files(list);
    let rows = reduced(list, None, glob_filtered).files;
    files_are_ranked(list);
    super::laws::truncation_only_hides_rows(list, None, glob_filtered);
    assert(rows == reduced(list, None, false).files);
    assert forall|i: int| 0 <= i < rows.len() implies (#[trigger] rows[i]).changes
        == times_changed(list, rows[i].path) by {
        assert(rows.contains(rows[i]));
        changes_add_up(list, rows[i].path);
    }
    assert forall|i: int| 0 <= i < rows.len() implies exists|c: int|
        0 <= c < list.len() && (#[trigger] list[c]).files.contains((#[trigger] rows[i]).path) by {
        assert(rows.contains(rows[i]));
        let c = file_origin(list, paths.index_of(rows[i].path));
        assert(list[c].files.contains(rows[i].path));
    }
    assert forall|i: int, j: int| 0 <= i < j < rows.len() implies {
        ||| (#[trigger] rows[i]).changes > (#[trigger] rows[j]).changes
        ||| rows[i].changes == rows[j].changes && stands_before(rows[i].path, rows[j].path)
    } by {
        assert(file_leq(rows[i], rows[j]));
        assert(rows.contains(rows[i]));
        assert(rows.contains(rows[j]));
        assert(rows[i] != rows[j]);
        if rows[i].changes == rows[j].changes {
            text_less_total(rows[i].path, rows[j].path);
            text_less_first_difference(rows[i].path, rows[j].path);
        }
    }
}

/// Every path that a commit lists has a row of the file leaderboard.
pub proof fn every_changed_file_has_a_row(
    list: Seq<OutcomeView>,
    glob_filtered: bool,
    c: int,
    path: Seq<char>,
)
    requires
        0 <= c < list.len(),
        list[c].files.contains(path),
    ensures
        exists|i: int|
            0 <= i < reduced(list, None, glob_filtered).files.len() && (#[trigger] reduced(
                list,
                None,
                glob_filtered,
            ).files[i]).path == path,
{
    let paths = all_files(list);
    let rows = reduced(list, None, glob_filtered).files;
    files_are_ranked(list);
    assert(rows == reduced(list, None, false).files);
    file_listed(list, c, list[c].files.index_of(path));
    let row = FileStatView { path, changes: occurrences(paths, path) as int };
    assert(rows.contains(row));
    assert(rows[rows.index_of(row)].path == path);
}

proof fn changes_add_up(list: Seq<OutcomeView>, path: Seq<char>)
    ensures
        occurrences(all_files(list), path) == times_changed(list, path),
    decreases list.len(),
{
    if list.len() > 0 {
        changes_add_up(list.drop_last(), path);
        occurrences_add(all_files(list.drop_last()), list.last().files, path);
        occurrences_filter(list.last().files, path);
    }
}

proof fn occurrences_filter(paths: Seq<Seq<char>>, path: Seq<char>)
    ensures
        occurrences(paths, path) == paths.filter(is_path(path)).len(),
    decreases paths.len(),
{
    reveal(Seq::filter);
    if paths.len() > 0 {
        occurrences_filter(paths.drop_last(), path);
    }
}

proof fn file_origin(list: Seq<OutcomeView>, k: int) -> (c: int)
    requires
        0 <= k < all_files(list).len(),
    ensures
        0 <= c < list.len(),
        list[c].files.contains(all_files(list)[k]),
    decreases list.len(),
{
    let rest = list.drop_last();
    let before = all_files(rest);
    if k < before.len() {
        let c = file_origin(rest, k);
        assert(rest[c] == list[c]);
        c
    } else {
        assert(list.last().files[k - before.len()] == all_files(list)[k]);
        list.len() - 1
    }
}

proof fn file_listed(list: Seq<OutcomeView>, c: int, f: int)
    requires
        0 <= c < list.len(),
        0 <= f < list[c].files.len(),
    ensures
        all_files(list).contains(list[c].files[f]),
    decreases list.len(),
{
    let rest = list.drop_last();
    let before = all_files(rest);
    if c < rest.len() {
        assert(rest[c] == list[c]);
        file_listed(rest, c, f);
        assert(all_files(list)[before.index_of(list[c].files[f])] == list[c].files[f]);
    } else {
        assert(all_files(list)[before.len() + f] == list[c].files[f]);
    }
}

/// Whether a row has the lines and the depth of a hit.
pub open spec fn placed_like(row: SymbolStatView, hit: HitView) -> bool {
    &&& row.start_line == hit.start_line
    &&& row.end_line == hit.end_line
    &&& row.depth == hit.depth
}

/// The function leaderboard has a row for every function that a commit credits, and no
/// other. A row says how often commits credit it. Rows with more changes stand first,
/// and of rows with as many the one whose path, or else whose name, stands before the
/// other's.
pub proof fn symbol_rows_count_and_rank(list: Seq<OutcomeView>, glob_filtered: bool)
    ensures
        ({
            let rows = reduced(list, None, glob_filtered).symbols;
            &&& forall|i: int|
                0 <= i < rows.len() ==> (#[trigger] rows[i]).changes == times_credited(
                    list,
                    rows[i].path,
                    rows[i].symbol,
                ) && rows[i].changes > 0
            &&& forall|c: int, h: int|
                0 <= c < list.len() && 0 <= h < list[c].symbols.len() ==> exists|i: int|
                    0 <= i < rows.len() && (#[trigger] rows[i]).path == (
                    #[trigger] list[c].symbols[h]).path && rows[i].symbol
                        == list[c].symbols[h].name
            &&& forall|i: int, j: int|
                0 <= i < j < rows.len() ==> {
                    ||| (#[trigger] rows[i]).changes > (#[trigger] rows[j]).changes
                    ||| rows[i].changes == rows[j].changes && stands_before(
                        rows[i].path,
                        rows[j].path,
                    )
                    ||| rows[i].changes == rows[j].changes && rows[i].path == rows[j].path
                        && stands_before(rows[i].symbol, rows[j].symbol)
                }
        }),
{
    let all = all_sightings(list);
    let rows = reduced(list, None, glob_filtered).symbols;
    symbols_are_ranked(list);
    assert(rows == reduced(list, None, false).symbols);
    assert forall|i: int| 0 <= i < rows.len() implies (#[trigger] rows[i]).changes
        == times_credited(list, rows[i].path, rows[i].symbol) && rows[i].changes > 0 by {
        assert(rows.contains(rows[i]));
        let key = (rows[i].path, rows[i].symbol);
        credits_add_up(list, key.0, key.1);
        let k = keys(all).index_of(key);
        assert(all.contains(all[k]));
        of_key_members(all, key, all[k]);
    }
    assert forall|c: int, h: int|
        0 <= c < list.len() && 0 <= h < list[c].symbols.len() implies exists|i: int|
        0 <= i < rows.len() && (#[trigger] rows[i]).path == (#[trigger] list[c].symbols[h]).path
            && rows[i].symbol == list[c].symbols[h].name by {
        let k = sighting_place(list, c, h);
        let key = (list[c].symbols[h].path, list[c].symbols[h].name);
        assert(keys(all)[k] == key);
        let row = symbol_stat(all, key);
        assert(keys(all).contains((row.path, row.symbol)));
        assert(rows.contains(row));
        assert(rows[rows.index_of(row)].path == key.0);
    }
    assert forall|i: int, j: int| 0 <= i < j < rows.len() implies {
        ||| (#[trigger] rows[i]).changes > (#[trigger] rows[j]).changes
        ||| rows[i].changes == rows[j].changes && stands_before(rows[i].path, rows[j].path)
        ||| rows[i].changes == rows[j].changes && rows[i].path == rows[j].path && stands_before(
            rows[i].symbol,
            rows[j].symbol,
        )
    } by {
        assert(symbol_leq(rows[i], rows[j]));
        assert(rows.contains(rows[i]));
        assert(rows.contains(rows[j]));
        assert(rows[i] != rows[j]);
        text_less_total(rows[i].path, rows[j].path);
        text_less_total(rows[i].symbol, rows[j].symbol);
        text_less_first_difference(rows[i].path, rows[j].path);
        text_less_first_difference(rows[i].symbol, rows[j].symbol);
    }
}

proof fn credits_add_up(list: Seq<OutcomeView>, path: Seq<char>, name: Seq<char>)
    ensures
        of_key(all_sightings(list), (path, name)).len() == times_credited(list, path, name),
    decreases list.len(),
{
    if list.len() > 0 {
        let last = list.last();
        let n = last.symbols.len() as int;
        credits_add_up(list.drop_last(), path, name);
        of_key_add(all_sightings(list.drop_last()), sightings_in(last), (path, name));
        hits_filter(last, n, path, name);
        assert(sightings_in(last).take(n) =~= sightings_in(last));
        assert(last.symbols.take(n) =~= last.symbols);
    }
}

proof fn hits_filter(outcome: OutcomeView, n: int, path: Seq<char>, name: Seq<char>)
    requires
        0 <= n <= outcome.symbols.len(),
    ensures
        of_key(sightings_in(outcome).take(n), (path, name)).len() == outcome.symbols.take(
            n,
        ).filter(|h: HitView| h.path == path && h.name == name).len(),
    decreases n,
{
    reveal(Seq::filter);
    if n > 0 {
        hits_filter(outcome, n - 1, path, name);
        assert(sightings_in(outcome).take(n).drop_last() =~= sightings_in(outcome).take(n - 1));
        assert(outcome.symbols.take(n).drop_last() =~= outcome.symbols.take(n - 1));
        assert(sightings_in(outcome).take(n).last().hit == outcome.symbols.take(n).last());
    }
}

proof fn sighting_place(list: Seq<OutcomeView>, c: int, h: int) -> (k: int)
    requires
        0 <= c < list.len(),
        0 <= h < list[c].symbols.len(),
    ensures
        0 <= k < all_sightings(list).len(),
        all_sightings(list)[k] == sightings_in(list[c])[h],
    decreases list.len(),
{
    let rest = list.drop_last();
    if c < rest.len() {
        assert(rest[c] == list[c]);
        sighting_place(rest, c, h)
    } else {
        all_sightings(rest).len() + h
    }
}

/// A row of the function leaderboard has the lines and the depth of the function as of
/// the most recent commit that credits it: no other one has a later time, or the same
/// time at an earlier place of the walk.
pub proof fn latest_lines_are_shown(
    list: Seq<OutcomeView>,
    top: Option<usize>,
    glob_filtered: bool,
    i: int,
)
    requires
        0 <= i < reduced(list, top, glob_filtered).symbols.len(),
    ensures
        ({
            let row = reduced(list, top, glob_filtered).symbols[i];
            exists|c: int, h: int|
                0 <= c < list.len() && 0 <= h < list[c].symbols.len() && (
                #[trigger] list[c].symbols[h]).path == row.path && list[c].symbols[h].name
                    == row.symbol && placed_like(row, list[c].symbols[h]) && forall|d: int, g: int|
                    0 <= d < list.len() && 0 <= g < list[d].symbols.len() && (
                    #[trigger] list[d].symbols[g]).path == row.path && list[d].symbols[g].name
                        == row.symbol ==> list[d].time < list[c].time || list[d].time
                        == list[c].time && list[c].seq <= list[d].seq
        }),
{
    let rows = reduced(list, None, glob_filtered).symbols;
    let row = reduced(list, top, glob_filtered).symbols[i];
    let all = all_sightings(list);
    let key = (row.path, row.symbol);
    symbols_are_ranked(list);
    assert(rows == reduced(list, None, false).symbols);
    assert(rows[i] == row);
    assert(rows.contains(row));
    let own = of_key(all, key);
    let k = keys(all).index_of(key);
    assert(all.contains(all[k]));
    of_key_members(all, key, all[k]);
    newest_is_latest(own);
    let latest = newest(own);
    of_key_members(all, key, latest);
    let (c, h) = sighting_origin(list, all.index_of(latest));
    assert(list[c].symbols[h] == latest.hit);
    assert forall|d: int, g: int|
        0 <= d < list.len() && 0 <= g < list[d].symbols.len() && (
        #[trigger] list[d].symbols[g]).path == row.path && list[d].symbols[g].name
            == row.symbol implies list[d].time < list[c].time || list[d].time == list[c].time
        && list[c].seq <= list[d].seq by {
        let p = sighting_place(list, d, g);
        assert(all.contains(all[p]));
        of_key_members(all, key, all[p]);
        assert(own[own.index_of(all[p])] == all[p]);
        assert(!all[p].more_recent(latest));
    }
    assert(list[c].symbols[h].path == row.path);
}

/// What a result says of its commits: how many there are, the earliest and the latest of
/// their times, and whether a filter was applied.
pub proof fn commits_are_summed_up(
    list: Seq<OutcomeView>,
    top: Option<usize>,
    glob_filtered: bool,
)
    ensures
        ({
            let result = reduced(list, top, glob_filtered);
            &&& result.commit_count == list.len()
            &&& result.glob_filtered == glob_filtered
            &&& result.period is None <==> list.len() == 0
            &&& result.period matches Some((from, to)) ==> {
                &&& forall|c: int| 0 <= c < list.len() ==> from <= (#[trigger] list[c]).time <= to
                &&& exists|c: int| 0 <= c < list.len() && (#[trigger] list[c]).time == from
                &&& exists|c: int| 0 <= c < list.len() && (#[trigger] list[c]).time == to
            }
        }),
{
    period_spans_commits(list);
}

/// The files that failed to parse are those that some commit lists as such, each once,
/// every one of them before those that its path stands before.
pub proof fn failures_are_summed_up(
    list: Seq<OutcomeView>,
    top: Option<usize>,
    glob_filtered: bool,
)
    ensures
        ({
            let paths = reduced(list, top, glob_filtered).parse_failures;
            &&& forall|i: int, j: int|
                0 <= i < j < paths.len() ==> stands_before(#[trigger] paths[i], #[trigger] paths[j])
            &&& forall|i: int|
                0 <= i < paths.len() ==> exists|c: int|
                    0 <= c < list.len() && (#[trigger] list[c]).parse_failures.contains(
                        #[trigger] paths[i],
                    )
            &&& forall|c: int, f: int|
                0 <= c < list.len() && 0 <= f < list[c].parse_failures.len() ==> paths.contains(
                    #[trigger] list[c].parse_failures[f],
                )
        }),
{
    let paths = reduced(list, top, glob_filtered).parse_failures;
    failures_are_listed_once(list, top, glob_filtered);
    assert forall|i: int, j: int| 0 <= i < j < paths.len() implies stands_before(
        #[trigger] paths[i],
        #[trigger] paths[j],
    ) by {
        assert(text_less(paths[i], paths[j]));
        text_less_first_difference(paths[i], paths[j]);
    }
    assert forall|i: int| 0 <= i < paths.len() implies exists|c: int|
        0 <= c < list.len() && (#[trigger] list[c]).parse_failures.contains(
            #[trigger] paths[i],
        ) by {
        assert(paths.contains(paths[i]));
        let c = failure_origin(list, all_failures(list).index_of(paths[i]));
        assert(list[c].parse_failures.contains(paths[i]));
    }
    assert forall|c: int, f: int|
        0 <= c < list.len() && 0 <= f < list[c].parse_failures.len() implies paths.contains(
        #[trigger] list[c].parse_failures[f],
    ) by {
        failure_listed(list, c, f);
    }
}

proof fn failure_origin(list: Seq<OutcomeView>, k: int) -> (c: int)
    requires
        0 <= k < all_failures(list).len(),
    ensures
        0 <= c < list.len(),
        list[c].parse_failures.contains(all_failures(list)[k]),
    decreases list.len(),
{
    let rest = list.drop_last();
    let before = all_failures(rest);
    if k < before.len() {
        let c = failure_origin(rest, k);
        assert(rest[c] == list[c]);
        c
    } else {
        assert(list.last().parse_failures[k - before.len()] == all_failures(list)[k]);
        list.len() - 1
    }
}

proof fn failure_listed(list: Seq<OutcomeView>, c: int, f: int)
    requires
        0 <= c < list.len(),
        0 <= f < list[c].parse_failures.len(),
    ensures
        all_failures(list).contains(list[c].parse_failures[f]),
    decreases list.len(),
{
    let rest = list.drop_last();
    let before = all_failures(rest);
    let path = list[c].parse_failures[f];
    if c < rest.len() {
        assert(rest[c] == list[c]);
        failure_listed(rest, c, f);
        assert(all_failures(list)[before.index_of(path)] == path);
    } else {
        assert(all_failures(list)[before.len() + f] == path);
    }
}

/// The commits behind a result are those that were not skipped, in their order.
pub proof fn skipped_commits_count_nothing(outcomes: Seq<Option<OutcomeView>>)
    ensures
        present(outcomes) == outcomes.filter(
            |outcome: Option<OutcomeView>| outcome is Some,
        ).map_values(|outcome: Option<OutcomeView>| outcome->0),
    decreases outcomes.len(),
{
    reveal(Seq::filter);
    let there = |outcome: Option<OutcomeView>| outcome is Some;
    let inside = |outcome: Option<OutcomeView>| outcome->0;
    if outcomes.len() > 0 {
        let rest = outcomes.drop_last();
        skipped_commits_count_nothing(rest);
        if outcomes.last() is Some {
            assert(rest.filter(there).push(outcomes.last()).map_values(inside) =~= rest.filter(
                there,
            ).map_values(inside).push(outcomes.last()->0));
        }
    } else {
        assert(outcomes.filter(there).map_values(inside) =~= present(outcomes));
    }
}

/// An analysis counts the commits that were not skipped, shows as many rows as the options
/// ask for, and reports a filter where the options have globs.
pub proof fn analyses_follow_their_options(
    config: ConfigView,
    outcomes: Seq<Option<OutcomeView>>,
)
    ensures
        ({
            let result = analysis(config, outcomes);
            let list = outcomes.filter(|outcome: Option<OutcomeView>| outcome is Some).map_values(
                |outcome: Option<OutcomeView>| outcome->0,
            );
            let all = reduced(list, None, false);
            &&& result.commit_count == list.len()
            &&& result.glob_filtered <==> config.globs is Some || config.exclude is Some
            &&& config.top is None ==> result.files == all.files && result.symbols == all.symbols
            &&& config.top matches Some(n) ==> {
                &&& result.files.len() == if n < all.files.len() {
                    n as nat
                } else {
                    all.files.len()
                }
                &&& result.symbols.len() == if n < all.symbols.len() {
                    n as nat
                } else {
                    all.symbols.len()
                }
            }
            &&& forall|i: int|
                0 <= i < result.files.len() ==> #[trigger] result.files[i] == all.files[i]
            &&& forall|i: int|
                0 <= i < result.symbols.len() ==> #[trigger] result.symbols[i] == all.symbols[i]
            &&& result.total_files == all.total_files
            &&& result.parse_failures == all.parse_failures
            &&& result.period == all.period
        }),
{
    skipped_commits_count_nothing(outcomes);
}

/// Ranking keeps every row as it is, and puts those with more changes first, and of those
/// with as many the one whose path stands before.
pub proof fn ranked_files_stand_in_order(stats: Seq<FileStatView>)
    ensures
        ({
            let rows = stats.sort_by(FileStat::order());
            &&& rows.len() == stats.len()
            &&& forall|row: FileStatView| #[trigger] rows.contains(row) <==> stats.contains(row)
            &&& forall|i: int, j: int|
                0 <= i < j < rows.len() ==> {
                    ||| (#[trigger] rows[i]).changes > (#[trigger] rows[j]).changes
                    ||| rows[i].changes == rows[j].changes && (rows[i].path == rows[j].path
                        || stands_before(rows[i].path, rows[j].path))
                }
        }),
{
    let rows = stats.sort_by(FileStat::order());
    FileStat::ordered();
    stats.lemma_sort_by_ensures(FileStat::order());
    stats.to_multiset_ensures();
    rows.to_multiset_ensures();
    assert forall|row: FileStatView| #[trigger] rows.contains(row) <==> stats.contains(row) by {
        same_elements(rows, stats, row);
    }
    assert forall|i: int, j: int| 0 <= i < j < rows.len() implies {
        ||| (#[trigger] rows[i]).changes > (#[trigger] rows[j]).changes
        ||| rows[i].changes == rows[j].changes && (rows[i].path == rows[j].path || stands_before(
            rows[i].path,
            rows[j].path,
        ))
    } by {
        assert(FileStat::order()(rows[i], rows[j]));
        text_less_total(rows[i].path, rows[j].path);
        text_less_first_difference(rows[i].path, rows[j].path);
    }
}

/// The same of the rows of functions, by path and then by name.
pub proof fn ranked_symbols_stand_in_order(stats: Seq<SymbolStatView>)
    ensures
        ({
            let rows = stats.sort_by(SymbolStat::order());
            &&& rows.len() == stats.len()
            &&& forall|row: SymbolStatView| #[trigger] rows.contains(row) <==> stats.contains(row)
            &&& forall|i: int, j: int|
                0 <= i < j < rows.len() ==> {
                    ||| (#[trigger] rows[i]).changes > (#[trigger] rows[j]).changes
                    ||| rows[i].changes == rows[j].changes && stands_before(
                        rows[i].path,
                        rows[j].path,
                    )
                    ||| rows[i].changes == rows[j].changes && rows[i].path == rows[j].path && (
                    rows[i].symbol == rows[j].symbol || stands_before(
                        rows[i].symbol,
                        rows[j].symbol,
                    ))
                }
        }),
{
    let rows = stats.sort_by(SymbolStat::order());
    SymbolStat::ordered();
    stats.lemma_sort_by_ensures(SymbolStat::order());
    stats.to_multiset_ensures();
    rows.to_multiset_ensures();
    assert forall|row: SymbolStatView| #[trigger] rows.contains(row) <==> stats.contains(row) by {
        same_elements(rows, stats, row);
    }
    assert forall|i: int, j: int| 0 <= i < j < rows.len() implies {
        ||| (#[trigger] rows[i]).changes > (#[trigger] rows[j]).changes
        ||| rows[i].changes == rows[j].changes && stands_before(rows[i].path, rows[j].path)
        ||| rows[i].changes == rows[j].changes && rows[i].path == rows[j].path && (
        rows[i].symbol == rows[j].symbol || stands_before(rows[i].symbol, rows[j].symbol))
    } by {
        assert(SymbolStat::order()(rows[i], rows[j]));
        text_less_total(rows[i].path, rows[j].path);
        text_less_total(rows[i].symbol, rows[j].symbol);
        text_less_first_difference(rows[i].path, rows[j].path);
        text_less_first_difference(rows[i].symbol, rows[j].symbol);
    }
}

} // verus!
