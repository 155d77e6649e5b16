//! What holds of every analysis.
use vstd::multiset::Multiset;
use vstd::prelude::*;
use vstd::relations::total_ordering;
use vstd::seq_lib::lemma_sorted_unique;

use super::attribution::credited_once;
use super::commit::{
    ChangeView, ConfigView, ReadView, all_dug_hits, analysis, analyzable, commit_reads, contribute,
    contributed_before, contributes, contribution, dug_hits, hits_at, included, reads_as, wanted,
};
use super::reduce::{
    Sighting, all_failures, all_files, all_sightings, file_leq, file_stats, keys, newest, of_key,
    period, present, reduced, sightings_in, symbol_leq, symbol_stat, symbol_stats, truncated,
};
use super::{FileStat, FileStatView, OutcomeView, SymbolStat, SymbolStatView};
use crate::analyzer::registry::RegistryView;
use crate::analyzer::{LanguageAnalyzer, settled};
use crate::git_history::{DiffLine, added_by_path, added_paths};
use crate::lists::{
    contains_after_push, distinct, distinct_keeps_each_once, occurrences, occurrences_add,
    occurrences_count,
};
use crate::sorting::Ordered;
use crate::text::{text_less, text_less_irreflexive, text_less_total};

verus! {

/// Whether a commit credits each function at most once.
pub open spec fn credits_once(outcome: OutcomeView) -> bool {
    forall|i: int, j: int|
        0 <= i < j < outcome.symbols.len() ==> (
            (#[trigger] outcome.symbols[i]).path,
            outcome.symbols[i].name,
        ) != ((#[trigger] outcome.symbols[j]).path, outcome.symbols[j].name)
}

/// Whether commits stand at different places of the walk.
pub open spec fn different_places(list: Seq<OutcomeView>) -> bool {
    forall|i: int, j: int|
        0 <= i < j < list.len() ==> (#[trigger] list[i]).seq != (#[trigger] list[j]).seq
}

/// How many commits list a path among their changed files.
pub open spec fn commits_changing(list: Seq<OutcomeView>, path: Seq<char>) -> nat
    decreases list.len(),
{
    if list.len() == 0 {
        0
    } else {
        commits_changing(list.drop_last(), path) + if list.last().files.contains(path) {
            1nat
        } else {
            0
        }
    }
}

/// Whether a commit credits a function.
pub open spec fn credits(outcome: OutcomeView, key: (Seq<char>, Seq<char>)) -> bool {
    exists|i: int|
        0 <= i < outcome.symbols.len() && (
            (#[trigger] outcome.symbols[i]).path,
            outcome.symbols[i].name,
        ) == key
}

/// How many commits credit a function.
pub open spec fn commits_crediting(list: Seq<OutcomeView>, key: (Seq<char>, Seq<char>)) -> nat
    decreases list.len(),
{
    if list.len() == 0 {
        0
    } else {
        commits_crediting(list.drop_last(), key) + if credits(list.last(), key) {
            1nat
        } else {
            0
        }
    }
}

proof fn occurs_once<T>(items: Seq<T>, item: T)
    requires
        items.no_duplicates(),
    ensures
        occurrences(items, item) == if items.contains(item) {
            1nat
        } else {
            0
        },
    decreases items.len(),
{
    if items.len() > 0 {
        let rest = items.drop_last();
        assert(rest.no_duplicates());
        occurs_once(rest, item);
        assert(rest.push(items.last()) =~= items);
        contains_after_push(rest, items.last(), item);
        if rest.contains(items.last()) {
            let i = rest.index_of(items.last());
            assert(items[i] == items[items.len() - 1]);
        }
    }
}

/// The file leaderboard counts commits: where no commit lists a path twice, the
/// count of a path is the number of commits that changed it.
pub proof fn file_changes_count_commits(list: Seq<OutcomeView>, path: Seq<char>)
    requires
        forall|i: int| 0 <= i < list.len() ==> (#[trigger] list[i]).files.no_duplicates(),
    ensures
        occurrences(all_files(list), path) == commits_changing(list, path),
    decreases list.len(),
{
    if list.len() > 0 {
        let rest = list.drop_last();
        assert forall|i: int| 0 <= i < rest.len() implies (
        #[trigger] rest[i]).files.no_duplicates() by {
            assert(rest[i] == list[i]);
        }
        file_changes_count_commits(rest, path);
        assert(list.last() == list[list.len() - 1]);
        occurrences_add(all_files(rest), list.last().files, path);
        occurs_once(list.last().files, path);
    }
}

pub(crate) proof fn of_key_add(a: Seq<Sighting>, b: Seq<Sighting>, key: (Seq<char>, Seq<char>))
    ensures
        of_key(a + b, key) == of_key(a, key) + of_key(b, key),
    decreases b.len(),
{
    if b.len() > 0 {
        of_key_add(a, b.drop_last(), key);
        assert((a + b).drop_last() =~= a + b.drop_last());
        assert(of_key(a + b, key) =~= of_key(a, key) + of_key(b, key));
    } else {
        assert(a + b =~= a);
        assert(of_key(a, key) =~= of_key(a, key) + of_key(b, key));
    }
}

/// The function leaderboard counts commits: where no commit credits a function
/// twice, the count of a function is the number of commits that credit it.
pub proof fn symbol_changes_count_commits(
    list: Seq<OutcomeView>,
    key: (Seq<char>, Seq<char>),
)
    requires
        forall|i: int| 0 <= i < list.len() ==> credits_once(#[trigger] list[i]),
    ensures
        symbol_stat(all_sightings(list), key).changes == commits_crediting(list, key),
    decreases list.len(),
{
    if list.len() > 0 {
        let rest = list.drop_last();
        assert forall|i: int| 0 <= i < rest.len() implies credits_once(#[trigger] rest[i]) by {
            assert(rest[i] == list[i]);
        }
        symbol_changes_count_commits(rest, key);
        assert(credits_once(list[list.len() - 1]));
        of_key_add(all_sightings(rest), sightings_in(list.last()), key);
        credited_at_most_once(list.last(), list.last().symbols.len() as int, key);
        assert(sightings_in(list.last()).take(list.last().symbols.len() as int) =~= sightings_in(
            list.last(),
        ));
    }
}

proof fn credited_at_most_once(outcome: OutcomeView, n: int, key: (Seq<char>, Seq<char>))
    requires
        credits_once(outcome),
        0 <= n <= outcome.symbols.len(),
    ensures
        of_key(sightings_in(outcome).take(n), key).len() == if exists|i: int|
            0 <= i < n && (
                (#[trigger] outcome.symbols[i]).path,
                outcome.symbols[i].name,
            ) == key {
            1nat
        } else {
            0
        },
    decreases n,
{
    let all = sightings_in(outcome);
    if n > 0 {
        credited_at_most_once(outcome, n - 1, key);
        assert(all.take(n).drop_last() =~= all.take(n - 1));
        let last = outcome.symbols[n - 1];
        assert(all.take(n).last().hit == last);
        if (last.path, last.name) == key {
            assert forall|i: int| 0 <= i < n - 1 implies (
                (#[trigger] outcome.symbols[i]).path,
                outcome.symbols[i].name,
            ) != key by {
                let hit = outcome.symbols[i];
                assert((hit.path, hit.name) != (last.path, last.name));
            }
        }
    }
}

/// What [`newest`] gives is one of the sightings, and none of them is from a more
/// recent commit.
pub proof fn newest_is_latest(all: Seq<Sighting>)
    requires
        all.len() > 0,
    ensures
        all.contains(newest(all)),
        forall|i: int| 0 <= i < all.len() ==> !(#[trigger] all[i]).more_recent(newest(all)),
    decreases all.len(),
{
    if all.len() > 1 {
        let rest = all.drop_last();
        newest_is_latest(rest);
        let k = rest.index_of(newest(rest));
        assert(all[k] == newest(rest));
        assert(all[all.len() - 1] == all.last());
        assert forall|i: int| 0 <= i < all.len() implies !(#[trigger] all[i]).more_recent(
            newest(all),
        ) by {
            if i < rest.len() {
                assert(rest[i] == all[i]);
                assert(!rest[i].more_recent(newest(rest)));
            }
        }
    } else {
        assert(all[0] == newest(all));
    }
}

/// The period runs from the earliest to the latest commit: every time lies in it,
/// and both its ends are times of commits. It is missing where there is no commit.
pub proof fn period_spans_commits(list: Seq<OutcomeView>)
    ensures
        match period(list) {
            Some((from, to)) => {
                &&& forall|i: int| 0 <= i < list.len() ==> from <= (#[trigger] list[i]).time <= to
                &&& exists|i: int| 0 <= i < list.len() && (#[trigger] list[i]).time == from
                &&& exists|i: int| 0 <= i < list.len() && (#[trigger] list[i]).time == to
            },
            None => list.len() == 0,
        },
    decreases list.len(),
{
    if list.len() > 0 {
        let rest = list.drop_last();
        period_spans_commits(rest);
        assert(list[list.len() - 1] == list.last());
        assert forall|i: int| 0 <= i < rest.len() implies #[trigger] list[i] == rest[i] by {}
        match period(rest) {
            Some((from, to)) => {
                let i = choose|i: int| 0 <= i < rest.len() && (#[trigger] rest[i]).time == from;
                let j = choose|j: int| 0 <= j < rest.len() && (#[trigger] rest[j]).time == to;
                assert(list[i].time == from);
                assert(list[j].time == to);
            },
            None => {},
        }
    }
}

/// Cutting the leaderboards short changes nothing else: the counts, the period and
/// the parse failures stay, and the rows that are shown are the first of all.
pub proof fn truncation_only_hides_rows(
    list: Seq<OutcomeView>,
    top: Option<usize>,
    glob_filtered: bool,
)
    ensures
        ({
            let all = reduced(list, None, glob_filtered);
            let cut = reduced(list, top, glob_filtered);
            &&& cut.commit_count == all.commit_count
            &&& cut.period == all.period
            &&& cut.total_files == all.total_files
            &&& cut.parse_failures == all.parse_failures
            &&& cut.files == truncated(all.files, top)
            &&& cut.symbols == truncated(all.symbols, top)
            &&& all.files.len() == all.total_files
        }),
{
    let stats = file_stats(all_files(list));
    FileStat::ordered();
    stats.lemma_sort_by_ensures(FileStat::order());
    stats.to_multiset_ensures();
    stats.sort_by(FileStat::order()).to_multiset_ensures();
}

/// The file leaderboard is ranked by changes, and ties by path. It has one row for
/// each changed file, with the number of its changes.
pub proof fn files_are_ranked(list: Seq<OutcomeView>)
    ensures
        ({
            let rows = reduced(list, None, false).files;
            &&& forall|i: int, j: int|
                0 <= i < j < rows.len() ==> file_leq(#[trigger] rows[i], #[trigger] rows[j])
            &&& forall|row: FileStatView| #[trigger]
                rows.contains(row) <==> all_files(list).contains(row.path) && row.changes
                    == occurrences(all_files(list), row.path)
            &&& rows.no_duplicates()
        }),
{
    let paths = all_files(list);
    let stats = file_stats(paths);
    let rows = stats.sort_by(FileStat::order());
    let leq = FileStat::order();
    FileStat::ordered();
    stats.lemma_sort_by_ensures(leq);
    distinct_keeps_each_once(paths);
    assert forall|i: int, j: int| 0 <= i < j < rows.len() implies file_leq(
        #[trigger] rows[i],
        #[trigger] rows[j],
    ) by {
        assert(leq(rows[i], rows[j]));
    }
    assert forall|row: FileStatView| #[trigger] rows.contains(row) <==> paths.contains(row.path)
        && row.changes == occurrences(paths, row.path) by {
        same_elements(stats, rows, row);
        if stats.contains(row) {
            let i = stats.index_of(row);
            assert(distinct(paths)[i] == row.path);
            assert(distinct(paths).contains(row.path));
        }
        if paths.contains(row.path) && row.changes == occurrences(paths, row.path) {
            assert(distinct(paths).contains(row.path));
            let i = distinct(paths).index_of(row.path);
            assert(stats[i] == row);
        }
    }
    assert forall|i: int, j: int| 0 <= i < stats.len() && 0 <= j < stats.len() && i
        != j implies stats[i] != stats[j] by {
        assert(distinct(paths)[i] != distinct(paths)[j]);
    }
    no_duplicates_kept(stats, rows);
}

/// The function leaderboard is ranked by changes, and ties by path and name. It
/// has one row for each credited function.
pub proof fn symbols_are_ranked(list: Seq<OutcomeView>)
    ensures
        ({
            let all = all_sightings(list);
            let rows = reduced(list, None, false).symbols;
            &&& forall|i: int, j: int|
                0 <= i < j < rows.len() ==> symbol_leq(#[trigger] rows[i], #[trigger] rows[j])
            &&& forall|row: SymbolStatView| #[trigger]
                rows.contains(row) <==> keys(all).contains((row.path, row.symbol)) && row
                    == symbol_stat(all, (row.path, row.symbol))
            &&& rows.no_duplicates()
        }),
{
    let all = all_sightings(list);
    let stats = symbol_stats(all);
    let rows = stats.sort_by(SymbolStat::order());
    let leq = SymbolStat::order();
    SymbolStat::ordered();
    stats.lemma_sort_by_ensures(leq);
    distinct_keeps_each_once(keys(all));
    assert forall|i: int, j: int| 0 <= i < j < rows.len() implies symbol_leq(
        #[trigger] rows[i],
        #[trigger] rows[j],
    ) by {
        assert(leq(rows[i], rows[j]));
    }
    assert forall|row: SymbolStatView| #[trigger] rows.contains(row) <==> keys(all).contains(
        (row.path, row.symbol),
    ) && row == symbol_stat(all, (row.path, row.symbol)) by {
        same_elements(stats, rows, row);
        let key = (row.path, row.symbol);
        if stats.contains(row) {
            let i = stats.index_of(row);
            assert(distinct(keys(all))[i] == key);
            assert(distinct(keys(all)).contains(key));
        }
        if keys(all).contains(key) && row == symbol_stat(all, key) {
            assert(distinct(keys(all)).contains(key));
            let i = distinct(keys(all)).index_of(key);
            assert(stats[i] == row);
        }
    }
    assert forall|i: int, j: int| 0 <= i < stats.len() && 0 <= j < stats.len() && i
        != j implies stats[i] != stats[j] by {
        assert(distinct(keys(all))[i] != distinct(keys(all))[j]);
    }
    no_duplicates_kept(stats, rows);
}

/// The files that failed to parse are listed in order, each once, and no other file
/// is listed.
pub proof fn failures_are_listed_once(
    list: Seq<OutcomeView>,
    top: Option<usize>,
    glob_filtered: bool,
)
    ensures
        ({
            let paths = reduced(list, top, glob_filtered).parse_failures;
            &&& forall|i: int, j: int|
                0 <= i < j < paths.len() ==> text_less(#[trigger] paths[i], #[trigger] paths[j])
            &&& forall|path: Seq<char>| #[trigger]
                paths.contains(path) <==> all_failures(list).contains(path)
        }),
{
    let once = distinct(all_failures(list));
    let leq = String::order();
    let paths = once.sort_by(leq);
    String::ordered();
    once.lemma_sort_by_ensures(leq);
    distinct_keeps_each_once(all_failures(list));
    no_duplicates_kept(once, paths);
    assert forall|i: int, j: int| 0 <= i < j < paths.len() implies text_less(
        #[trigger] paths[i],
        #[trigger] paths[j],
    ) by {
        assert(leq(paths[i], paths[j]));
        text_less_total(paths[i], paths[j]);
    }
    assert forall|path: Seq<char>| #[trigger] paths.contains(path) <==> all_failures(
        list,
    ).contains(path) by {
        same_elements(once, paths, path);
        assert(once.contains(path) <==> all_failures(list).contains(path));
    }
}

pub(crate) proof fn same_elements<T>(a: Seq<T>, b: Seq<T>, x: T)
    requires
        a.to_multiset() == b.to_multiset(),
    ensures
        a.contains(x) <==> b.contains(x),
{
    a.to_multiset_ensures();
    b.to_multiset_ensures();
    assert(a.contains(x) <==> a.to_multiset().count(x) > 0);
    assert(b.contains(x) <==> b.to_multiset().count(x) > 0);
}

pub(crate) proof fn no_duplicates_kept<T>(a: Seq<T>, b: Seq<T>)
    requires
        a.no_duplicates(),
        a.to_multiset() == b.to_multiset(),
    ensures
        b.no_duplicates(),
{
    a.lemma_multiset_has_no_duplicates();
    b.lemma_multiset_has_no_duplicates_conv();
}

/// Commits, and what some part of each gives, one after the other.
spec fn concat<T>(list: Seq<OutcomeView>, part: spec_fn(OutcomeView) -> Seq<T>) -> Seq<T>
    decreases list.len(),
{
    if list.len() == 0 {
        Seq::empty()
    } else {
        concat(list.drop_last(), part) + part(list.last())
    }
}

proof fn concat_parts(list: Seq<OutcomeView>)
    ensures
        all_files(list) == concat(list, |o: OutcomeView| o.files),
        all_failures(list) == concat(list, |o: OutcomeView| o.parse_failures),
        all_sightings(list) == concat(list, |o: OutcomeView| sightings_in(o)),
    decreases list.len(),
{
    if list.len() > 0 {
        concat_parts(list.drop_last());
    }
}

proof fn concat_without<T>(
    list: Seq<OutcomeView>,
    part: spec_fn(OutcomeView) -> Seq<T>,
    k: int,
)
    requires
        0 <= k < list.len(),
    ensures
        concat(list, part).to_multiset() == concat(list.remove(k), part).to_multiset().add(
            part(list[k]).to_multiset(),
        ),
    decreases list.len(),
{
    broadcast use vstd::multiset::group_multiset_axioms;

    let rest = list.drop_last();
    let last = part(list.last());
    vstd::seq_lib::lemma_multiset_commutative(concat(rest, part), last);
    if k == list.len() - 1 {
        assert(list.remove(k) =~= rest);
    } else {
        concat_without(rest, part, k);
        assert(list.remove(k).drop_last() =~= rest.remove(k));
        vstd::seq_lib::lemma_multiset_commutative(concat(rest.remove(k), part), last);
        let a = concat(rest.remove(k), part).to_multiset();
        let b = part(list[k]).to_multiset();
        let c = last.to_multiset();
        assert(a.add(b).add(c) =~= a.add(c).add(b));
    }
}

/// Where the last of `a` stands in `b`, and what is left without it.
proof fn matched<T>(a: Seq<T>, b: Seq<T>) -> (k: int)
    requires
        a.to_multiset() == b.to_multiset(),
        a.len() > 0,
    ensures
        0 <= k < b.len(),
        b[k] == a.last(),
        a.drop_last().to_multiset() == b.remove(k).to_multiset(),
{
    broadcast use vstd::multiset::group_multiset_axioms;

    a.to_multiset_ensures();
    b.to_multiset_ensures();
    a.drop_last().to_multiset_ensures();
    assert(a.drop_last().push(a.last()) =~= a);
    assert(a[a.len() - 1] == a.last());
    assert(a.contains(a.last()));
    same_elements(a, b, a.last());
    let k = b.index_of(a.last());
    assert(b.remove(k).to_multiset() =~= b.to_multiset().remove(b[k]));
    assert(a.drop_last().to_multiset() =~= a.to_multiset().remove(a.last()));
    k
}

proof fn concat_permuted<T>(
    a: Seq<OutcomeView>,
    b: Seq<OutcomeView>,
    part: spec_fn(OutcomeView) -> Seq<T>,
)
    requires
        a.to_multiset() == b.to_multiset(),
    ensures
        concat(a, part).to_multiset() == concat(b, part).to_multiset(),
    decreases a.len(),
{
    a.to_multiset_ensures();
    b.to_multiset_ensures();
    if a.len() > 0 {
        let k = matched(a, b);
        concat_permuted(a.drop_last(), b.remove(k), part);
        concat_without(b, part, k);
        vstd::seq_lib::lemma_multiset_commutative(concat(a.drop_last(), part), part(a.last()));
    }
}

proof fn map_permuted<T, U>(a: Seq<T>, b: Seq<T>, f: spec_fn(T) -> U)
    requires
        a.to_multiset() == b.to_multiset(),
    ensures
        a.map_values(f).to_multiset() == b.map_values(f).to_multiset(),
    decreases a.len(),
{
    broadcast use vstd::multiset::group_multiset_axioms;

    a.to_multiset_ensures();
    b.to_multiset_ensures();
    if a.len() > 0 {
        let k = matched(a, b);
        map_permuted(a.drop_last(), b.remove(k), f);
        let (fa, fb) = (a.map_values(f), b.map_values(f));
        assert(fa =~= a.drop_last().map_values(f).push(f(a.last())));
        assert(fb.remove(k) =~= b.remove(k).map_values(f));
        a.drop_last().map_values(f).to_multiset_ensures();
        fb.to_multiset_ensures();
        assert(fb.contains(fb[k]));
        assert(fb.to_multiset() =~= fb.remove(k).to_multiset().insert(fb[k]));
    } else {
        assert(a.map_values(f) =~= b.map_values(f));
    }
}

proof fn distinct_permuted<T>(a: Seq<T>, b: Seq<T>)
    requires
        a.to_multiset() == b.to_multiset(),
    ensures
        distinct(a).to_multiset() == distinct(b).to_multiset(),
        distinct(a).len() == distinct(b).len(),
{
    let (da, db) = (distinct(a), distinct(b));
    distinct_keeps_each_once(a);
    distinct_keeps_each_once(b);
    assert forall|x: T| da.to_multiset().count(x) == db.to_multiset().count(x) by {
        same_elements(a, b, x);
        occurs_once(da, x);
        occurs_once(db, x);
        occurrences_count(da, x);
        occurrences_count(db, x);
    }
    assert(da.to_multiset() =~= db.to_multiset());
    da.to_multiset_ensures();
    db.to_multiset_ensures();
}

proof fn sort_permuted<T>(a: Seq<T>, b: Seq<T>, leq: spec_fn(T, T) -> bool)
    requires
        a.to_multiset() == b.to_multiset(),
        total_ordering(leq),
    ensures
        a.sort_by(leq) == b.sort_by(leq),
{
    a.lemma_sort_by_ensures(leq);
    b.lemma_sort_by_ensures(leq);
    lemma_sorted_unique(a.sort_by(leq), b.sort_by(leq), leq);
}

proof fn of_key_filters(all: Seq<Sighting>, key: (Seq<char>, Seq<char>))
    ensures
        of_key(all, key).to_multiset() == all.to_multiset().filter(|s: Sighting| s.key() == key),
    decreases all.len(),
{
    broadcast use vstd::multiset::group_multiset_axioms;

    let own = |s: Sighting| s.key() == key;
    all.to_multiset_ensures();
    if all.len() > 0 {
        let rest = all.drop_last();
        of_key_filters(rest, key);
        rest.to_multiset_ensures();
        of_key(rest, key).to_multiset_ensures();
        assert(rest.push(all.last()) =~= all);
        assert(of_key(all, key).to_multiset() =~= all.to_multiset().filter(own));
    } else {
        assert(all.to_multiset() =~= Multiset::empty());
        of_key(all, key).to_multiset_ensures();
        assert(of_key(all, key).to_multiset() =~= Multiset::empty());
        assert(all.to_multiset().filter(own) =~= Multiset::empty());
    }
}

/// Each sighting was made in some commit.
pub(crate) proof fn sighting_origin(list: Seq<OutcomeView>, k: int) -> (origin: (int, int))
    requires
        0 <= k < all_sightings(list).len(),
    ensures
        0 <= origin.0 < list.len(),
        0 <= origin.1 < list[origin.0].symbols.len(),
        all_sightings(list)[k] == sightings_in(list[origin.0])[origin.1],
    decreases list.len(),
{
    let rest = list.drop_last();
    let before = all_sightings(rest);
    if k < before.len() {
        let (i, j) = sighting_origin(rest, k);
        assert(rest[i] == list[i]);
        (i, j)
    } else {
        (list.len() - 1, k - before.len())
    }
}

/// Two sightings of one function at one place of the walk are the same.
proof fn same_place_same_sighting(list: Seq<OutcomeView>, x: Sighting, y: Sighting)
    requires
        different_places(list),
        forall|i: int| 0 <= i < list.len() ==> credits_once(#[trigger] list[i]),
        all_sightings(list).contains(x),
        all_sightings(list).contains(y),
        x.key() == y.key(),
        x.seq == y.seq,
    ensures
        x == y,
{
    let all = all_sightings(list);
    let (i, j) = sighting_origin(list, all.index_of(x));
    let (k, l) = sighting_origin(list, all.index_of(y));
    assert(list[i].seq == list[k].seq);
    if i < k {
        assert(list[i].seq != list[k].seq);
    } else if k < i {
        assert(list[k].seq != list[i].seq);
    }
    assert(credits_once(list[i]));
    let hits = list[i].symbols;
    assert((hits[j].path, hits[j].name) == (hits[l].path, hits[l].name));
    if j < l {
        assert((hits[j].path, hits[j].name) != (hits[l].path, hits[l].name));
    } else if l < j {
        assert((hits[l].path, hits[l].name) != (hits[j].path, hits[j].name));
    }
}

pub(crate) proof fn of_key_members(all: Seq<Sighting>, key: (Seq<char>, Seq<char>), x: Sighting)
    ensures
        of_key(all, key).contains(x) <==> all.contains(x) && x.key() == key,
    decreases all.len(),
{
    if all.len() > 0 {
        let rest = all.drop_last();
        of_key_members(rest, key, x);
        assert(rest.push(all.last()) =~= all);
        contains_after_push(rest, all.last(), x);
        contains_after_push(of_key(rest, key), all.last(), x);
    }
}

/// The row of a function depends on the commits, not on their order.
proof fn symbol_stat_permuted(
    a: Seq<OutcomeView>,
    b: Seq<OutcomeView>,
    key: (Seq<char>, Seq<char>),
)
    requires
        a.to_multiset() == b.to_multiset(),
        different_places(a),
        forall|i: int| 0 <= i < a.len() ==> credits_once(#[trigger] a[i]),
        keys(all_sightings(a)).contains(key),
    ensures
        symbol_stat(all_sightings(a), key) == symbol_stat(all_sightings(b), key),
{
    let (sa, sb) = (all_sightings(a), all_sightings(b));
    let (oa, ob) = (of_key(sa, key), of_key(sb, key));
    concat_parts(a);
    concat_parts(b);
    concat_permuted(a, b, |o: OutcomeView| sightings_in(o));
    of_key_filters(sa, key);
    of_key_filters(sb, key);
    oa.to_multiset_ensures();
    ob.to_multiset_ensures();
    let k = keys(sa).index_of(key);
    assert(sa.contains(sa[k]));
    of_key_members(sa, key, sa[k]);
    newest_is_latest(oa);
    newest_is_latest(ob);
    let (x, y) = (newest(oa), newest(ob));
    same_elements(oa, ob, x);
    same_elements(oa, ob, y);
    assert(oa[oa.index_of(y)] == y);
    assert(ob[ob.index_of(x)] == x);
    assert(!y.more_recent(x));
    assert(!x.more_recent(y));
    of_key_members(sa, key, x);
    of_key_members(sa, key, y);
    same_place_same_sighting(a, x, y);
}

proof fn period_permuted(a: Seq<OutcomeView>, b: Seq<OutcomeView>)
    requires
        a.to_multiset() == b.to_multiset(),
    ensures
        period(a) == period(b),
{
    a.to_multiset_ensures();
    b.to_multiset_ensures();
    period_spans_commits(a);
    period_spans_commits(b);
    if a.len() > 0 {
        let (from_a, to_a) = period(a)->0;
        let (from_b, to_b) = period(b)->0;
        bound_shared(a, b, from_a, to_a);
        bound_shared(b, a, from_b, to_b);
    }
}

proof fn bound_shared(a: Seq<OutcomeView>, b: Seq<OutcomeView>, from: int, to: int)
    requires
        a.to_multiset() == b.to_multiset(),
        exists|i: int| 0 <= i < a.len() && (#[trigger] a[i]).time == from,
        exists|i: int| 0 <= i < a.len() && (#[trigger] a[i]).time == to,
    ensures
        exists|i: int| 0 <= i < b.len() && (#[trigger] b[i]).time == from,
        exists|i: int| 0 <= i < b.len() && (#[trigger] b[i]).time == to,
{
    let i = choose|i: int| 0 <= i < a.len() && (#[trigger] a[i]).time == from;
    let j = choose|j: int| 0 <= j < a.len() && (#[trigger] a[j]).time == to;
    assert(a.contains(a[i]));
    assert(a.contains(a[j]));
    same_elements(a, b, a[i]);
    same_elements(a, b, a[j]);
    assert(b[b.index_of(a[i])].time == from);
    assert(b[b.index_of(a[j])].time == to);
}

proof fn file_stats_permuted(a: Seq<Seq<char>>, b: Seq<Seq<char>>)
    requires
        a.to_multiset() == b.to_multiset(),
    ensures
        file_stats(a).to_multiset() == file_stats(b).to_multiset(),
{
    let f = |path: Seq<char>| FileStatView { path, changes: occurrences(a, path) as int };
    let g = |path: Seq<char>| FileStatView { path, changes: occurrences(b, path) as int };
    distinct_permuted(a, b);
    map_permuted(distinct(a), distinct(b), f);
    assert forall|i: int| 0 <= i < distinct(b).len() implies f(#[trigger] distinct(b)[i]) == g(
        distinct(b)[i],
    ) by {
        occurrences_count(a, distinct(b)[i]);
        occurrences_count(b, distinct(b)[i]);
    }
    assert(distinct(b).map_values(f) =~= file_stats(b));
    assert(distinct(a).map_values(f) =~= file_stats(a));
}

proof fn symbol_stats_permuted(a: Seq<OutcomeView>, b: Seq<OutcomeView>)
    requires
        a.to_multiset() == b.to_multiset(),
        different_places(a),
        forall|i: int| 0 <= i < a.len() ==> credits_once(#[trigger] a[i]),
    ensures
        symbol_stats(all_sightings(a)).to_multiset() == symbol_stats(
            all_sightings(b),
        ).to_multiset(),
{
    let (sa, sb) = (all_sightings(a), all_sightings(b));
    let (ka, kb) = (distinct(keys(sa)), distinct(keys(sb)));
    let f = |key: (Seq<char>, Seq<char>)| symbol_stat(sa, key);
    concat_parts(a);
    concat_parts(b);
    concat_permuted(a, b, |o: OutcomeView| sightings_in(o));
    map_permuted(sa, sb, |s: Sighting| s.key());
    distinct_permuted(keys(sa), keys(sb));
    map_permuted(ka, kb, f);
    distinct_keeps_each_once(keys(sa));
    distinct_keeps_each_once(keys(sb));
    assert forall|i: int| 0 <= i < kb.len() implies f(#[trigger] kb[i]) == symbol_stat(
        sb,
        kb[i],
    ) by {
        assert(kb.contains(kb[i]));
        same_elements(keys(sa), keys(sb), kb[i]);
        symbol_stat_permuted(a, b, kb[i]);
    }
    assert(kb.map_values(f) =~= symbol_stats(sb));
    assert(ka.map_values(f) =~= symbol_stats(sa));
}

/// The result depends on the commits, not on the order in which they are merged.
/// The commits stand at different places of the walk, and each credits a function
/// at most once.
pub proof fn merge_order_does_not_matter(
    a: Seq<OutcomeView>,
    b: Seq<OutcomeView>,
    top: Option<usize>,
    glob_filtered: bool,
)
    requires
        a.to_multiset() == b.to_multiset(),
        different_places(a),
        forall|i: int| 0 <= i < a.len() ==> credits_once(#[trigger] a[i]),
    ensures
        reduced(a, top, glob_filtered) == reduced(b, top, glob_filtered),
{
    a.to_multiset_ensures();
    b.to_multiset_ensures();
    concat_parts(a);
    concat_parts(b);
    concat_permuted(a, b, |o: OutcomeView| o.files);
    concat_permuted(a, b, |o: OutcomeView| o.parse_failures);
    period_permuted(a, b);
    distinct_permuted(all_files(a), all_files(b));
    distinct_permuted(all_failures(a), all_failures(b));
    file_stats_permuted(all_files(a), all_files(b));
    symbol_stats_permuted(a, b);
    String::ordered();
    FileStat::ordered();
    SymbolStat::ordered();
    sort_permuted(distinct(all_failures(a)), distinct(all_failures(b)), String::order());
    sort_permuted(file_stats(all_files(a)), file_stats(all_files(b)), FileStat::order());
    sort_permuted(
        symbol_stats(all_sightings(a)),
        symbol_stats(all_sightings(b)),
        SymbolStat::order(),
    );
}

/// Whether a commit is dug into each file once.
pub open spec fn dug_once(commit: ChangeView) -> bool {
    forall|i: int, j: int|
        0 <= i < j < commit.dug.len() ==> (#[trigger] commit.dug[i]).path != (
        #[trigger] commit.dug[j]).path
}

/// Hits of different files, each with different names, are of different functions.
proof fn dug_hits_differ(config: ConfigView, files: Seq<ReadView>)
    requires
        forall|i: int, j: int|
            0 <= i < j < files.len() ==> (#[trigger] files[i]).path != (#[trigger] files[j]).path,
    ensures
        ({
            let hits = all_dug_hits(config, files).symbols;
            &&& forall|k: int|
                0 <= k < hits.len() ==> exists|i: int|
                    0 <= i < files.len() && (#[trigger] files[i]).path == (#[trigger] hits[k]).path
            &&& forall|k: int, l: int|
                0 <= k < l < hits.len() ==> ((#[trigger] hits[k]).path, hits[k].name) != (
                    (#[trigger] hits[l]).path,
                    hits[l].name,
                )
        }),
    decreases files.len(),
{
    if files.len() > 0 {
        let rest = files.drop_last();
        let file = files.last();
        assert(file == files[files.len() - 1]);
        assert forall|i: int, j: int| 0 <= i < j < rest.len() implies (#[trigger] rest[i]).path != (
        #[trigger] rest[j]).path by {
            assert(rest[i] == files[i] && rest[j] == files[j]);
        }
        dug_hits_differ(config, rest);
        let before = all_dug_hits(config, rest).symbols;
        let more = dug_hits(config, file).symbols;
        let hits = all_dug_hits(config, files).symbols;
        file_hits_differ(config, file);
        assert forall|k: int| 0 <= k < hits.len() implies exists|i: int|
            0 <= i < files.len() && (#[trigger] files[i]).path == (#[trigger] hits[k]).path by {
            if k < before.len() {
                assert(hits[k] == before[k]);
                let i = choose|i: int|
                    0 <= i < rest.len() && (#[trigger] rest[i]).path == before[k].path;
                assert(files[i].path == hits[k].path);
            } else {
                assert(hits[k] == more[k - before.len()]);
                assert(files[files.len() - 1].path == hits[k].path);
            }
        }
        assert forall|k: int, l: int| 0 <= k < l < hits.len() implies (
            (#[trigger] hits[k]).path,
            hits[k].name,
        ) != ((#[trigger] hits[l]).path, hits[l].name) by {
            if l < before.len() {
                assert(hits[k] == before[k] && hits[l] == before[l]);
            } else if k >= before.len() {
                assert(hits[k] == more[k - before.len()] && hits[l] == more[l - before.len()]);
            } else {
                assert(hits[k] == before[k] && hits[l] == more[l - before.len()]);
                let i = choose|i: int|
                    0 <= i < rest.len() && (#[trigger] rest[i]).path == before[k].path;
                assert(files[i].path != files[files.len() - 1].path);
            }
        }
    }
}

proof fn file_hits_differ(config: ConfigView, file: ReadView)
    ensures
        ({
            let hits = dug_hits(config, file).symbols;
            &&& forall|k: int| 0 <= k < hits.len() ==> (#[trigger] hits[k]).path == file.path
            &&& forall|k: int, l: int|
                0 <= k < l < hits.len() ==> (#[trigger] hits[k]).name != (#[trigger] hits[l]).name
        }),
{
    match file.extracted {
        Some(Ok(symbols)) => {
            credited_once(symbols, file.lines, config.max_depth, config.attribution);
            let list = super::attribution::credits(
                symbols,
                file.lines,
                config.max_depth,
                config.attribution,
            );
            let hits = hits_at(file.path, list);
            assert forall|k: int, l: int| 0 <= k < l < hits.len() implies (
            #[trigger] hits[k]).name != (#[trigger] hits[l]).name by {
                assert(list[k].name != list[l].name);
            }
        },
        _ => {},
    }
}

/// The reads behind what a commit contributes.
pub(crate) proof fn reads_behind<A: LanguageAnalyzer>(
    config: ConfigView,
    registry: RegistryView<A>,
    seq: int,
    commit: ChangeView,
    outcome: OutcomeView,
) -> (reads: Seq<ReadView>)
    requires
        contributes(config, registry, seq, commit, Some(outcome)),
    ensures
        commit_reads(config, registry, commit, reads),
        outcome == contribution(config, seq, commit, reads),
{
    choose|reads: Seq<ReadView>| #[trigger]
        commit_reads(config, registry, commit, reads) && outcome == contribution(
            config,
            seq,
            commit,
            reads,
        )
}

/// Each symbol counts at most once per commit, where a commit is dug into each
/// file once.
pub proof fn commits_credit_once<A: LanguageAnalyzer>(
    config: ConfigView,
    registry: RegistryView<A>,
    seq: int,
    commit: ChangeView,
    outcome: OutcomeView,
)
    requires
        dug_once(commit),
        contributes(config, registry, seq, commit, Some(outcome)),
    ensures
        credits_once(outcome),
{
    let reads = reads_behind(config, registry, seq, commit, outcome);
    assert forall|i: int, j: int| 0 <= i < j < reads.len() implies (#[trigger] reads[i]).path != (
    #[trigger] reads[j]).path by {
        assert(commit.dug[i].path != commit.dug[j].path);
    }
    dug_hits_differ(config, reads);
}

/// A diff is split by file: no file is dug into twice.
pub proof fn diffs_are_split_by_file(lines: Seq<DiffLine>)
    ensures
        ({
            let files = added_by_path(lines);
            forall|i: int, j: int|
                0 <= i < j < files.len() ==> (#[trigger] files[i]).0 != (#[trigger] files[j]).0
        }),
{
    distinct_keeps_each_once(added_paths(lines));
    let paths = distinct(added_paths(lines));
    let files = added_by_path(lines);
    assert forall|i: int, j: int| 0 <= i < j < files.len() implies (#[trigger] files[i]).0 != (
    #[trigger] files[j]).0 by {
        assert(paths[i] != paths[j]);
    }
}

proof fn walked_outcomes<A: LanguageAnalyzer>(
    config: ConfigView,
    registry: RegistryView<A>,
    commits: Seq<ChangeView>,
    outcomes: Seq<Option<OutcomeView>>,
)
    requires
        forall|i: int| 0 <= i < commits.len() ==> dug_once(#[trigger] commits[i]),
        contribute(config, registry, commits, outcomes),
    ensures
        ({
            let list = present(outcomes);
            &&& different_places(list)
            &&& forall|i: int|
                0 <= i < list.len() ==> credits_once(#[trigger] list[i]) && list[i].seq
                    < commits.len()
        }),
    decreases commits.len(),
{
    if commits.len() > 0 {
        let rest = commits.drop_last();
        assert forall|i: int| 0 <= i < rest.len() implies dug_once(#[trigger] rest[i]) by {
            assert(rest[i] == commits[i]);
        }
        contributed_before(config, registry, commits, outcomes);
        walked_outcomes(config, registry, rest, outcomes.drop_last());
        let n = commits.len() - 1;
        assert(dug_once(commits[n]));
        match outcomes.last() {
            Some(outcome) => {
                commits_credit_once(config, registry, n, commits[n], outcome);
                let reads = reads_behind(config, registry, n, commits[n], outcome);
            },
            None => {},
        }
    }
}

/// Results are deterministic: whatever order the contributions of the commits are
/// merged in, by however many workers they were computed, the result is that of
/// the analysis.
pub proof fn analysis_is_deterministic<A: LanguageAnalyzer>(
    config: ConfigView,
    registry: RegistryView<A>,
    commits: Seq<ChangeView>,
    outcomes: Seq<Option<OutcomeView>>,
    merged: Seq<OutcomeView>,
)
    requires
        forall|i: int| 0 <= i < commits.len() ==> dug_once(#[trigger] commits[i]),
        contribute(config, registry, commits, outcomes),
        merged.to_multiset() == present(outcomes).to_multiset(),
    ensures
        reduced(merged, config.top, config.filtered()) == analysis(config, outcomes),
{
    walked_outcomes(config, registry, commits, outcomes);
    merge_order_does_not_matter(present(outcomes), merged, config.top, config.filtered());
}

/// Whether the analyzers have one answer for each file that a commit was dug into.
pub open spec fn settled_commit<A: LanguageAnalyzer>(
    registry: RegistryView<A>,
    commit: ChangeView,
) -> bool {
    forall|i: int|
        0 <= i < commit.dug.len() ==> match (
            registry.responsible((#[trigger] commit.dug[i]).path),
            commit.dug[i].content,
        ) {
            (Some(analyzer), Some(content)) => settled(analyzer, commit.dug[i].path, content),
            _ => true,
        }
}

/// Where the analyzers have one answer for each file, a commit contributes one thing
/// and no other.
pub proof fn settled_commits_agree<A: LanguageAnalyzer>(
    config: ConfigView,
    registry: RegistryView<A>,
    seq: int,
    commit: ChangeView,
    x: Option<OutcomeView>,
    y: Option<OutcomeView>,
)
    requires
        settled_commit(registry, commit),
        contributes(config, registry, seq, commit, x),
        contributes(config, registry, seq, commit, y),
    ensures
        x == y,
{
    match (x, y) {
        (Some(a), Some(b)) => {
            let reads = reads_behind(config, registry, seq, commit, a);
            let other = reads_behind(config, registry, seq, commit, b);
            assert forall|i: int| 0 <= i < reads.len() implies reads[i] == other[i] by {
                let file = commit.dug[i];
                let analyzer = wanted(config, registry, commit.changed, file.path);
                assert(reads_as(analyzer, file, reads[i]));
                assert(reads_as(analyzer, file, other[i]));
                match (analyzer, file.content) {
                    (Some(found), Some(content)) => {
                        assert(settled(found, file.path, content));
                    },
                    _ => {},
                }
            }
            assert(reads =~= other);
        },
        _ => {},
    }
}

/// Where the analyzers have one answer for each file, two analyses of the same commits
/// have the same result.
pub proof fn settled_analyses_agree<A: LanguageAnalyzer>(
    config: ConfigView,
    registry: RegistryView<A>,
    commits: Seq<ChangeView>,
    a: Seq<Option<OutcomeView>>,
    b: Seq<Option<OutcomeView>>,
)
    requires
        forall|i: int| 0 <= i < commits.len() ==> settled_commit(registry, #[trigger] commits[i]),
        contribute(config, registry, commits, a),
        contribute(config, registry, commits, b),
    ensures
        analysis(config, a) == analysis(config, b),
{
    assert forall|i: int| 0 <= i < commits.len() implies a[i] == b[i] by {
        assert(settled_commit(registry, commits[i]));
        settled_commits_agree(config, registry, i, commits[i], a[i], b[i]);
    }
    assert(a =~= b);
}

/// The files that failed to parse are among those that changed: they still count at the
/// file level, and there are no more of them than of changed files.
pub proof fn failures_are_changed_files<A: LanguageAnalyzer>(
    config: ConfigView,
    registry: RegistryView<A>,
    commits: Seq<ChangeView>,
    outcomes: Seq<Option<OutcomeView>>,
)
    requires
        contribute(config, registry, commits, outcomes),
    ensures
        ({
            let files = all_files(present(outcomes));
            let result = analysis(config, outcomes);
            &&& forall|path: Seq<char>| #[trigger]
                result.parse_failures.contains(path) ==> files.contains(path)
            &&& result.parse_failures.len() <= result.total_files
        }),
{
    let list = present(outcomes);
    let files = distinct(all_files(list));
    let paths = analysis(config, outcomes).parse_failures;
    failures_are_listed_once(list, config.top, config.filtered());
    dug_paths_are_files(config, registry, commits, outcomes);
    distinct_keeps_each_once(all_files(list));
    assert forall|i: int, j: int| 0 <= i < paths.len() && 0 <= j < paths.len() && i
        != j implies paths[i] != paths[j] by {
        if i < j {
            assert(text_less(paths[i], paths[j]));
        } else {
            assert(text_less(paths[j], paths[i]));
        }
        text_less_irreflexive(paths[i]);
    }
    assert forall|path: Seq<char>| #[trigger] paths.contains(path) implies files.contains(
        path,
    ) by {
        assert(all_failures(list).contains(path));
        assert(all_files(list).contains(path));
    }
    paths.unique_seq_to_set();
    files.unique_seq_to_set();
    assert(paths.to_set().subset_of(files.to_set()));
    vstd::set_lib::lemma_len_subset(paths.to_set(), files.to_set());
}

/// Every credited function stands in a file that changed.
pub proof fn symbols_are_in_changed_files<A: LanguageAnalyzer>(
    config: ConfigView,
    registry: RegistryView<A>,
    commits: Seq<ChangeView>,
    outcomes: Seq<Option<OutcomeView>>,
)
    requires
        contribute(config, registry, commits, outcomes),
    ensures
        ({
            let list = present(outcomes);
            forall|k: int|
                0 <= k < all_sightings(list).len() ==> all_files(list).contains(
                    (#[trigger] all_sightings(list)[k]).hit.path,
                )
        }),
{
    dug_paths_are_files(config, registry, commits, outcomes);
}

proof fn dug_paths_are_files<A: LanguageAnalyzer>(
    config: ConfigView,
    registry: RegistryView<A>,
    commits: Seq<ChangeView>,
    outcomes: Seq<Option<OutcomeView>>,
)
    requires
        contribute(config, registry, commits, outcomes),
    ensures
        ({
            let list = present(outcomes);
            &&& forall|path: Seq<char>| #[trigger]
                all_failures(list).contains(path) ==> all_files(list).contains(path)
            &&& forall|k: int|
                0 <= k < all_sightings(list).len() ==> all_files(list).contains(
                    (#[trigger] all_sightings(list)[k]).hit.path,
                )
        }),
    decreases commits.len(),
{
    let list = present(outcomes);
    if commits.len() > 0 {
        let n = commits.len() - 1;
        let last = commits.last();
        contributed_before(config, registry, commits, outcomes);
        dug_paths_are_files(config, registry, commits.drop_last(), outcomes.drop_last());
        let before = present(outcomes.drop_last());
        match outcomes.last() {
            Some(outcome) => {
                assert(list.drop_last() =~= before);
                let reads = reads_behind(config, registry, n, last, outcome);
                hits_come_from_reads(config, reads);
                analyzable_is_included(config, registry, last.changed);
                let files = all_files(list);
                assert forall|d: int|
                    0 <= d < reads.len() && (
                    #[trigger] reads[d]).extracted is Some implies files.contains(
                    reads[d].path,
                ) by {
                    assert(reads_as(
                        wanted(config, registry, last.changed, last.dug[d].path),
                        last.dug[d],
                        reads[d],
                    ));
                    assert(analyzable(config, registry, last.changed).contains(reads[d].path));
                    let f = outcome.files.index_of(reads[d].path);
                    assert(all_files(list)[all_files(before).len() + f] == reads[d].path);
                }
                assert forall|path: Seq<char>| #[trigger]
                    all_failures(list).contains(path) implies all_files(list).contains(path) by {
                    let (a, b) = (all_failures(before), outcome.parse_failures);
                    let k = (a + b).index_of(path);
                    if k < a.len() {
                        assert(a[k] == path);
                        assert(all_failures(before).contains(path));
                        let f = all_files(before).index_of(path);
                        assert(all_files(list)[f] == path);
                    } else {
                        assert(b[k - a.len()] == path);
                        assert(asked(reads, path));
                    }
                }
                assert forall|k: int| 0 <= k < all_sightings(list).len() implies all_files(
                    list,
                ).contains((#[trigger] all_sightings(list)[k]).hit.path) by {
                    let (a, b) = (all_sightings(before), sightings_in(outcome));
                    let path = all_sightings(list)[k].hit.path;
                    if k < a.len() {
                        assert(a[k] == all_sightings(list)[k]);
                        let f = all_files(before).index_of(path);
                        assert(all_files(list)[f] == path);
                    } else {
                        assert(b[k - a.len()] == all_sightings(list)[k]);
                        assert(outcome.symbols[k - a.len()].path == path);
                        assert(asked(reads, path));
                    }
                }
            },
            None => {},
        }
    }
}

/// Whether an analyzer was asked for the file at `path`.
spec fn asked(reads: Seq<ReadView>, path: Seq<char>) -> bool {
    exists|d: int|
        0 <= d < reads.len() && (#[trigger] reads[d]).path == path && reads[d].extracted is Some
}

proof fn hits_come_from_reads(config: ConfigView, reads: Seq<ReadView>)
    ensures
        forall|k: int|
            0 <= k < all_dug_hits(config, reads).parse_failures.len() ==> asked(
                reads,
                #[trigger] all_dug_hits(config, reads).parse_failures[k],
            ),
        forall|k: int|
            0 <= k < all_dug_hits(config, reads).symbols.len() ==> asked(
                reads,
                (#[trigger] all_dug_hits(config, reads).symbols[k]).path,
            ),
    decreases reads.len(),
{
    if reads.len() > 0 {
        let rest = reads.drop_last();
        let n = reads.len() - 1;
        hits_come_from_reads(config, rest);
        let a = all_dug_hits(config, rest);
        let b = dug_hits(config, reads.last());
        let hits = all_dug_hits(config, reads);
        assert forall|path: Seq<char>| #[trigger] asked(rest, path) implies asked(reads, path) by {
            let d = choose|d: int|
                0 <= d < rest.len() && (#[trigger] rest[d]).path == path
                    && rest[d].extracted is Some;
            assert(reads[d] == rest[d]);
        }
        if reads.last().extracted is Some {
            assert(asked(reads, reads[n].path));
        }
        assert forall|k: int| 0 <= k < hits.parse_failures.len() implies asked(
            reads,
            #[trigger] hits.parse_failures[k],
        ) by {
            if k < a.parse_failures.len() {
                assert(asked(rest, a.parse_failures[k]));
            } else {
                assert(b.parse_failures[k - a.parse_failures.len()] == reads[n].path);
            }
        }
        assert forall|k: int| 0 <= k < hits.symbols.len() implies asked(
            reads,
            (#[trigger] hits.symbols[k]).path,
        ) by {
            if k < a.symbols.len() {
                assert(asked(rest, a.symbols[k].path));
            } else {
                assert(b.symbols[k - a.symbols.len()].path == reads[n].path);
            }
        }
    }
}

proof fn analyzable_is_included<A: LanguageAnalyzer>(
    config: ConfigView,
    registry: RegistryView<A>,
    changed: Seq<Seq<char>>,
)
    ensures
        forall|path: Seq<char>| #[trigger]
            analyzable(config, registry, changed).contains(path) ==> included(
                config,
                changed,
            ).contains(path),
    decreases changed.len(),
{
    if changed.len() > 0 && config.dig {
        let rest = changed.drop_last();
        analyzable_is_included(config, registry, rest);
        assert forall|path: Seq<char>| #[trigger]
            analyzable(config, registry, changed).contains(path) implies included(
            config,
            changed,
        ).contains(path) by {
            contains_after_push(analyzable(config, registry, rest), changed.last(), path);
            contains_after_push(included(config, rest), changed.last(), path);
        }
    }
}

/// A commit floor and a commit limit take precedence over the dates: with either
/// of them the dates change nothing. The floor wins over the limit.
pub proof fn floor_and_limit_outrank_dates<A: LanguageAnalyzer>(
    config: ConfigView,
    since: Option<i64>,
    until: Option<i64>,
    registry: RegistryView<A>,
    seq: int,
    commit: ChangeView,
    outcome: Option<OutcomeView>,
)
    requires
        config.since_commit is Some || config.max_commits is Some,
    ensures
        ({
            let dated = ConfigView { since, until, ..config };
            contributes(dated, registry, seq, commit, outcome) <==> contributes(
                config,
                registry,
                seq,
                commit,
                outcome,
            )
        }),
        config.since_commit is Some ==> config.limit() is None,
{
    let dated = ConfigView { since, until, ..config };
    if contributes(config, registry, seq, commit, outcome) {
        dates_are_not_read(config, dated, registry, seq, commit, outcome);
    }
    if contributes(dated, registry, seq, commit, outcome) {
        dates_are_not_read(dated, config, registry, seq, commit, outcome);
    }
}

proof fn dates_are_not_read<A: LanguageAnalyzer>(
    a: ConfigView,
    b: ConfigView,
    registry: RegistryView<A>,
    seq: int,
    commit: ChangeView,
    outcome: Option<OutcomeView>,
)
    requires
        a == (ConfigView { since: a.since, until: a.until, ..b }),
        a.since_commit is Some || a.max_commits is Some,
        contributes(a, registry, seq, commit, outcome),
    ensures
        contributes(b, registry, seq, commit, outcome),
{
    match outcome {
        Some(found) => {
            let reads = reads_behind(a, registry, seq, commit, found);
            same_filters(a, b, registry, commit.changed);
            same_dug_hits(a, b, reads);
            assert forall|i: int| 0 <= i < reads.len() implies reads_as(
                wanted(b, registry, commit.changed, commit.dug[i].path),
                commit.dug[i],
                #[trigger] reads[i],
            ) by {
                assert(reads_as(
                    wanted(a, registry, commit.changed, commit.dug[i].path),
                    commit.dug[i],
                    reads[i],
                ));
            }
            assert(commit_reads(b, registry, commit, reads));
        },
        None => {},
    }
}

proof fn same_filters<A: LanguageAnalyzer>(
    a: ConfigView,
    b: ConfigView,
    registry: RegistryView<A>,
    changed: Seq<Seq<char>>,
)
    requires
        a.globs == b.globs,
        a.exclude == b.exclude,
        a.dig == b.dig,
    ensures
        included(a, changed) == included(b, changed),
        analyzable(a, registry, changed) == analyzable(b, registry, changed),
    decreases changed.len(),
{
    if changed.len() > 0 {
        same_filters(a, b, registry, changed.drop_last());
    }
}

proof fn same_dug_hits(a: ConfigView, b: ConfigView, reads: Seq<ReadView>)
    requires
        a.max_depth == b.max_depth,
        a.attribution == b.attribution,
    ensures
        all_dug_hits(a, reads) == all_dug_hits(b, reads),
    decreases reads.len(),
{
    if reads.len() > 0 {
        same_dug_hits(a, b, reads.drop_last());
    }
}

} // verus!
