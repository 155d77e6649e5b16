//! What the options of an analysis come down to: which commits count, which of their
//! files, and who gets the credit.
use vstd::prelude::*;

use super::Attribution;
use super::attribution::{
    around, credits, inclusive_credits_all_around, inclusive_credits_only_around,
    innermost_credits_only_owners, owner_is_credited, owns,
};
use super::commit::{
    ChangeView, ConfigView, ReadView, all_dug_hits, analyzable, contributes, dug_hits, included,
    reads_as, wanted,
};
use super::laws::reads_behind;
use super::{HitView, OutcomeView};
use crate::analyzer::registry::RegistryView;
use crate::analyzer::{Extraction, LanguageAnalyzer, SymbolView};
use crate::globs::{GlobView, glob_matches};
use crate::lists::contains_after_push;

verus! {

/// The dates bound the window, each whatever the other says: without a commit floor and
/// a commit limit, a commit after `until` and one before `since` contribute nothing, and
/// one that is neither contributes if it changed a file.
pub proof fn dates_bound_the_window<A: LanguageAnalyzer>(
    config: ConfigView,
    registry: RegistryView<A>,
    seq: int,
    commit: ChangeView,
    outcome: Option<OutcomeView>,
)
    requires
        config.since_commit is None,
        config.max_commits is None,
        contributes(config, registry, seq, commit, outcome),
    ensures
        config.until matches Some(until) ==> until < commit.time ==> outcome is None,
        config.since matches Some(since) ==> commit.time < since ==> outcome is None,
        (config.until matches Some(until) ==> commit.time <= until) && (
        config.since matches Some(since) ==> since <= commit.time) && commit.changed.len() > 0
            ==> outcome is Some,
{
}

/// The same of the window itself: a time is in it that neither date keeps out, and with
/// a commit floor or a commit limit every time is.
pub proof fn window_keeps_what_no_date_keeps_out(config: ConfigView, time: int)
    ensures
        config.since_commit is Some ==> config.considers(time),
        config.max_commits is Some ==> config.considers(time),
        ({
            let bounded = config.since_commit is None && config.max_commits is None;
            &&& bounded && (config.until matches Some(until) && until < time)
                ==> !config.considers(time)
            &&& bounded && (config.since matches Some(since) && time < since)
                ==> !config.considers(time)
            &&& (config.until matches Some(until) ==> time <= until) && (
            config.since matches Some(since) ==> since <= time) ==> config.considers(time)
        }),
{
}

/// With a commit floor or a commit limit every commit that changed a file contributes,
/// whatever its time. A commit that changed none never does.
pub proof fn every_walked_commit_counts<A: LanguageAnalyzer>(
    config: ConfigView,
    registry: RegistryView<A>,
    seq: int,
    commit: ChangeView,
    outcome: Option<OutcomeView>,
)
    requires
        contributes(config, registry, seq, commit, outcome),
    ensures
        commit.changed.len() == 0 ==> outcome is None,
        commit.changed.len() > 0 && config.since_commit is Some ==> outcome is Some,
        commit.changed.len() > 0 && config.max_commits is Some ==> outcome is Some,
        outcome matches Some(found) ==> found.time == commit.time && found.seq == seq,
{
}

/// The walk is cut at the commit limit, unless there is a floor.
pub proof fn limit_yields_to_floor(config: ConfigView)
    ensures
        config.since_commit is None ==> config.limit() == config.max_commits,
        config.since_commit is Some ==> config.limit() == None::<usize>,
{
}

/// Whether one of `globs` matches a path.
pub open spec fn some_glob_matches(globs: Seq<GlobView>, path: Seq<char>) -> bool {
    exists|i: int|
        0 <= i < globs.len() && #[trigger] glob_matches(
            globs[i].pattern,
            globs[i].literal_separator,
            path,
        )
}

/// Whether a path is kept: with globs to keep, one of them matches it, and with globs to
/// drop, none of those does.
pub open spec fn kept(config: ConfigView, path: Seq<char>) -> bool {
    &&& config.globs is None || some_glob_matches(config.globs->0, path)
    &&& config.exclude is None || !some_glob_matches(config.exclude->0, path)
}

/// A path passes the filters exactly where it is kept.
pub proof fn kept_is_included(config: ConfigView, path: Seq<char>)
    ensures
        config.includes(path) <==> kept(config, path),
{
    if let Some(globs) = config.globs {
        glob_found(globs, path);
    }
    if let Some(globs) = config.exclude {
        glob_found(globs, path);
    }
}

proof fn glob_found(globs: Seq<GlobView>, path: Seq<char>)
    ensures
        crate::globs::any_matches(globs, path) <==> some_glob_matches(globs, path),
{
    if crate::globs::any_matches(globs, path) {
        let i = choose|i: int|
            0 <= i < globs.len() && glob_matches(
                (#[trigger] globs[i]).pattern,
                globs[i].literal_separator,
                path,
            );
        assert(glob_matches(globs[i].pattern, globs[i].literal_separator, path));
    }
    if some_glob_matches(globs, path) {
        let i = choose|i: int|
            0 <= i < globs.len() && #[trigger] glob_matches(
                globs[i].pattern,
                globs[i].literal_separator,
                path,
            );
        assert(glob_matches(globs[i].pattern, globs[i].literal_separator, path));
    }
}

/// The files of a commit are its changed paths that are kept, in their order.
pub proof fn files_are_the_kept_paths<A: LanguageAnalyzer>(
    config: ConfigView,
    registry: RegistryView<A>,
    seq: int,
    commit: ChangeView,
    outcome: OutcomeView,
)
    requires
        contributes(config, registry, seq, commit, Some(outcome)),
    ensures
        outcome.files == commit.changed.filter(|path: Seq<char>| kept(config, path)),
        config.globs is None && config.exclude is None ==> outcome.files == commit.changed,
{
    included_filters(config, commit.changed);
    if config.globs is None && config.exclude is None {
        all_kept(commit.changed, |path: Seq<char>| kept(config, path));
    }
}

proof fn all_kept(paths: Seq<Seq<char>>, keep: spec_fn(Seq<char>) -> bool)
    requires
        forall|path: Seq<char>| #[trigger] keep(path),
    ensures
        paths.filter(keep) == paths,
    decreases paths.len(),
{
    reveal(Seq::filter);
    if paths.len() > 0 {
        all_kept(paths.drop_last(), keep);
        assert(paths.drop_last().push(paths.last()) =~= paths);
    }
}

proof fn included_filters(config: ConfigView, changed: Seq<Seq<char>>)
    ensures
        included(config, changed) == changed.filter(|path: Seq<char>| kept(config, path)),
    decreases changed.len(),
{
    reveal(Seq::filter);
    if changed.len() > 0 {
        included_filters(config, changed.drop_last());
        kept_is_included(config, changed.last());
    }
}

/// The paths to dig into are, with dig-down on, the changed paths that are kept and that
/// an analyzer is responsible for, in their order. With dig-down off there are none.
pub proof fn dug_paths_are_kept_and_handled<A: LanguageAnalyzer>(
    config: ConfigView,
    registry: RegistryView<A>,
    changed: Seq<Seq<char>>,
)
    ensures
        config.dig ==> analyzable(config, registry, changed) == changed.filter(
            |path: Seq<char>| kept(config, path) && registry.responsible(path) is Some,
        ),
        !config.dig ==> analyzable(config, registry, changed).len() == 0,
    decreases changed.len(),
{
    reveal(Seq::filter);
    if changed.len() > 0 {
        dug_paths_are_kept_and_handled(config, registry, changed.drop_last());
        kept_is_included(config, changed.last());
    }
}

/// What the globs drop leaves no trace: a path that a glob to drop matches, and one that
/// no glob to keep matches where there are some, is in none of the files, the functions
/// and the parse failures of a commit.
pub proof fn dropped_paths_leave_no_trace<A: LanguageAnalyzer>(
    config: ConfigView,
    registry: RegistryView<A>,
    seq: int,
    commit: ChangeView,
    outcome: OutcomeView,
    path: Seq<char>,
)
    requires
        contributes(config, registry, seq, commit, Some(outcome)),
        ({
            ||| config.exclude is Some && some_glob_matches(config.exclude->0, path)
            ||| config.globs is Some && !some_glob_matches(config.globs->0, path)
        }),
    ensures
        !outcome.files.contains(path),
        !outcome.parse_failures.contains(path),
        forall|h: int|
            0 <= h < outcome.symbols.len() ==> (#[trigger] outcome.symbols[h]).path != path,
{
    let reads = reads_behind(config, registry, seq, commit, outcome);
    assert(!kept(config, path));
    files_are_the_kept_paths(config, registry, seq, commit, outcome);
    filter_holds(commit.changed, |p: Seq<char>| kept(config, p), path);
    assert forall|h: int| 0 <= h < outcome.symbols.len() implies (
    #[trigger] outcome.symbols[h]).path != path by {
        let (d, _) = hit_origin(config, reads, h);
        asked_path_is_wanted(config, registry, commit, reads, d);
    }
    if outcome.parse_failures.contains(path) {
        let d = failure_origin(config, reads, outcome.parse_failures.index_of(path));
        asked_path_is_wanted(config, registry, commit, reads, d);
    }
}

proof fn filter_holds(paths: Seq<Seq<char>>, keep: spec_fn(Seq<char>) -> bool, path: Seq<char>)
    ensures
        paths.filter(keep).contains(path) <==> paths.contains(path) && keep(path),
    decreases paths.len(),
{
    reveal(Seq::filter);
    if paths.len() > 0 {
        let rest = paths.drop_last();
        filter_holds(rest, keep, path);
        assert(rest.push(paths.last()) =~= paths);
        contains_after_push(rest, paths.last(), path);
        contains_after_push(rest.filter(keep), paths.last(), path);
    }
}

/// A file that an analyzer was asked for is one to dig into.
proof fn asked_path_is_wanted<A: LanguageAnalyzer>(
    config: ConfigView,
    registry: RegistryView<A>,
    commit: ChangeView,
    reads: Seq<ReadView>,
    d: int,
)
    requires
        super::commit::commit_reads(config, registry, commit, reads),
        0 <= d < reads.len(),
        reads[d].extracted is Some,
    ensures
        config.dig,
        commit.changed.contains(reads[d].path),
        kept(config, reads[d].path),
        registry.responsible(reads[d].path) is Some,
        commit.dug[d].content is Some,
        registry.responsible(reads[d].path)->0.gives(
            commit.dug[d].path,
            commit.dug[d].content->0,
            reads[d].extracted->0,
        ),
{
    assert(reads_as(
        wanted(config, registry, commit.changed, commit.dug[d].path),
        commit.dug[d],
        reads[d],
    ));
    dug_paths_are_kept_and_handled(config, registry, commit.changed);
    filter_holds(
        commit.changed,
        |path: Seq<char>| kept(config, path) && registry.responsible(path) is Some,
        reads[d].path,
    );
}

/// Where a hit comes from: the file, and the place among what it is credited with.
proof fn hit_origin(config: ConfigView, reads: Seq<ReadView>, h: int) -> (origin: (int, int))
    requires
        0 <= h < all_dug_hits(config, reads).symbols.len(),
    ensures
        ({
            let (d, m) = origin;
            let hit = all_dug_hits(config, reads).symbols[h];
            &&& 0 <= d < reads.len()
            &&& reads[d].path == hit.path
            &&& reads[d].extracted matches Some(Ok(symbols)) && ({
                let list = credits(symbols, reads[d].lines, config.max_depth, config.attribution);
                &&& 0 <= m < list.len()
                &&& hit.name == list[m].name
                &&& hit.start_line == list[m].start_line
                &&& hit.end_line == list[m].end_line
                &&& hit.depth == list[m].depth
            })
        }),
    decreases reads.len(),
{
    let rest = reads.drop_last();
    let before = all_dug_hits(config, rest).symbols;
    if h < before.len() {
        let (d, m) = hit_origin(config, rest, h);
        assert(rest[d] == reads[d]);
        (d, m)
    } else {
        (reads.len() - 1, h - before.len())
    }
}

proof fn failure_origin(config: ConfigView, reads: Seq<ReadView>, h: int) -> (d: int)
    requires
        0 <= h < all_dug_hits(config, reads).parse_failures.len(),
    ensures
        0 <= d < reads.len(),
        reads[d].path == all_dug_hits(config, reads).parse_failures[h],
        reads[d].extracted matches Some(Err(_)),
    decreases reads.len(),
{
    let rest = reads.drop_last();
    let before = all_dug_hits(config, rest).parse_failures;
    if h < before.len() {
        let d = failure_origin(config, rest, h);
        assert(rest[d] == reads[d]);
        d
    } else {
        reads.len() - 1
    }
}

/// Whether the symbol at `k` is to be credited for a changed line.
pub open spec fn to_be_credited(
    config: ConfigView,
    symbols: Seq<SymbolView>,
    k: int,
    line: int,
) -> bool {
    match config.attribution {
        Attribution::Innermost => owns(symbols, k, line, config.max_depth),
        Attribution::Inclusive => around(symbols, k, line, config.max_depth),
    }
}

/// Whether a hit is of a symbol of the file at `path`.
pub open spec fn is_hit_of(hit: HitView, path: Seq<char>, symbol: SymbolView) -> bool {
    &&& hit.path == path
    &&& hit.name == symbol.name
    &&& hit.start_line == symbol.start_line
    &&& hit.end_line == symbol.end_line
    &&& hit.depth == symbol.depth
}

/// Whether what was extracted of the file at `d` shows in what a commit contributes: its
/// path among the parse failures where nothing could be extracted, and else a hit for
/// the name of every function that is to be credited for one of its changed lines.
pub open spec fn shows(
    config: ConfigView,
    commit: ChangeView,
    outcome: OutcomeView,
    d: int,
    extracted: Extraction,
) -> bool {
    match extracted {
        Ok(symbols) => forall|i: int, k: int|
            0 <= i < commit.dug[d].lines.len() && #[trigger] to_be_credited(
                config,
                symbols,
                k,
                commit.dug[d].lines[i] as int,
            ) ==> exists|h: int|
                0 <= h < outcome.symbols.len() && (#[trigger] outcome.symbols[h]).path
                    == commit.dug[d].path && outcome.symbols[h].name == symbols[k].name,
        Err(_) => outcome.parse_failures.contains(commit.dug[d].path),
    }
}

/// Digging down misses nothing: with dig-down on, a file of the commit that is there as
/// text, whose path changed and is kept and that an analyzer is responsible for, is read
/// by that analyzer, and what it extracts shows.
pub proof fn dug_files_show<A: LanguageAnalyzer>(
    config: ConfigView,
    registry: RegistryView<A>,
    seq: int,
    commit: ChangeView,
    outcome: OutcomeView,
    d: int,
)
    requires
        contributes(config, registry, seq, commit, Some(outcome)),
        config.dig,
        0 <= d < commit.dug.len(),
        commit.dug[d].content is Some,
        commit.changed.contains(commit.dug[d].path),
        kept(config, commit.dug[d].path),
        registry.responsible(commit.dug[d].path) is Some,
    ensures
        exists|extracted: Extraction|
            registry.responsible(commit.dug[d].path)->0.gives(
                commit.dug[d].path,
                commit.dug[d].content->0,
                extracted,
            ) && #[trigger] shows(config, commit, outcome, d, extracted),
{
    let reads = reads_behind(config, registry, seq, commit, outcome);
    let path = commit.dug[d].path;
    assert(reads_as(wanted(config, registry, commit.changed, path), commit.dug[d], reads[d]));
    dug_paths_are_kept_and_handled(config, registry, commit.changed);
    filter_holds(
        commit.changed,
        |p: Seq<char>| kept(config, p) && registry.responsible(p) is Some,
        path,
    );
    let extracted = reads[d].extracted->0;
    match extracted {
        Ok(symbols) => {
            let list = credits(symbols, reads[d].lines, config.max_depth, config.attribution);
            assert forall|i: int, k: int|
                0 <= i < commit.dug[d].lines.len() && #[trigger] to_be_credited(
                    config,
                    symbols,
                    k,
                    commit.dug[d].lines[i] as int,
                ) implies exists|h: int|
                0 <= h < outcome.symbols.len() && (#[trigger] outcome.symbols[h]).path == path
                    && outcome.symbols[h].name == symbols[k].name by {
                let m = match config.attribution {
                    Attribution::Innermost => owner_is_credited(
                        symbols,
                        reads[d].lines,
                        config.max_depth,
                        i,
                        k,
                    ),
                    Attribution::Inclusive => {
                        inclusive_credits_all_around(
                            symbols,
                            reads[d].lines,
                            config.max_depth,
                            i,
                            k,
                        );
                        choose|m: int|
                            0 <= m < list.len() && (#[trigger] list[m]).name == symbols[k].name
                    },
                };
                let h = hit_place(config, reads, d, m);
                assert(outcome.symbols[h].name == symbols[k].name);
            }
        },
        Err(_) => {
            failure_shows(config, reads, d);
        },
    }
    assert(shows(config, commit, outcome, d, extracted));
}

/// Where a credit of the file at `d` stands among all hits.
proof fn hit_place(config: ConfigView, reads: Seq<ReadView>, d: int, m: int) -> (h: int)
    requires
        0 <= d < reads.len(),
        0 <= m < dug_hits(config, reads[d]).symbols.len(),
    ensures
        0 <= h < all_dug_hits(config, reads).symbols.len(),
        all_dug_hits(config, reads).symbols[h] == dug_hits(config, reads[d]).symbols[m],
    decreases reads.len(),
{
    let rest = reads.drop_last();
    if d < rest.len() {
        assert(rest[d] == reads[d]);
        hit_place(config, rest, d, m)
    } else {
        all_dug_hits(config, rest).symbols.len() + m
    }
}

proof fn failure_shows(config: ConfigView, reads: Seq<ReadView>, d: int)
    requires
        0 <= d < reads.len(),
        reads[d].extracted matches Some(Err(_)),
    ensures
        all_dug_hits(config, reads).parse_failures.contains(reads[d].path),
    decreases reads.len(),
{
    let rest = reads.drop_last();
    let before = all_dug_hits(config, rest).parse_failures;
    let all = all_dug_hits(config, reads).parse_failures;
    if d < rest.len() {
        assert(rest[d] == reads[d]);
        failure_shows(config, rest, d);
        assert(all[before.index_of(reads[d].path)] == reads[d].path);
    } else {
        assert(all[before.len() as int] == reads[d].path);
    }
}

/// Digging down makes nothing up: every hit of a commit is of a function that an
/// analyzer found in a changed file that is kept, and that is to be credited for one of
/// the changed lines of that file.
pub proof fn hits_are_earned<A: LanguageAnalyzer>(
    config: ConfigView,
    registry: RegistryView<A>,
    seq: int,
    commit: ChangeView,
    outcome: OutcomeView,
    h: int,
)
    requires
        contributes(config, registry, seq, commit, Some(outcome)),
        0 <= h < outcome.symbols.len(),
    ensures
        config.dig,
        exists|d: int, i: int, k: int, symbols: Seq<SymbolView>|
            #![trigger commit.dug[d], to_be_credited(config, symbols, k, commit.dug[d].lines[i] as int)]
            {
                &&& 0 <= d < commit.dug.len()
                &&& 0 <= i < commit.dug[d].lines.len()
                &&& 0 <= k < symbols.len()
                &&& commit.changed.contains(commit.dug[d].path)
                &&& kept(config, commit.dug[d].path)
                &&& registry.responsible(commit.dug[d].path) is Some
                &&& commit.dug[d].content is Some
                &&& registry.responsible(commit.dug[d].path)->0.gives(
                    commit.dug[d].path,
                    commit.dug[d].content->0,
                    Ok(symbols),
                )
                &&& to_be_credited(config, symbols, k, commit.dug[d].lines[i] as int)
                &&& is_hit_of(outcome.symbols[h], commit.dug[d].path, symbols[k])
            },
{
    let reads = reads_behind(config, registry, seq, commit, outcome);
    let (d, m) = hit_origin(config, reads, h);
    asked_path_is_wanted(config, registry, commit, reads, d);
    assert(reads_as(
        wanted(config, registry, commit.changed, commit.dug[d].path),
        commit.dug[d],
        reads[d],
    ));
    let symbols = reads[d].extracted->0->Ok_0;
    let lines = reads[d].lines;
    match config.attribution {
        Attribution::Innermost => {
            innermost_credits_only_owners(symbols, lines, config.max_depth, m);
            let (i, k) = choose|i: int, k: int|
                0 <= i < lines.len() && #[trigger] owns(
                    symbols,
                    k,
                    lines[i] as int,
                    config.max_depth,
                ) && symbols[k] == credits(
                    symbols,
                    lines,
                    config.max_depth,
                    config.attribution,
                )[m];
            assert(to_be_credited(config, symbols, k, commit.dug[d].lines[i] as int));
        },
        Attribution::Inclusive => {
            inclusive_credits_only_around(symbols, lines, config.max_depth, m);
            let (i, k) = choose|i: int, k: int|
                0 <= i < lines.len() && #[trigger] around(
                    symbols,
                    k,
                    lines[i] as int,
                    config.max_depth,
                ) && symbols[k] == credits(
                    symbols,
                    lines,
                    config.max_depth,
                    config.attribution,
                )[m];
            assert(to_be_credited(config, symbols, k, commit.dug[d].lines[i] as int));
        },
    }
}

/// A parse failure is of a changed file that is kept, and that its analyzer could not
/// read.
pub proof fn failures_are_earned<A: LanguageAnalyzer>(
    config: ConfigView,
    registry: RegistryView<A>,
    seq: int,
    commit: ChangeView,
    outcome: OutcomeView,
    path: Seq<char>,
)
    requires
        contributes(config, registry, seq, commit, Some(outcome)),
        outcome.parse_failures.contains(path),
    ensures
        config.dig,
        commit.changed.contains(path),
        kept(config, path),
        exists|d: int, extracted: Extraction|
            #![trigger commit.dug[d], shows(config, commit, outcome, d, extracted)]
            {
                &&& 0 <= d < commit.dug.len()
                &&& commit.dug[d].path == path
                &&& registry.responsible(path) is Some
                &&& commit.dug[d].content is Some
                &&& extracted is Err
                &&& registry.responsible(path)->0.gives(
                    path,
                    commit.dug[d].content->0,
                    extracted,
                )
            },
{
    let reads = reads_behind(config, registry, seq, commit, outcome);
    let d = failure_origin(config, reads, outcome.parse_failures.index_of(path));
    asked_path_is_wanted(config, registry, commit, reads, d);
    assert(reads_as(
        wanted(config, registry, commit.changed, commit.dug[d].path),
        commit.dug[d],
        reads[d],
    ));
    assert(shows(config, commit, outcome, d, reads[d].extracted->0));
}

/// A filter is reported exactly where there are globs to keep or globs to drop.
pub proof fn filter_is_reported(config: ConfigView)
    ensures
        config.globs is Some ==> config.filtered(),
        config.exclude is Some ==> config.filtered(),
        config.filtered() ==> config.globs is Some || config.exclude is Some,
{
}

} // verus!
