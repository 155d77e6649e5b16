//! What one commit contributes to an analysis.
use vstd::prelude::*;

use super::attribution::{credited, credited_once, credits};
use super::reduce::{
    all_files, all_sightings, countable, of_key, outcome_views, present, reduce_outcomes, reduced,
    sightings_in,
};
use super::{
    AnalysisResult, Attribution, CommitOutcome, HitView, OutcomeView, ResultView, SymbolHit,
};
use crate::analyzer::registry::{AnalyzerRegistry, RegistryView};
use crate::analyzer::{
    AnalyzerError, Extraction, LanguageAnalyzer, Symbol, SymbolView, symbol_views, symbols_result,
};
use crate::globs::{GlobView, any_matches, set_globs, set_matches};
use crate::lists::{TextSet, distinct_keeps_each_once, occurrences, occurrences_add};
use crate::text::{text_option, texts};

verus! {

/// Everything the engine needs to run one analysis.
pub struct AnalyzeConfig {
    /// Path to start repository discovery from.
    pub repo: String,
    pub since: Option<i64>,
    pub until: Option<i64>,
    /// Stop walking history once this commit is reached (inclusive). Anything
    /// `git rev-parse` accepts; takes precedence over `since`/`until` and
    /// `max_commits`.
    pub since_commit: Option<String>,
    /// Walk back at most this many commits from `HEAD` (`None` = no limit).
    /// Takes precedence over `since`/`until`, but is overridden by
    /// `since_commit`.
    pub max_commits: Option<usize>,
    /// `None` keeps every file; otherwise only paths matching the set.
    pub globset: Option<globset::GlobSet>,
    /// Paths matching this set are dropped (applied after `globset`).
    pub exclude: Option<globset::GlobSet>,
    /// Whether to dig down to function/method granularity.
    pub dig: bool,
    /// Largest function-nesting depth to report (`None` = unlimited).
    pub max_depth: Option<u32>,
    /// How nested changes are attributed to functions.
    pub attribution: Attribution,
    /// Keep only the top N rows of each leaderboard (`None` = keep all).
    pub top: Option<usize>,
}

/// What the rules of an analysis read of an [`AnalyzeConfig`].
pub struct ConfigView {
    pub since: Option<i64>,
    pub until: Option<i64>,
    pub since_commit: Option<Seq<char>>,
    pub max_commits: Option<usize>,
    pub globs: Option<Seq<GlobView>>,
    pub exclude: Option<Seq<GlobView>>,
    pub dig: bool,
    pub max_depth: Option<u32>,
    pub attribution: Attribution,
    pub top: Option<usize>,
}

/// The globs of an optional set.
pub open spec fn optional_globs(set: Option<globset::GlobSet>) -> Option<Seq<GlobView>> {
    match set {
        Some(s) => Some(set_globs(s)),
        None => None,
    }
}

impl View for AnalyzeConfig {
    type V = ConfigView;

    open spec fn view(&self) -> ConfigView {
        ConfigView {
            since: self.since,
            until: self.until,
            since_commit: text_option(self.since_commit),
            max_commits: self.max_commits,
            globs: optional_globs(self.globset),
            exclude: optional_globs(self.exclude),
            dig: self.dig,
            max_depth: self.max_depth,
            attribution: self.attribution,
            top: self.top,
        }
    }
}

impl ConfigView {
    /// Whether a path passes the filters.
    pub open spec fn includes(self, path: Seq<char>) -> bool {
        &&& self.globs matches Some(globs) ==> any_matches(globs, path)
        &&& self.exclude matches Some(globs) ==> !any_matches(globs, path)
    }

    /// Whether a commit of this time is considered. The dates bound the window
    /// only where no commit floor and no commit limit was given.
    pub open spec fn considers(self, time: int) -> bool {
        if self.since_commit is Some || self.max_commits is Some {
            true
        } else {
            &&& self.since matches Some(since) ==> since <= time
            &&& self.until matches Some(until) ==> time <= until
        }
    }

    /// How many commits are walked at most. The floor wins over the limit.
    pub open spec fn limit(self) -> Option<usize> {
        if self.since_commit is Some {
            None
        } else {
            self.max_commits
        }
    }

    /// Whether a glob filter is applied.
    pub open spec fn filtered(self) -> bool {
        self.globs is Some || self.exclude is Some
    }
}

impl AnalyzeConfig {
    /// Whether `path` passes the filters.
    pub fn path_included(&self, path: &str) -> (is: bool)
        ensures
            is == self@.includes(path@),
    {
        let included = match &self.globset {
            Some(set) => set_matches(set, path),
            None => true,
        };
        let excluded = match &self.exclude {
            Some(set) => set_matches(set, path),
            None => false,
        };
        included && !excluded
    }

    /// Whether a commit of this time is considered.
    pub fn in_window(&self, time: i64) -> (is: bool)
        ensures
            is == self@.considers(time as int),
    {
        if self.since_commit.is_some() || self.max_commits.is_some() {
            return true;
        }
        let early = match self.since {
            Some(since) => time < since,
            None => false,
        };
        let late = match self.until {
            Some(until) => time > until,
            None => false,
        };
        !early && !late
    }

    /// How many commits are walked at most.
    pub fn commit_limit(&self) -> (limit: Option<usize>)
        ensures
            limit == self@.limit(),
    {
        if self.since_commit.is_some() {
            None
        } else {
            self.max_commits
        }
    }

    /// Whether a glob filter is applied.
    pub fn glob_filtered(&self) -> (is: bool)
        ensures
            is == self@.filtered(),
    {
        self.globset.is_some() || self.exclude.is_some()
    }
}

/// A file whose changed lines a commit has: its path, the added or modified lines
/// (1-based, new side), and its contents at the commit. They are missing where the
/// path is absent, binary, or not valid UTF-8.
pub struct DugFile {
    pub path: String,
    pub lines: Vec<u32>,
    pub content: Option<String>,
}

/// What a [`DugFile`] stands for.
pub struct DugView {
    pub path: Seq<char>,
    pub lines: Seq<u32>,
    pub content: Option<Seq<char>>,
}

impl View for DugFile {
    type V = DugView;

    open spec fn view(&self) -> DugView {
        DugView { path: self.path@, lines: self.lines@, content: text_option(self.content) }
    }
}

/// What a commit changed: the paths it touched, and the files that are dug into.
pub struct CommitChange {
    pub time: i64,
    pub changed: Vec<String>,
    pub dug: Vec<DugFile>,
}

/// What a [`CommitChange`] stands for.
pub struct ChangeView {
    pub time: int,
    pub changed: Seq<Seq<char>>,
    pub dug: Seq<DugView>,
}

impl View for CommitChange {
    type V = ChangeView;

    open spec fn view(&self) -> ChangeView {
        ChangeView {
            time: self.time as int,
            changed: texts(self.changed@),
            dug: self.dug@.map_values(|f: DugFile| f@),
        }
    }
}

/// What one commit's dig-down pass produces.
pub struct CommitHits {
    /// Function/method hits, de-duplicated within each file.
    pub symbols: Vec<SymbolHit>,
    /// Paths whose analyzer failed to parse this revision.
    pub parse_failures: Vec<String>,
}

/// What [`CommitHits`] stand for.
pub struct HitsView {
    pub symbols: Seq<HitView>,
    pub parse_failures: Seq<Seq<char>>,
}

impl View for CommitHits {
    type V = HitsView;

    open spec fn view(&self) -> HitsView {
        HitsView {
            symbols: self.symbols@.map_values(|h: SymbolHit| h@),
            parse_failures: texts(self.parse_failures@),
        }
    }
}

/// No hits.
pub open spec fn no_hits() -> HitsView {
    HitsView { symbols: Seq::empty(), parse_failures: Seq::empty() }
}

/// Hits in the file at `path` for credited symbols.
pub open spec fn hits_at(path: Seq<char>, symbols: Seq<SymbolView>) -> Seq<HitView> {
    symbols.map_values(
        |s: SymbolView|
            HitView {
                path,
                name: s.name,
                start_line: s.start_line,
                end_line: s.end_line,
                depth: s.depth,
            },
    )
}

/// What a changed file gives: hits for the functions that own its changed lines,
/// or a parse failure where its symbols could not be extracted.
pub open spec fn file_hits(
    config: ConfigView,
    path: Seq<char>,
    lines: Seq<u32>,
    extracted: Extraction,
) -> HitsView {
    match extracted {
        Ok(symbols) => HitsView {
            symbols: hits_at(path, credits(symbols, lines, config.max_depth, config.attribution)),
            parse_failures: Seq::empty(),
        },
        Err(_) => HitsView { symbols: Seq::empty(), parse_failures: seq![path] },
    }
}

/// A file that a commit was dug into: its path, its changed lines, and what was
/// extracted of it, if an analyzer was asked.
pub struct ReadView {
    pub path: Seq<char>,
    pub lines: Seq<u32>,
    pub extracted: Option<Extraction>,
}

/// Whether a file may be read like that by an analyzer: nothing is extracted where there
/// is no analyzer or the contents are missing.
pub open spec fn reads_as<A: LanguageAnalyzer>(
    analyzer: Option<A>,
    file: DugView,
    read: ReadView,
) -> bool {
    &&& read.path == file.path
    &&& read.lines == file.lines
    &&& match (analyzer, file.content) {
        (Some(analyzer), Some(content)) => read.extracted matches Some(extracted)
            && analyzer.gives(file.path, content, extracted),
        _ => read.extracted is None,
    }
}

/// What a changed file gives: nothing where no analyzer was asked.
pub open spec fn dug_hits(config: ConfigView, read: ReadView) -> HitsView {
    match read.extracted {
        Some(extracted) => file_hits(config, read.path, read.lines, extracted),
        None => no_hits(),
    }
}

/// What changed files give, one after the other.
pub open spec fn all_dug_hits(config: ConfigView, reads: Seq<ReadView>) -> HitsView
    decreases reads.len(),
{
    if reads.len() == 0 {
        no_hits()
    } else {
        let before = all_dug_hits(config, reads.drop_last());
        let last = dug_hits(config, reads.last());
        HitsView {
            symbols: before.symbols + last.symbols,
            parse_failures: before.parse_failures + last.parse_failures,
        }
    }
}

/// The changed paths that pass the filters.
pub open spec fn included(config: ConfigView, changed: Seq<Seq<char>>) -> Seq<Seq<char>>
    decreases changed.len(),
{
    if changed.len() == 0 {
        Seq::empty()
    } else {
        let before = included(config, changed.drop_last());
        if config.includes(changed.last()) {
            before.push(changed.last())
        } else {
            before
        }
    }
}

/// The changed paths that are dug into: those that pass the filters and that an
/// analyzer is responsible for.
pub open spec fn analyzable<A: LanguageAnalyzer>(
    config: ConfigView,
    registry: RegistryView<A>,
    changed: Seq<Seq<char>>,
) -> Seq<Seq<char>>
    decreases changed.len(),
{
    if changed.len() == 0 || !config.dig {
        Seq::empty()
    } else {
        let before = analyzable(config, registry, changed.drop_last());
        if config.includes(changed.last()) && registry.responsible(changed.last()) is Some {
            before.push(changed.last())
        } else {
            before
        }
    }
}

/// The analyzer for a path of a commit, if it is to be dug into.
pub open spec fn wanted<A: LanguageAnalyzer>(
    config: ConfigView,
    registry: RegistryView<A>,
    changed: Seq<Seq<char>>,
    path: Seq<char>,
) -> Option<A> {
    if analyzable(config, registry, changed).contains(path) {
        registry.responsible(path)
    } else {
        None
    }
}

/// Whether the files of a commit may be read like that.
pub open spec fn commit_reads<A: LanguageAnalyzer>(
    config: ConfigView,
    registry: RegistryView<A>,
    commit: ChangeView,
    reads: Seq<ReadView>,
) -> bool {
    &&& reads.len() == commit.dug.len()
    &&& forall|i: int|
        0 <= i < reads.len() ==> reads_as(
            wanted(config, registry, commit.changed, commit.dug[i].path),
            commit.dug[i],
            #[trigger] reads[i],
        )
}

/// What a commit contributes whose files were read like that.
pub open spec fn contribution(
    config: ConfigView,
    seq: int,
    commit: ChangeView,
    reads: Seq<ReadView>,
) -> OutcomeView {
    let hits = all_dug_hits(config, reads);
    OutcomeView {
        time: commit.time,
        seq,
        files: included(config, commit.changed),
        symbols: hits.symbols,
        parse_failures: hits.parse_failures,
    }
}

/// Whether a commit may contribute `outcome`: nothing where it is outside the time
/// window or changed no file.
pub open spec fn contributes<A: LanguageAnalyzer>(
    config: ConfigView,
    registry: RegistryView<A>,
    seq: int,
    commit: ChangeView,
    outcome: Option<OutcomeView>,
) -> bool {
    if !config.considers(commit.time) || commit.changed.len() == 0 {
        outcome is None
    } else {
        exists|reads: Seq<ReadView>| #[trigger]
            commit_reads(config, registry, commit, reads) && outcome == Some(
                contribution(config, seq, commit, reads),
            )
    }
}

/// Whether the commits of a walk, newest first, may contribute `outcomes`.
pub open spec fn contribute<A: LanguageAnalyzer>(
    config: ConfigView,
    registry: RegistryView<A>,
    commits: Seq<ChangeView>,
    outcomes: Seq<Option<OutcomeView>>,
) -> bool {
    &&& outcomes.len() == commits.len()
    &&& forall|i: int|
        0 <= i < outcomes.len() ==> contributes(
            config,
            registry,
            i,
            commits[i],
            #[trigger] outcomes[i],
        )
}

/// The result of an analysis of commits that contribute `outcomes`.
pub open spec fn analysis(config: ConfigView, outcomes: Seq<Option<OutcomeView>>) -> ResultView {
    reduced(present(outcomes), config.top, config.filtered())
}

/// With dig-down off no file is parsed: a commit gives no function hits and no
/// parse failures, only file hits.
pub proof fn no_dig_no_hits<A: LanguageAnalyzer>(
    config: ConfigView,
    registry: RegistryView<A>,
    seq: int,
    commit: ChangeView,
    outcome: OutcomeView,
)
    requires
        !config.dig,
        contributes(config, registry, seq, commit, Some(outcome)),
    ensures
        outcome.symbols.len() == 0,
        outcome.parse_failures.len() == 0,
        outcome.files == included(config, commit.changed),
{
    let reads = choose|reads: Seq<ReadView>| #[trigger]
        commit_reads(config, registry, commit, reads) && outcome == contribution(
            config,
            seq,
            commit,
            reads,
        );
    assert forall|i: int| 0 <= i < reads.len() implies (#[trigger] reads[i]).extracted is None by {
        assert(reads_as(
            wanted(config, registry, commit.changed, commit.dug[i].path),
            commit.dug[i],
            reads[i],
        ));
    }
    nothing_extracted(config, reads);
}

proof fn nothing_extracted(config: ConfigView, reads: Seq<ReadView>)
    requires
        forall|i: int| 0 <= i < reads.len() ==> (#[trigger] reads[i]).extracted is None,
    ensures
        all_dug_hits(config, reads) == no_hits(),
    decreases reads.len(),
{
    if reads.len() > 0 {
        let rest = reads.drop_last();
        assert forall|i: int| 0 <= i < rest.len() implies (
        #[trigger] rest[i]).extracted is None by {
            assert(rest[i] == reads[i]);
        }
        nothing_extracted(config, rest);
        assert(reads[reads.len() - 1].extracted is None);
        assert(no_hits().symbols + no_hits().symbols =~= no_hits().symbols);
        assert(no_hits().parse_failures + no_hits().parse_failures =~= no_hits().parse_failures);
    }
}

/// A change that could not be parsed still counts at the file level: the file
/// hits of a commit do not depend on what its files hold.
pub proof fn files_count_without_parsing<A: LanguageAnalyzer, B: LanguageAnalyzer>(
    config: ConfigView,
    a: RegistryView<A>,
    b: RegistryView<B>,
    seq: int,
    commit: ChangeView,
    dug: Seq<DugView>,
    x: Option<OutcomeView>,
    y: Option<OutcomeView>,
)
    requires
        contributes(config, a, seq, commit, x),
        contributes(
            config,
            b,
            seq,
            ChangeView { time: commit.time, changed: commit.changed, dug },
            y,
        ),
    ensures
        match (x, y) {
            (Some(x), Some(y)) => x.files == y.files && x.time == y.time,
            (None, None) => true,
            _ => false,
        },
{
}

/// Whether hits are `before` with `more` behind.
pub open spec fn added(before: HitsView, more: HitsView, after: HitsView) -> bool {
    &&& after.symbols == before.symbols + more.symbols
    &&& after.parse_failures == before.parse_failures + more.parse_failures
}

/// Appends hits for the functions that own the changed lines of the file at
/// `path`, or a parse failure where its symbols could not be extracted.
pub fn record_hits(
    config: &AnalyzeConfig,
    path: &String,
    lines: &Vec<u32>,
    extracted: Result<Vec<Symbol>, AnalyzerError>,
    hits: &mut CommitHits,
)
    ensures
        added(
            old(hits)@,
            file_hits(config@, path@, lines@, symbols_result(extracted)),
            final(hits)@,
        ),
{
    let ghost before = hits@;
    match extracted {
        Ok(symbols) => {
            let touched = credited(&symbols, lines, config.max_depth, config.attribution);
            let ghost more = hits_at(path@, symbol_views(touched@));
            let mut i: usize = 0;
            assert(before.symbols + more.take(0) =~= before.symbols);
            while i < touched.len()
                invariant
                    i <= touched@.len() == more.len(),
                    more == hits_at(path@, symbol_views(touched@)),
                    hits@.symbols == before.symbols + more.take(i as int),
                    hits@.parse_failures == before.parse_failures,
                decreases touched@.len() - i,
            {
                let ghost so_far = hits@.symbols;
                let symbol = &touched[i];
                let hit = SymbolHit {
                    path: path.clone(),
                    name: symbol.name.clone(),
                    start_line: symbol.start_line,
                    end_line: symbol.end_line,
                    depth: symbol.depth,
                };
                assert(symbol_views(touched@)[i as int] == symbol@);
                assert(more[i as int] == hit@);
                hits.symbols.push(hit);
                assert(hits@.symbols =~= so_far.push(hit@));
                assert(before.symbols + more.take(i + 1) =~= so_far.push(more[i as int]));
                i += 1;
            }
            assert(more.take(i as int) =~= more);
            assert(before.parse_failures =~= before.parse_failures + Seq::<Seq<char>>::empty());
        },
        Err(_) => {
            hits.parse_failures.push(path.clone());
            assert(hits@.parse_failures =~= before.parse_failures + seq![path@]);
            assert(hits@.symbols =~= before.symbols + Seq::<HitView>::empty());
        },
    }
}

/// Attributes one changed file's lines to the function(s) that own them,
/// appending the hits to `hits.symbols`. A path whose analyzer fails to parse this
/// revision is recorded in `hits.parse_failures`.
pub fn collect_hits<A: LanguageAnalyzer>(
    registry: &AnalyzerRegistry<A>,
    file: &DugFile,
    config: &AnalyzeConfig,
    hits: &mut CommitHits,
)
    requires
        registry.well_formed(),
    ensures
        (exists|read: ReadView| #[trigger]
            reads_as(registry@.responsible(file@.path), file@, read) && added(
                old(hits)@,
                dug_hits(config@, read),
                final(hits)@,
            )),
{
    let ghost before = hits@;
    let ghost none = ReadView { path: file@.path, lines: file@.lines, extracted: None };
    assert(added(before, no_hits(), before)) by {
        assert(before.symbols =~= before.symbols + Seq::<HitView>::empty());
        assert(before.parse_failures =~= before.parse_failures + Seq::<Seq<char>>::empty());
    }
    let analyzer = match registry.for_path(file.path.as_str()) {
        Some(analyzer) => analyzer,
        None => {
            assert(reads_as(registry@.responsible(file@.path), file@, none));
            return;
        },
    };
    let content = match &file.content {
        Some(content) => content,
        None => {
            assert(reads_as(registry@.responsible(file@.path), file@, none));
            return;
        },
    };
    let extracted = analyzer.extract_symbols(file.path.as_str(), content.as_str());
    let ghost read = ReadView {
        path: file@.path,
        lines: file@.lines,
        extracted: Some(symbols_result(extracted)),
    };
    record_hits(config, &file.path, &file.lines, extracted, hits);
    assert(reads_as(registry@.responsible(file@.path), file@, read));
}

/// The changed paths of a commit that are dug into.
pub fn dig_paths<A: LanguageAnalyzer>(
    config: &AnalyzeConfig,
    registry: &AnalyzerRegistry<A>,
    changed: &Vec<String>,
) -> (paths: Vec<String>)
    requires
        registry.well_formed(),
    ensures
        texts(paths@) == analyzable(config@, registry@, texts(changed@)),
{
    let ghost all = texts(changed@);
    let mut paths: Vec<String> = Vec::new();
    assert(texts(paths@) =~= Seq::empty());
    if !config.dig {
        return paths;
    }
    let mut i: usize = 0;
    assert(all.take(0) =~= Seq::empty());
    while i < changed.len()
        invariant
            i <= changed@.len() == all.len(),
            all == texts(changed@),
            config.dig,
            registry.well_formed(),
            texts(paths@) == analyzable(config@, registry@, all.take(i as int)),
        decreases changed@.len() - i,
    {
        let ghost before = texts(paths@);
        let path = changed[i].as_str();
        assert(all.take(i + 1).drop_last() =~= all.take(i as int));
        assert(all.take(i + 1).last() == path@);
        if config.path_included(path) && registry.for_path(path).is_some() {
            paths.push(changed[i].clone());
            assert(texts(paths@) =~= before.push(path@));
        }
        i += 1;
    }
    assert(all.take(i as int) =~= all);
    paths
}

/// The changed paths of a commit that pass the filters.
pub fn included_paths(config: &AnalyzeConfig, changed: &Vec<String>) -> (files: Vec<String>)
    ensures
        texts(files@) == included(config@, texts(changed@)),
{
    let ghost all = texts(changed@);
    let mut files: Vec<String> = Vec::new();
    let mut i: usize = 0;
    assert(texts(files@) =~= Seq::empty());
    assert(all.take(0) =~= Seq::empty());
    while i < changed.len()
        invariant
            i <= changed@.len() == all.len(),
            all == texts(changed@),
            texts(files@) == included(config@, all.take(i as int)),
        decreases changed@.len() - i,
    {
        let ghost before = texts(files@);
        let path = changed[i].as_str();
        assert(all.take(i + 1).drop_last() =~= all.take(i as int));
        assert(all.take(i + 1).last() == path@);
        if config.path_included(path) {
            files.push(changed[i].clone());
            assert(texts(files@) =~= before.push(path@));
        }
        i += 1;
    }
    assert(all.take(i as int) =~= all);
    files
}

/// What an optional outcome stands for.
pub open spec fn outcome_view(outcome: Option<CommitOutcome>) -> Option<OutcomeView> {
    match outcome {
        Some(o) => Some(o@),
        None => None,
    }
}

/// Computes one commit's contribution. Returns `None` for commits outside the time
/// window or that changed no files. Only the changed paths that are to be dug into are.
pub fn analyze_commit<A: LanguageAnalyzer>(
    config: &AnalyzeConfig,
    registry: &AnalyzerRegistry<A>,
    seq: usize,
    commit: &CommitChange,
) -> (outcome: Option<CommitOutcome>)
    requires
        registry.well_formed(),
    ensures
        contributes(config@, registry@, seq as int, commit@, outcome_view(outcome)),
{
    if !config.in_window(commit.time) || commit.changed.len() == 0 {
        return None;
    }
    let files = included_paths(config, &commit.changed);
    let paths = dig_paths(config, registry, &commit.changed);
    let asked = TextSet::of(&paths);
    let mut hits = CommitHits { symbols: Vec::new(), parse_failures: Vec::new() };
    let ghost dug = commit@.dug;
    let ghost mut reads: Seq<ReadView> = Seq::empty();
    let mut i: usize = 0;
    proof {
        distinct_keeps_each_once(texts(paths@));
        assert(hits@.symbols =~= Seq::empty());
        assert(hits@.parse_failures =~= Seq::empty());
    }
    while i < commit.dug.len()
        invariant
            i <= commit.dug@.len() == dug.len(),
            dug == commit@.dug,
            registry.well_formed(),
            asked.well_formed(),
            forall|path: Seq<char>| #[trigger]
                texts(asked.list@).contains(path) <==> analyzable(
                    config@,
                    registry@,
                    commit@.changed,
                ).contains(path),
            reads.len() == i,
            forall|j: int|
                0 <= j < i ==> reads_as(
                    wanted(config@, registry@, commit@.changed, dug[j].path),
                    dug[j],
                    #[trigger] reads[j],
                ),
            hits@ == all_dug_hits(config@, reads),
        decreases commit.dug@.len() - i,
    {
        let file = &commit.dug[i];
        let ghost before = hits@;
        let ghost so_far = reads;
        let ghost analyzer = wanted(config@, registry@, commit@.changed, file@.path);
        assert(dug[i as int] == file@);
        let ghost mut read = ReadView { path: file@.path, lines: file@.lines, extracted: None };
        if asked.contains(&file.path) {
            collect_hits(registry, file, config, &mut hits);
            proof {
                read = choose|read: ReadView| #[trigger]
                    reads_as(registry@.responsible(file@.path), file@, read) && added(
                        before,
                        dug_hits(config@, read),
                        hits@,
                    );
            }
        }
        proof {
            assert(reads_as(analyzer, file@, read));
            reads = so_far.push(read);
            assert(reads.drop_last() =~= so_far);
            assert(hits@.symbols =~= before.symbols + dug_hits(config@, read).symbols);
            assert(hits@.parse_failures =~= before.parse_failures + dug_hits(
                config@,
                read,
            ).parse_failures);
        }
        i += 1;
    }
    let outcome = CommitOutcome {
        time: commit.time,
        seq,
        files,
        symbols: hits.symbols,
        parse_failures: hits.parse_failures,
    };
    proof {
        assert(outcome@.symbols =~= hits@.symbols);
        assert(commit_reads(config@, registry@, commit@, reads));
        assert(outcome@ == contribution(config@, seq as int, commit@, reads));
    }
    Some(outcome)
}

/// The paths that the commits in the time window changed, one commit after the
/// other.
pub open spec fn changed_paths(config: ConfigView, commits: Seq<ChangeView>) -> Seq<Seq<char>>
    decreases commits.len(),
{
    if commits.len() == 0 {
        Seq::empty()
    } else {
        let before = changed_paths(config, commits.drop_last());
        if config.considers(commits.last().time) {
            before + commits.last().changed
        } else {
            before
        }
    }
}

/// The paths of files.
pub open spec fn paths_of(files: Seq<DugView>) -> Seq<Seq<char>> {
    files.map_values(|file: DugView| file.path)
}

/// The paths that the commits in the time window were dug into, one commit after the
/// other.
pub open spec fn dug_paths(config: ConfigView, commits: Seq<ChangeView>) -> Seq<Seq<char>>
    decreases commits.len(),
{
    if commits.len() == 0 {
        Seq::empty()
    } else {
        let before = dug_paths(config, commits.drop_last());
        if config.considers(commits.last().time) {
            before + paths_of(commits.last().dug)
        } else {
            before
        }
    }
}

/// Whether no row of an analysis counts more than it can hold: a file is counted at
/// most as often as it was changed, and a function at most as often as its file was
/// dug into.
pub open spec fn rows_fit(config: ConfigView, commits: Seq<ChangeView>) -> bool {
    &&& forall|path: Seq<char>| #[trigger]
        occurrences(changed_paths(config, commits), path) <= u32::MAX
    &&& forall|path: Seq<char>| #[trigger]
        occurrences(dug_paths(config, commits), path) <= u32::MAX
}

/// What commits stand for.
pub open spec fn change_views(commits: Seq<CommitChange>) -> Seq<ChangeView> {
    commits.map_values(|c: CommitChange| c@)
}

/// Analyzes the commits of a walk, newest first.
pub fn analyze<A: LanguageAnalyzer>(
    config: &AnalyzeConfig,
    registry: &AnalyzerRegistry<A>,
    commits: &Vec<CommitChange>,
) -> (result: AnalysisResult)
    requires
        registry.well_formed(),
        rows_fit(config@, change_views(commits@)),
    ensures
        (exists|outcomes: Seq<Option<OutcomeView>>| #[trigger]
            contribute(config@, registry@, change_views(commits@), outcomes) && result@
                == analysis(config@, outcomes)),
{
    let ghost all = change_views(commits@);
    let mut outcomes: Vec<Option<CommitOutcome>> = Vec::new();
    let mut seq: usize = 0;
    while seq < commits.len()
        invariant
            seq <= commits@.len() == all.len(),
            all == change_views(commits@),
            registry.well_formed(),
            outcome_views(outcomes@).len() == seq,
            forall|i: int|
                0 <= i < seq ==> contributes(
                    config@,
                    registry@,
                    i,
                    all[i],
                    #[trigger] outcome_views(outcomes@)[i],
                ),
        decreases commits@.len() - seq,
    {
        let ghost before = outcomes@;
        assert(all[seq as int] == commits@[seq as int]@);
        let outcome = analyze_commit(config, registry, seq, &commits[seq]);
        outcomes.push(outcome);
        assert(outcome_views(outcomes@) =~= outcome_views(before).push(outcome_view(outcome)));
        seq += 1;
    }
    proof {
        outcomes_are_countable(config@, registry@, all, outcome_views(outcomes@));
    }
    reduce_outcomes(outcomes, config.top, config.glob_filtered())
}

/// No row of an analysis counts a file more often than it was changed, or a function
/// more often than its file was dug into.
proof fn outcomes_are_countable<A: LanguageAnalyzer>(
    config: ConfigView,
    registry: RegistryView<A>,
    commits: Seq<ChangeView>,
    outcomes: Seq<Option<OutcomeView>>,
)
    requires
        contribute(config, registry, commits, outcomes),
        rows_fit(config, commits),
    ensures
        countable(present(outcomes)),
{
    let list = present(outcomes);
    assert forall|path: Seq<char>| #[trigger] occurrences(all_files(list), path) <= u32::MAX by {
        files_bounded(config, registry, commits, outcomes, path);
    }
    assert forall|key: (Seq<char>, Seq<char>)| #[trigger]
        of_key(all_sightings(list), key).len() <= u32::MAX by {
        sightings_bounded(config, registry, commits, outcomes, key);
    }
}

proof fn included_bounded(config: ConfigView, changed: Seq<Seq<char>>, path: Seq<char>)
    ensures
        occurrences(included(config, changed), path) <= occurrences(changed, path),
    decreases changed.len(),
{
    if changed.len() > 0 {
        let before = included(config, changed.drop_last());
        included_bounded(config, changed.drop_last(), path);
        assert(before.push(changed.last()).drop_last() =~= before);
    }
}

/// What was contributed up to the last commit.
pub(crate) proof fn contributed_before<A: LanguageAnalyzer>(
    config: ConfigView,
    registry: RegistryView<A>,
    commits: Seq<ChangeView>,
    outcomes: Seq<Option<OutcomeView>>,
)
    requires
        contribute(config, registry, commits, outcomes),
        commits.len() > 0,
    ensures
        contribute(config, registry, commits.drop_last(), outcomes.drop_last()),
        contributes(config, registry, commits.len() - 1, commits.last(), outcomes.last()),
{
    let rest = outcomes.drop_last();
    assert forall|i: int| 0 <= i < rest.len() implies contributes(
        config,
        registry,
        i,
        commits.drop_last()[i],
        #[trigger] rest[i],
    ) by {
        assert(rest[i] == outcomes[i]);
    }
    assert(outcomes[outcomes.len() - 1] == outcomes.last());
}

proof fn files_bounded<A: LanguageAnalyzer>(
    config: ConfigView,
    registry: RegistryView<A>,
    commits: Seq<ChangeView>,
    outcomes: Seq<Option<OutcomeView>>,
    path: Seq<char>,
)
    requires
        contribute(config, registry, commits, outcomes),
    ensures
        occurrences(all_files(present(outcomes)), path) <= occurrences(
            changed_paths(config, commits),
            path,
        ),
    decreases commits.len(),
{
    if commits.len() > 0 {
        contributed_before(config, registry, commits, outcomes);
        files_bounded(config, registry, commits.drop_last(), outcomes.drop_last(), path);
        included_bounded(config, commits.last().changed, path);
        occurrences_add(
            changed_paths(config, commits.drop_last()),
            commits.last().changed,
            path,
        );
        let before = present(outcomes.drop_last());
        match outcomes.last() {
            Some(outcome) => {
                assert(before.push(outcome).drop_last() =~= before);
                occurrences_add(all_files(before), outcome.files, path);
            },
            None => {},
        }
    }
}

/// The number of hits with the given path and name.
spec fn hit_count(hits: Seq<HitView>, key: (Seq<char>, Seq<char>)) -> nat
    decreases hits.len(),
{
    if hits.len() == 0 {
        0
    } else {
        hit_count(hits.drop_last(), key) + if (hits.last().path, hits.last().name) == key {
            1nat
        } else {
            0
        }
    }
}

proof fn hit_count_adds(a: Seq<HitView>, b: Seq<HitView>, key: (Seq<char>, Seq<char>))
    ensures
        hit_count(a + b, key) == hit_count(a, key) + hit_count(b, key),
    decreases b.len(),
{
    if b.len() > 0 {
        hit_count_adds(a, b.drop_last(), key);
        assert((a + b).drop_last() =~= a + b.drop_last());
    } else {
        assert(a + b =~= a);
    }
}

proof fn no_hit(hits: Seq<HitView>, key: (Seq<char>, Seq<char>))
    requires
        forall|i: int|
            0 <= i < hits.len() ==> ((#[trigger] hits[i]).path, hits[i].name) != key,
    ensures
        hit_count(hits, key) == 0,
    decreases hits.len(),
{
    if hits.len() > 0 {
        assert(hits.last() == hits[hits.len() - 1]);
        let rest = hits.drop_last();
        assert forall|i: int| 0 <= i < rest.len() implies ((#[trigger] rest[i]).path, rest[i].name)
            != key by {
            assert(rest[i] == hits[i]);
        }
        no_hit(rest, key);
    }
}

/// Hits with different names count each name at most once.
proof fn different_names_count_once(hits: Seq<HitView>, key: (Seq<char>, Seq<char>))
    requires
        forall|i: int, j: int|
            0 <= i < j < hits.len() ==> (#[trigger] hits[i]).name != (#[trigger] hits[j]).name,
    ensures
        hit_count(hits, key) <= 1,
    decreases hits.len(),
{
    if hits.len() > 0 {
        let rest = hits.drop_last();
        assert forall|i: int, j: int| 0 <= i < j < rest.len() implies (#[trigger] rest[i]).name != (
        #[trigger] rest[j]).name by {
            assert(rest[i] == hits[i] && rest[j] == hits[j]);
        }
        if (hits.last().path, hits.last().name) == key {
            assert forall|i: int| 0 <= i < rest.len() implies (
                (#[trigger] rest[i]).path,
                rest[i].name,
            ) != key by {
                assert(hits[i].name != hits[hits.len() - 1].name);
            }
            no_hit(rest, key);
        } else {
            different_names_count_once(rest, key);
        }
    }
}

/// A file gives each of its functions at most one hit, and those of other files none.
proof fn one_hit_per_file(config: ConfigView, read: ReadView, key: (Seq<char>, Seq<char>))
    ensures
        hit_count(dug_hits(config, read).symbols, key) <= if read.path == key.0 {
            1nat
        } else {
            0
        },
{
    match read.extracted {
        Some(Ok(symbols)) => {
            credited_once(symbols, read.lines, config.max_depth, config.attribution);
            let list = credits(symbols, read.lines, config.max_depth, config.attribution);
            let hits = hits_at(read.path, list);
            if read.path == key.0 {
                assert forall|i: int, j: int| 0 <= i < j < hits.len() implies (
                #[trigger] hits[i]).name != (#[trigger] hits[j]).name by {
                    assert(list[i].name != list[j].name);
                }
                different_names_count_once(hits, key);
            } else {
                no_hit(hits, key);
            }
        },
        _ => {},
    }
}

/// The paths of files that were read.
spec fn read_paths(reads: Seq<ReadView>) -> Seq<Seq<char>> {
    reads.map_values(|read: ReadView| read.path)
}

proof fn dug_hits_bounded(config: ConfigView, reads: Seq<ReadView>, key: (Seq<char>, Seq<char>))
    ensures
        hit_count(all_dug_hits(config, reads).symbols, key) <= occurrences(
            read_paths(reads),
            key.0,
        ),
    decreases reads.len(),
{
    if reads.len() > 0 {
        dug_hits_bounded(config, reads.drop_last(), key);
        one_hit_per_file(config, reads.last(), key);
        assert(read_paths(reads).drop_last() =~= read_paths(reads.drop_last()));
        hit_count_adds(
            all_dug_hits(config, reads.drop_last()).symbols,
            dug_hits(config, reads.last()).symbols,
            key,
        );
    }
}

proof fn of_key_adds(
    a: Seq<super::reduce::Sighting>,
    b: Seq<super::reduce::Sighting>,
    key: (Seq<char>, Seq<char>),
)
    ensures
        of_key(a + b, key).len() == of_key(a, key).len() + of_key(b, key).len(),
    decreases b.len(),
{
    if b.len() > 0 {
        of_key_adds(a, b.drop_last(), key);
        assert((a + b).drop_last() =~= a + b.drop_last());
    } else {
        assert(a + b =~= a);
    }
}

proof fn sightings_count_hits(outcome: OutcomeView, n: int, key: (Seq<char>, Seq<char>))
    requires
        0 <= n <= outcome.symbols.len(),
    ensures
        of_key(sightings_in(outcome).take(n), key).len() == hit_count(
            outcome.symbols.take(n),
            key,
        ),
    decreases n,
{
    let all = sightings_in(outcome);
    if n > 0 {
        sightings_count_hits(outcome, n - 1, key);
        assert(all.take(n).drop_last() =~= all.take(n - 1));
        assert(outcome.symbols.take(n).drop_last() =~= outcome.symbols.take(n - 1));
        assert(all.take(n).last().hit == outcome.symbols.take(n).last());
    }
}

proof fn sightings_bounded<A: LanguageAnalyzer>(
    config: ConfigView,
    registry: RegistryView<A>,
    commits: Seq<ChangeView>,
    outcomes: Seq<Option<OutcomeView>>,
    key: (Seq<char>, Seq<char>),
)
    requires
        contribute(config, registry, commits, outcomes),
    ensures
        of_key(all_sightings(present(outcomes)), key).len() <= occurrences(
            dug_paths(config, commits),
            key.0,
        ),
    decreases commits.len(),
{
    if commits.len() > 0 {
        contributed_before(config, registry, commits, outcomes);
        sightings_bounded(config, registry, commits.drop_last(), outcomes.drop_last(), key);
        occurrences_add(
            dug_paths(config, commits.drop_last()),
            paths_of(commits.last().dug),
            key.0,
        );
        let before = present(outcomes.drop_last());
        match outcomes.last() {
            Some(outcome) => {
                let reads = choose|reads: Seq<ReadView>| #[trigger]
                    commit_reads(config, registry, commits.last(), reads) && outcome
                        == contribution(config, commits.len() - 1, commits.last(), reads);
                assert(before.push(outcome).drop_last() =~= before);
                of_key_adds(all_sightings(before), sightings_in(outcome), key);
                let n = outcome.symbols.len() as int;
                sightings_count_hits(outcome, n, key);
                assert(sightings_in(outcome).take(n) =~= sightings_in(outcome));
                assert(outcome.symbols.take(n) =~= outcome.symbols);
                dug_hits_bounded(config, reads, key);
                assert(read_paths(reads) =~= paths_of(commits.last().dug));
            },
            None => {},
        }
    }
}

} // verus!
