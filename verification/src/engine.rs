//! Analysis engine: ties git history together with the language plugins to
//! produce the file-level and (optionally) function-level change leaderboards.
use vstd::prelude::*;

use crate::text::texts;

pub mod attribution;
pub mod choice;
pub mod commit;
pub mod laws;
pub mod ranking;
pub mod reduce;

verus! {

/// How a changed line is attributed to nested functions.
#[derive(Clone, Copy, Debug, PartialEq, Eq, Structural)]
pub enum Attribution {
    /// Attribute a change only to the single deepest enclosing function, so
    /// parent and child counts never overlap.
    Innermost,
    /// Attribute a change to every enclosing function; nested changes roll up
    /// into all ancestors.
    Inclusive,
}

/// How many commits changed a given file.
#[derive(Debug)]
pub struct FileStat {
    pub path: String,
    pub changes: u32,
}

/// What a [`FileStat`] stands for.
pub struct FileStatView {
    pub path: Seq<char>,
    pub changes: int,
}

impl View for FileStat {
    type V = FileStatView;

    open spec fn view(&self) -> FileStatView {
        FileStatView { path: self.path@, changes: self.changes as int }
    }
}

/// How many commits changed a given function/method within a file.
#[derive(Debug)]
pub struct SymbolStat {
    pub path: String,
    pub symbol: String,
    pub changes: u32,
    /// Line range of the symbol as of the most recent commit that touched it.
    pub start_line: u32,
    pub end_line: u32,
    /// Function-nesting depth (see [`crate::analyzer::Symbol::depth`]).
    pub depth: u32,
}

/// What a [`SymbolStat`] stands for.
pub struct SymbolStatView {
    pub path: Seq<char>,
    pub symbol: Seq<char>,
    pub changes: int,
    pub start_line: int,
    pub end_line: int,
    pub depth: int,
}

impl View for SymbolStat {
    type V = SymbolStatView;

    open spec fn view(&self) -> SymbolStatView {
        SymbolStatView {
            path: self.path@,
            symbol: self.symbol@,
            changes: self.changes as int,
            start_line: self.start_line as int,
            end_line: self.end_line as int,
            depth: self.depth as int,
        }
    }
}

/// A single function/method credited with a change in one commit.
#[derive(Debug)]
pub struct SymbolHit {
    pub path: String,
    pub name: String,
    pub start_line: u32,
    pub end_line: u32,
    pub depth: u32,
}

/// What a [`SymbolHit`] stands for.
pub struct HitView {
    pub path: Seq<char>,
    pub name: Seq<char>,
    pub start_line: int,
    pub end_line: int,
    pub depth: int,
}

impl View for SymbolHit {
    type V = HitView;

    open spec fn view(&self) -> HitView {
        HitView {
            path: self.path@,
            name: self.name@,
            start_line: self.start_line as int,
            end_line: self.end_line as int,
            depth: self.depth as int,
        }
    }
}

/// What one commit contributes, computed independently on a worker thread.
#[derive(Debug)]
pub struct CommitOutcome {
    pub time: i64,
    /// Position in the walk (0 = newest); used to break ties between times.
    pub seq: usize,
    /// Paths (matching the filters) the commit changed; each is one file hit.
    pub files: Vec<String>,
    /// Function/method hits, already de-duplicated within this commit.
    pub symbols: Vec<SymbolHit>,
    /// Paths whose analyzer failed to parse this commit's revision, so dig-down
    /// fell back to file-level counting for them.
    pub parse_failures: Vec<String>,
}

/// What a [`CommitOutcome`] stands for.
pub struct OutcomeView {
    pub time: int,
    pub seq: int,
    pub files: Seq<Seq<char>>,
    pub symbols: Seq<HitView>,
    pub parse_failures: Seq<Seq<char>>,
}

impl View for CommitOutcome {
    type V = OutcomeView;

    open spec fn view(&self) -> OutcomeView {
        OutcomeView {
            time: self.time as int,
            seq: self.seq as int,
            files: texts(self.files@),
            symbols: self.symbols@.map_values(|h: SymbolHit| h@),
            parse_failures: texts(self.parse_failures@),
        }
    }
}

/// The outcome of an analysis run.
#[derive(Debug)]
pub struct AnalysisResult {
    pub commit_count: usize,
    /// Earliest and latest commit time (Unix seconds) actually analyzed, if any.
    pub period: Option<(i64, i64)>,
    /// Whether a glob filter was applied (used to explain empty results).
    pub glob_filtered: bool,
    /// Total distinct files that changed and passed the filters, before any
    /// truncation of the leaderboard.
    pub total_files: usize,
    /// Distinct files an analyzer failed to parse at some revision (dig-down fell
    /// back to file-level counting for them), sorted by path. Empty when dig-down
    /// is disabled or every file parsed cleanly.
    pub parse_failures: Vec<String>,
    pub files: Vec<FileStat>,
    pub symbols: Vec<SymbolStat>,
}

/// What an [`AnalysisResult`] stands for.
pub struct ResultView {
    pub commit_count: nat,
    pub period: Option<(int, int)>,
    pub glob_filtered: bool,
    pub total_files: nat,
    pub parse_failures: Seq<Seq<char>>,
    pub files: Seq<FileStatView>,
    pub symbols: Seq<SymbolStatView>,
}

impl View for AnalysisResult {
    type V = ResultView;

    open spec fn view(&self) -> ResultView {
        ResultView {
            commit_count: self.commit_count as nat,
            period: match self.period {
                Some((from, to)) => Some((from as int, to as int)),
                None => None,
            },
            glob_filtered: self.glob_filtered,
            total_files: self.total_files as nat,
            parse_failures: texts(self.parse_failures@),
            files: self.files@.map_values(|f: FileStat| f@),
            symbols: self.symbols@.map_values(|s: SymbolStat| s@),
        }
    }
}

} // verus!
