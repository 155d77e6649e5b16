//! Command-line options and what they come down to.
use vstd::prelude::*;

use crate::dates::{DATE_FORMAT, DAY, day_number, parse_timestamp};
use crate::engine::Attribution;
use crate::globs::{
    GlobView, add_glob, build_set, builder_globs, globs_fit, new_builder, reads_as_glob,
    set_globs,
};
use crate::text::{chars_of, text_from, text_option, texts};

verus! {

/// What was asked for on the command line.
pub struct Cli {
    /// Path to the git repository to analyze. The repository is discovered by
    /// searching upward from here, so a subdirectory works too.
    pub repo: String,
    /// Path to a config file. Otherwise one is discovered by searching upward
    /// from `repo`.
    pub config: Option<String>,
    /// Only consider commits on or after this date (YYYY-MM-DD).
    pub since: Option<String>,
    /// Only consider commits on or before this date (YYYY-MM-DD).
    pub until: Option<String>,
    /// Stop walking history at this commit (inclusive). Takes precedence over
    /// `since` and `until`.
    pub since_commit: Option<String>,
    /// Walk back at most this many commits from HEAD. Takes precedence over
    /// `since` and `until`, but `since_commit` wins over it. 0 is no limit.
    pub max_commits: usize,
    /// Globs of files to keep. None keeps every file.
    pub globs: Vec<String>,
    /// Globs of files to exclude. Applied after the globs of files to keep.
    pub exclude: Vec<String>,
    /// Show only the top N rows of each leaderboard. 0 is no limit.
    pub top: usize,
    /// Skip the function / method-level dig-down and report only the file
    /// leaderboard.
    pub no_dig: bool,
    /// Largest function-nesting depth to report (1 = top-level only). Functions
    /// nested deeper are ignored.
    pub max_depth: Option<u32>,
    /// How a change inside a nested function is counted.
    pub nested: Attribution,
    /// Render human-readable tables instead of JSON.
    pub table: bool,
    /// Number of worker threads. None is the number of logical CPUs.
    pub jobs: Option<usize>,
}

/// Why the command line cannot be followed.
pub enum CliError {
    /// A date that cannot be read.
    Date { text: String, reason: chrono::ParseError },
    /// A glob that cannot be read.
    Glob { pattern: String, cause: globset::Error },
    /// Globs that cannot be built into one set.
    Globs { cause: globset::Error },
}

/// What a [`CliError`] stands for.
pub enum CliErrorView {
    Date(Seq<char>),
    Glob(Seq<char>),
    Globs,
}

impl View for CliError {
    type V = CliErrorView;

    open spec fn view(&self) -> CliErrorView {
        match self {
            CliError::Date { text, .. } => CliErrorView::Date(text@),
            CliError::Glob { pattern, .. } => CliErrorView::Glob(pattern@),
            CliError::Globs { .. } => CliErrorView::Globs,
        }
    }
}

/// What is said of an error.
pub open spec fn error_message(error: CliErrorView) -> Seq<char> {
    match error {
        CliErrorView::Date(text) => "invalid date '"@ + text + "', expected YYYY-MM-DD"@,
        CliErrorView::Glob(pattern) => "invalid glob pattern: '"@ + pattern + "'"@,
        CliErrorView::Globs => "the glob patterns are too large"@,
    }
}

impl CliError {
    /// What is said of this error.
    pub fn message(&self) -> (message: String)
        ensures
            message@ == error_message(self@),
    {
        match self {
            CliError::Date { text, .. } => {
                let mut message = "invalid date '".to_string();
                message.append(text.as_str());
                message.append("', expected YYYY-MM-DD");
                message
            },
            CliError::Glob { pattern, .. } => {
                let mut message = "invalid glob pattern: '".to_string();
                message.append(pattern.as_str());
                message.append("'");
                message
            },
            CliError::Globs { .. } => "the glob patterns are too large".to_string(),
        }
    }
}

/// The bound that an optional date gives: so many seconds into its day (UTC).
pub open spec fn date_bound(date: Option<Seq<char>>, seconds: int) -> Result<
    Option<int>,
    CliErrorView,
> {
    match date {
        Some(text) => match day_number(text, DATE_FORMAT@) {
            Some(day) => Ok(Some(day * DAY + seconds)),
            None => Err(CliErrorView::Date(text)),
        },
        None => Ok(None),
    }
}

/// What an attempt to read a bound gave.
pub open spec fn bound_outcome(attempt: Result<Option<i64>, CliError>) -> Result<
    Option<int>,
    CliErrorView,
> {
    match attempt {
        Ok(Some(t)) => Ok(Some(t as int)),
        Ok(None) => Ok(None),
        Err(e) => Err(e@),
    }
}

/// A pattern without the `./` at its start, however often it stands there.
pub open spec fn peeled(pattern: Seq<char>) -> Seq<char>
    decreases pattern.len(),
{
    if pattern.len() >= 2 && pattern[0] == '.' && pattern[1] == '/' {
        peeled(pattern.skip(2))
    } else {
        pattern
    }
}

/// The globs of patterns, or the first pattern that is none.
pub open spec fn globs_of(patterns: Seq<Seq<char>>) -> Result<Seq<GlobView>, CliErrorView>
    decreases patterns.len(),
{
    if patterns.len() == 0 {
        Ok(Seq::empty())
    } else {
        match globs_of(patterns.drop_last()) {
            Ok(globs) => {
                let pattern = peeled(patterns.last());
                if reads_as_glob(pattern, true) {
                    Ok(globs.push(GlobView { pattern, literal_separator: true }))
                } else {
                    Err(CliErrorView::Glob(pattern))
                }
            },
            Err(e) => Err(e),
        }
    }
}

/// The filter that patterns make: none for no patterns, otherwise their globs.
pub open spec fn filter_of(patterns: Seq<Seq<char>>) -> Result<
    Option<Seq<GlobView>>,
    CliErrorView,
> {
    if patterns.len() == 0 {
        Ok(None)
    } else {
        match globs_of(patterns) {
            Ok(globs) => if globs_fit(globs) {
                Ok(Some(globs))
            } else {
                Err(CliErrorView::Globs)
            },
            Err(e) => Err(e),
        }
    }
}

/// What an attempt to build a filter gave.
pub open spec fn filter_outcome(attempt: Result<Option<globset::GlobSet>, CliError>) -> Result<
    Option<Seq<GlobView>>,
    CliErrorView,
> {
    match attempt {
        Ok(Some(set)) => Ok(Some(set_globs(set))),
        Ok(None) => Ok(None),
        Err(e) => Err(e@),
    }
}

/// A bound where 0 stands for none.
pub open spec fn unless_zero(n: usize) -> Option<usize> {
    if n == 0 {
        None
    } else {
        Some(n)
    }
}

impl Cli {
    /// `since` as an inclusive lower-bound Unix timestamp (start of day, UTC).
    pub fn since_timestamp(&self) -> (bound: Result<Option<i64>, CliError>)
        ensures
            bound_outcome(bound) == date_bound(text_option(self.since), 0),
    {
        timestamp_of(&self.since, 0, 0, 0)
    }

    /// `until` as an inclusive upper-bound Unix timestamp (end of day, UTC).
    pub fn until_timestamp(&self) -> (bound: Result<Option<i64>, CliError>)
        ensures
            bound_outcome(bound) == date_bound(text_option(self.until), DAY - 1),
    {
        timestamp_of(&self.until, 23, 59, 59)
    }

    /// The filter of files to keep, or `None` when no globs were given.
    pub fn include_globset(&self) -> (set: Result<Option<globset::GlobSet>, CliError>)
        ensures
            filter_outcome(set) == filter_of(texts(self.globs@)),
    {
        build_globset(&self.globs)
    }

    /// The filter of files to drop, or `None` when no excludes were given.
    pub fn exclude_globset(&self) -> (set: Result<Option<globset::GlobSet>, CliError>)
        ensures
            filter_outcome(set) == filter_of(texts(self.exclude@)),
    {
        build_globset(&self.exclude)
    }

    /// `top` as an `Option`, where 0 means "no limit".
    pub fn top_limit(&self) -> (limit: Option<usize>)
        ensures
            limit == unless_zero(self.top),
    {
        if self.top == 0 {
            None
        } else {
            Some(self.top)
        }
    }

    /// `max_commits` as an `Option`, where 0 means "no limit".
    pub fn max_commits_limit(&self) -> (limit: Option<usize>)
        ensures
            limit == unless_zero(self.max_commits),
    {
        if self.max_commits == 0 {
            None
        } else {
            Some(self.max_commits)
        }
    }
}

/// The two bounds that one date gives are the first and the last second of that
/// day: a window from a date to the same date holds the whole day.
pub proof fn one_day_is_whole(date: Seq<char>)
    requires
        day_number(date, DATE_FORMAT@) is Some,
    ensures
        date_bound(Some(date), 0) matches Ok(Some(first)) && date_bound(
            Some(date),
            DAY - 1,
        ) matches Ok(Some(last)) && last - first == DAY - 1,
{
}

fn timestamp_of(date: &Option<String>, hour: u32, minute: u32, second: u32) -> (bound: Result<
    Option<i64>,
    CliError,
>)
    requires
        hour < 24,
        minute < 60,
        second < 60,
    ensures
        bound_outcome(bound) == date_bound(
            text_option(*date),
            hour * 3600 + minute * 60 + second,
        ),
{
    match date {
        Some(text) => match parse_timestamp(
            text.as_str(),
            DATE_FORMAT,
            hour,
            minute,
            second,
        ) {
            Ok(t) => Ok(Some(t)),
            Err(reason) => Err(CliError::Date { text: text.clone(), reason }),
        },
        None => Ok(None),
    }
}

/// The filter that `patterns` make, or `None` when there are none. A pattern that
/// stops at `/` behaves like a familiar shell glob (`**` crosses directories).
pub fn build_globset(patterns: &Vec<String>) -> (set: Result<Option<globset::GlobSet>, CliError>)
    ensures
        filter_outcome(set) == filter_of(texts(patterns@)),
{
    if patterns.len() == 0 {
        return Ok(None);
    }
    let ghost views = texts(patterns@);
    let mut builder = new_builder();
    let mut i: usize = 0;
    assert(views.take(0) =~= Seq::empty());
    while i < patterns.len()
        invariant
            i <= patterns@.len() == views.len(),
            views == texts(patterns@),
            views.len() > 0,
            globs_of(views.take(i as int)) == Ok::<_, CliErrorView>(builder_globs(builder)),
        decreases patterns@.len() - i,
    {
        // git paths are repo-root-relative without a `./` prefix, so any leading
        // `./` is stripped.
        let pattern = normalize_glob(patterns[i].as_str());
        proof {
            assert(views.take(i + 1).drop_last() =~= views.take(i as int));
            assert(views.take(i + 1).last() == patterns@[i as int]@);
        }
        match add_glob(&mut builder, pattern.as_str(), true) {
            Ok(_) => {},
            Err(cause) => {
                proof {
                    first_error_stays(views, i + 1);
                }
                return Err(CliError::Glob { pattern, cause });
            },
        }
        i += 1;
    }
    assert(views.take(i as int) =~= views);
    match build_set(&builder) {
        Ok(set) => Ok(Some(set)),
        Err(cause) => Err(CliError::Globs { cause }),
    }
}

/// A pattern that is no glob is the error of every longer list.
proof fn first_error_stays(patterns: Seq<Seq<char>>, n: int)
    requires
        0 <= n <= patterns.len(),
        globs_of(patterns.take(n)) is Err,
    ensures
        globs_of(patterns) == globs_of(patterns.take(n)),
    decreases patterns.len() - n,
{
    if n < patterns.len() {
        assert(patterns.take(n + 1).drop_last() =~= patterns.take(n));
        first_error_stays(patterns, n + 1);
    } else {
        assert(patterns.take(n) =~= patterns);
    }
}

/// Strips leading `./` (possibly repeated) so a glob lines up with git's
/// repo-root-relative paths.
pub fn normalize_glob(pattern: &str) -> (rest: String)
    ensures
        rest@ == peeled(pattern@),
{
    let chars = chars_of(pattern);
    let mut from: usize = 0;
    assert(chars@.skip(0) =~= pattern@);
    while chars.len() - from >= 2 && chars[from] == '.' && chars[from + 1] == '/'
        invariant
            from <= chars@.len(),
            peeled(chars@.skip(from as int)) == peeled(pattern@),
        decreases chars@.len() - from,
    {
        assert(chars@.skip(from as int).skip(2) =~= chars@.skip(from + 2));
        from += 2;
    }
    proof {
        let rest = chars@.skip(from as int);
        if rest.len() >= 2 {
            assert(rest[0] == chars@[from as int]);
            assert(rest[1] == chars@[from + 1]);
        }
        assert(chars@.subrange(from as int, chars@.len() as int) =~= rest);
    }
    text_from(&chars, from, chars.len())
}

/// What is left of a pattern starts with no `./`, and peeling it again changes
/// nothing.
pub proof fn peeling_is_done(pattern: Seq<char>)
    ensures
        peeled(peeled(pattern)) == peeled(pattern),
        !(peeled(pattern).len() >= 2 && peeled(pattern)[0] == '.' && peeled(pattern)[1] == '/'),
    decreases pattern.len(),
{
    if pattern.len() >= 2 && pattern[0] == '.' && pattern[1] == '/' {
        peeling_is_done(pattern.skip(2));
    }
}

/// A `./` in front of a pattern changes nothing: globs are relative to the root of
/// the repository either way.
pub proof fn dot_slash_is_ignored(patterns: Seq<Seq<char>>, pattern: Seq<char>)
    ensures
        filter_of(patterns.push("./"@ + pattern)) == filter_of(patterns.push(pattern)),
{
    reveal_strlit("./");
    let (a, b) = (patterns.push("./"@ + pattern), patterns.push(pattern));
    assert(a.drop_last() =~= patterns);
    assert(b.drop_last() =~= patterns);
    let dotted = "./"@ + pattern;
    assert(dotted[0] == '.' && dotted[1] == '/');
    assert(dotted.skip(2) =~= pattern);
}

} // verus!
