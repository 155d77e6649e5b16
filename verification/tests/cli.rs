use hotcarpet::cli::{Cli, CliError, build_globset, normalize_glob};
use hotcarpet::dates::{date_or_number, format_date};
use hotcarpet::engine::Attribution;

fn cli() -> Cli {
    Cli {
        repo: ".".to_string(),
        config: None,
        since: None,
        until: None,
        since_commit: None,
        max_commits: 0,
        globs: vec![],
        exclude: vec![],
        top: 20,
        no_dig: false,
        max_depth: None,
        nested: Attribution::Innermost,
        table: false,
        jobs: None,
    }
}

fn strings(list: &[&str]) -> Vec<String> {
    list.iter().map(|s| s.to_string()).collect()
}

#[test]
fn normalize_glob_strips_leading_dot_slash() {
    assert_eq!(normalize_glob("./src/**/*"), "src/**/*");
    assert_eq!(normalize_glob(".//src"), "/src"); // only `./` pairs are peeled
    assert_eq!(normalize_glob("././src"), "src");
    assert_eq!(normalize_glob("src/**/*.ts"), "src/**/*.ts");
}

#[test]
fn normalizing_twice_changes_nothing() {
    for pattern in ["./././a", "./", ".", "", "../a", "./../a"] {
        let once = normalize_glob(pattern);
        assert_eq!(normalize_glob(&once), once);
    }
}

#[test]
fn dates_become_the_bounds_of_their_day() {
    let mut cli = cli();
    assert!(matches!(cli.since_timestamp(), Ok(None)));
    assert!(matches!(cli.until_timestamp(), Ok(None)));
    cli.since = Some("2026-01-01".to_string());
    cli.until = Some("2026-06-30".to_string());
    assert!(matches!(cli.since_timestamp(), Ok(Some(1_767_225_600))));
    assert!(matches!(cli.until_timestamp(), Ok(Some(1_782_863_999))));
    cli.until = Some("2026-01-01".to_string());
    assert!(matches!(cli.until_timestamp(), Ok(Some(1_767_311_999))));
    cli.since = Some("1969-12-31".to_string());
    assert!(matches!(cli.since_timestamp(), Ok(Some(-86_400))));
}

#[test]
fn a_text_that_is_no_date_is_an_error() {
    let mut cli = cli();
    cli.since = Some("2026-02-30".to_string());
    let Err(error) = cli.since_timestamp() else { panic!("a day that does not exist") };
    assert!(matches!(error, CliError::Date { .. }));
    assert_eq!(error.message(), "invalid date '2026-02-30', expected YYYY-MM-DD");
    cli.until = Some("yesterday".to_string());
    assert!(cli.until_timestamp().is_err());
}

#[test]
fn zero_means_no_limit() {
    let mut cli = cli();
    assert_eq!(cli.top_limit(), Some(20));
    assert_eq!(cli.max_commits_limit(), None);
    cli.top = 0;
    cli.max_commits = 50;
    assert_eq!(cli.top_limit(), None);
    assert_eq!(cli.max_commits_limit(), Some(50));
}

#[test]
fn no_patterns_make_no_filter() {
    assert!(matches!(cli().include_globset(), Ok(None)));
    assert!(matches!(cli().exclude_globset(), Ok(None)));
}

#[test]
fn patterns_behave_like_shell_globs() {
    let mut cli = cli();
    cli.globs = strings(&["./src/*.ts", "lib/**/*.rs"]);
    cli.exclude = strings(&["**/*.test.ts"]);
    let Ok(Some(set)) = cli.include_globset() else { panic!("two globs") };
    assert!(set.is_match("src/a.ts"));
    // `*` stops at `/`, `**` crosses it.
    assert!(!set.is_match("src/sub/a.ts"));
    assert!(set.is_match("lib/x/y.rs"));
    assert!(!set.is_match("other/a.ts"));
    let Ok(Some(set)) = cli.exclude_globset() else { panic!("one glob") };
    assert!(set.is_match("src/deep/a.test.ts"));
}

#[test]
fn a_pattern_that_is_no_glob_is_an_error() {
    let Err(error) = build_globset(&strings(&["src/**", "./a[", "b["])) else {
        panic!("an unclosed class")
    };
    assert!(matches!(error, CliError::Glob { .. }));
    assert_eq!(error.message(), "invalid glob pattern: 'a['");
}

#[test]
fn globs_that_grow_too_large_together_are_an_error() {
    let part = "{a,b,c,d,e,f,g,h,i,j}*?".repeat(2000);
    let patterns: Vec<String> = (0..40).map(|i| format!("x{i}{part}")).collect();
    let Err(error) = build_globset(&patterns) else { panic!("very large globs") };
    assert!(matches!(error, CliError::Globs { .. }));
    assert_eq!(error.message(), "the glob patterns are too large");
}

#[test]
fn timestamps_are_written_as_utc_dates() {
    assert_eq!(format_date(0), "1970-01-01");
    assert_eq!(format_date(86_399), "1970-01-01");
    assert_eq!(format_date(-1), "1969-12-31");
    assert_eq!(format_date(1_600_000_000), "2020-09-13");
    // The calendar does not reach this far.
    assert_eq!(format_date(i64::MAX), "9223372036854775807");
    assert_eq!(format_date(i64::MIN), "-9223372036854775808");
    assert_eq!(date_or_number(None, -42), "-42");
    assert_eq!(date_or_number(Some("today".to_string()), 0), "today");
}
