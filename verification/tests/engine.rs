use hotcarpet::analyzer::registry::{AnalyzerRegistry, BuiltinAnalyzer};
use hotcarpet::analyzer::{AnalyzerError, Symbol};
use hotcarpet::cli::build_globset;
use hotcarpet::engine::attribution::{credited, innermost_covering};
use hotcarpet::engine::commit::{
    AnalyzeConfig, CommitChange, CommitHits, DugFile, analyze, analyze_commit, dig_paths,
    record_hits,
};
use hotcarpet::engine::reduce::reduce_outcomes;
use hotcarpet::engine::{AnalysisResult, Attribution, CommitOutcome, SymbolHit};

fn sym(name: &str, start: u32, end: u32, depth: u32) -> Symbol {
    Symbol { name: name.to_string(), start_line: start, end_line: end, depth }
}

fn hit(path: &str, name: &str, start: u32, end: u32, depth: u32) -> SymbolHit {
    SymbolHit {
        path: path.to_string(),
        name: name.to_string(),
        start_line: start,
        end_line: end,
        depth,
    }
}

fn strings(list: &[&str]) -> Vec<String> {
    list.iter().map(|s| s.to_string()).collect()
}

fn outcome(
    time: i64,
    seq: usize,
    files: &[&str],
    symbols: Vec<SymbolHit>,
    parse_failures: &[&str],
) -> Option<CommitOutcome> {
    Some(CommitOutcome {
        time,
        seq,
        files: strings(files),
        symbols,
        parse_failures: strings(parse_failures),
    })
}

#[test]
fn reduce_counts_files_and_total() {
    let outcomes = vec![
        outcome(10, 0, &["a.go", "b.go"], vec![], &[]),
        outcome(20, 1, &["a.go", "README.md"], vec![], &[]),
    ];
    let result = reduce_outcomes(outcomes, None, false);
    assert_eq!(result.commit_count, 2);
    // Three distinct files touched across the two commits.
    assert_eq!(result.total_files, 3);
    // `a.go` changed in both commits and leads the leaderboard.
    assert_eq!(result.files[0].path, "a.go");
    assert_eq!(result.files[0].changes, 2);
}

#[test]
fn reduce_dedups_and_sorts_parse_failures() {
    // The same file fails to parse in two commits, plus another file once.
    let outcomes = vec![
        outcome(10, 0, &["z.go", "a.ts"], vec![], &["z.go"]),
        outcome(20, 1, &["z.go"], vec![], &["z.go", "a.ts"]),
    ];
    let result = reduce_outcomes(outcomes, None, false);
    // Distinct failing paths, sorted.
    assert_eq!(result.parse_failures, vec!["a.ts", "z.go"]);
}

#[test]
fn reduce_has_no_parse_failures_when_all_parse() {
    let outcomes = vec![outcome(10, 0, &["a.go"], vec![hit("a.go", "f", 1, 3, 1)], &[])];
    let result = reduce_outcomes(outcomes, None, false);
    assert!(result.parse_failures.is_empty());
}

#[test]
fn reduce_total_files_ignores_top_truncation() {
    let outcomes = vec![outcome(10, 0, &["a", "b", "c"], vec![], &[])];
    let result = reduce_outcomes(outcomes, Some(1), false);
    // The leaderboard is capped at 1 row, but total_files still counts all 3.
    assert_eq!(result.files.len(), 1);
    assert_eq!(result.total_files, 3);
}

#[test]
fn reduce_symbol_line_range_tracks_latest_commit() {
    // The same symbol is credited in two commits at different line ranges;
    // the newer commit (higher time) wins the reported range.
    let older = outcome(10, 1, &["a.go"], vec![hit("a.go", "f", 5, 9, 1)], &[]);
    let newer = outcome(20, 0, &["a.go"], vec![hit("a.go", "f", 1, 4, 1)], &[]);
    // Feed them out of chronological order to prove ordering is by time.
    let result = reduce_outcomes(vec![older, newer], None, false);
    let f = result.symbols.iter().find(|s| s.symbol == "f").unwrap();
    assert_eq!(f.changes, 2);
    assert_eq!((f.start_line, f.end_line), (1, 4));
}

#[test]
fn reduce_skips_none_outcomes() {
    let outcomes = vec![None, outcome(10, 0, &["a.go"], vec![], &[]), None];
    let result = reduce_outcomes(outcomes, None, false);
    assert_eq!(result.commit_count, 1);
    assert_eq!(result.total_files, 1);
}

#[test]
fn reduce_breaks_equal_times_by_the_walk() {
    let first = outcome(10, 3, &[], vec![hit("a.go", "f", 5, 9, 1)], &[]);
    let newer = outcome(10, 2, &[], vec![hit("a.go", "f", 1, 4, 2)], &[]);
    let later = outcome(10, 2, &[], vec![hit("a.go", "f", 7, 8, 3)], &[]);
    let result = reduce_outcomes(vec![first, newer, later], None, true);
    assert_eq!(result.symbols.len(), 1);
    let f = &result.symbols[0];
    assert_eq!((f.changes, f.start_line, f.end_line, f.depth), (3, 1, 4, 2));
    assert_eq!(result.period, Some((10, 10)));
    assert!(result.glob_filtered);
}

#[test]
fn reduce_ranks_by_changes_and_names() {
    let outcomes = vec![
        outcome(
            30,
            0,
            &["b", "a", "c"],
            vec![hit("b", "y", 1, 1, 1), hit("b", "x", 2, 2, 1), hit("a", "z", 3, 3, 1)],
            &[],
        ),
        outcome(-5, 1, &["c"], vec![hit("b", "y", 1, 1, 1)], &[]),
    ];
    let result = reduce_outcomes(outcomes, None, false);
    let files: Vec<(&str, u32)> =
        result.files.iter().map(|f| (f.path.as_str(), f.changes)).collect();
    assert_eq!(files, vec![("c", 2), ("a", 1), ("b", 1)]);
    let symbols: Vec<(&str, &str, u32)> = result
        .symbols
        .iter()
        .map(|s| (s.path.as_str(), s.symbol.as_str(), s.changes))
        .collect();
    assert_eq!(symbols, vec![("b", "y", 2), ("a", "z", 1), ("b", "x", 1)]);
    assert_eq!(result.period, Some((-5, 30)));
}

#[test]
fn reduce_does_not_depend_on_the_order_of_commits() {
    let make = |order: [usize; 3]| {
        let mut all = vec![
            outcome(5, 2, &["a", "b"], vec![hit("a", "f", 1, 2, 1)], &["b"]),
            outcome(9, 1, &["b"], vec![hit("a", "f", 3, 4, 2), hit("b", "g", 1, 1, 1)], &["a"]),
            outcome(9, 0, &["c", "b"], vec![hit("a", "f", 5, 6, 3)], &[]),
        ];
        let picked = order.iter().map(|&i| all[i].take()).collect::<Vec<_>>();
        format!("{:?}", reduce_outcomes(picked, None, false))
    };
    let expected = make([0, 1, 2]);
    for order in [[0, 2, 1], [1, 0, 2], [1, 2, 0], [2, 0, 1], [2, 1, 0]] {
        assert_eq!(make(order), expected);
    }
}

#[test]
fn nothing_reduces_to_nothing() {
    let result = reduce_outcomes(vec![], Some(0), false);
    assert_eq!(result.commit_count, 0);
    assert_eq!(result.period, None);
    assert!(result.files.is_empty() && result.symbols.is_empty());
}

#[test]
fn innermost_prefers_deepest_then_smallest() {
    let symbols =
        vec![sym("outer", 1, 100, 1), sym("inner", 10, 50, 2), sym("deepest", 20, 30, 3)];
    let name = |line, max| innermost_covering(&symbols, line, max).map(|s| s.name.as_str());

    assert_eq!(name(25, None), Some("deepest"));
    assert_eq!(name(40, None), Some("inner")); // inside inner, below deepest
    assert_eq!(name(5, None), Some("outer")); // only outer covers it
    assert_eq!(name(200, None), None); // outside every symbol

    // max_depth clamps attribution to the deepest *kept* ancestor.
    assert_eq!(name(25, Some(2)), Some("inner"));
    assert_eq!(name(25, Some(1)), Some("outer"));
}

#[test]
fn innermost_breaks_ties_by_span_and_then_by_place() {
    let symbols = vec![
        sym("small", 4, 6, 1),
        sym("large", 1, 9, 1),
        sym("twin", 4, 6, 1),
        sym("empty", 8, 7, 5),
    ];
    let name = |line| innermost_covering(&symbols, line, None).map(|s| s.name.as_str());
    assert_eq!(name(5), Some("twin"));
    assert_eq!(name(8), Some("large"));
}

fn names(list: &[Symbol]) -> Vec<&str> {
    list.iter().map(|s| s.name.as_str()).collect()
}

#[test]
fn changes_are_credited_by_attribution() {
    let symbols = vec![
        sym("outer", 1, 10, 1),
        sym("inner", 3, 6, 2),
        sym("deep", 4, 5, 3),
        sym("other", 20, 30, 1),
    ];
    let lines = vec![9, 5, 9];
    let innermost = credited(&symbols, &lines, None, Attribution::Innermost);
    assert_eq!(names(&innermost), vec!["deep", "outer"]);
    let inclusive = credited(&symbols, &lines, None, Attribution::Inclusive);
    assert_eq!(names(&inclusive), vec!["outer", "inner", "deep"]);
    let clamped = credited(&symbols, &lines, Some(1), Attribution::Innermost);
    assert_eq!(names(&clamped), vec!["outer"]);
    let shallow = credited(&symbols, &lines, Some(2), Attribution::Inclusive);
    assert_eq!(names(&shallow), vec!["outer", "inner"]);
    assert!(credited(&symbols, &vec![15], None, Attribution::Innermost).is_empty());
}

#[test]
fn same_named_functions_are_credited_once() {
    let symbols = vec![sym("f", 10, 12, 1), sym("f", 1, 3, 2)];
    let lines = vec![11, 2];
    // The lines are taken in ascending order, so line 2 comes first.
    let innermost = credited(&symbols, &lines, None, Attribution::Innermost);
    assert_eq!(innermost.len(), 1);
    assert_eq!((innermost[0].start_line, innermost[0].depth), (1, 2));
    let inclusive = credited(&symbols, &lines, None, Attribution::Inclusive);
    assert_eq!(inclusive.len(), 1);
    assert_eq!(inclusive[0].start_line, 10);
}

fn default_config() -> AnalyzeConfig {
    AnalyzeConfig {
        repo: ".".to_string(),
        since: None,
        until: None,
        since_commit: None,
        max_commits: None,
        globset: None,
        exclude: None,
        dig: true,
        max_depth: None,
        attribution: Attribution::Innermost,
        top: None,
    }
}

#[test]
fn extracted_symbols_become_hits() {
    let config = default_config();
    let mut hits = CommitHits { symbols: vec![], parse_failures: vec![] };
    let path = "a.go".to_string();
    record_hits(&config, &path, &vec![2], Ok(vec![sym("f", 1, 3, 1)]), &mut hits);
    record_hits(&config, &path, &vec![2], Err(AnalyzerError::Syntax), &mut hits);
    assert_eq!(hits.symbols.len(), 1);
    assert_eq!(hits.symbols[0].path, "a.go");
    assert_eq!(hits.symbols[0].name, "f");
    assert_eq!(hits.parse_failures, vec!["a.go"]);
}

/// What one commit of a test changed: each file's path, contents and changed lines.
fn change(time: i64, files: &[(&str, &str, &[u32])]) -> CommitChange {
    CommitChange {
        time,
        changed: files.iter().map(|f| f.0.to_string()).collect(),
        dug: files
            .iter()
            .map(|f| DugFile {
                path: f.0.to_string(),
                lines: f.2.to_vec(),
                content: Some(f.1.to_string()),
            })
            .collect(),
    }
}

fn run(config: &AnalyzeConfig, commits: Vec<CommitChange>) -> AnalysisResult {
    analyze(config, &AnalyzerRegistry::with_builtins(), &commits)
}

#[test]
fn analyze_reports_parse_failure_across_history() {
    // c1: valid Go plus a non-analyzable file.
    let c1 = change(
        1_600_000_000,
        &[
            ("a.go", "package main\nfunc a() int { return 1 }\n", &[1, 2]),
            ("README.md", "# hi\n", &[1]),
        ],
    );
    // c2: a.go is broken at this revision, so it must be reported as a failure.
    let c2 = change(
        1_600_000_100,
        &[("a.go", "package main\nfunc a( int { return 1 }\n", &[2])],
    );
    // c3: a.go is fixed again and a new valid file appears.
    let c3 = change(
        1_600_000_200,
        &[
            ("a.go", "package main\nfunc a() int { return 2 }\n", &[2]),
            ("b.go", "package main\nfunc b() {}\n", &[1, 2]),
        ],
    );

    let result = run(&default_config(), vec![c3, c2, c1]);

    assert_eq!(result.commit_count, 3);
    // a.go, README.md, b.go. README counts but is never parsed.
    assert_eq!(result.total_files, 3);
    // Only a.go failed to parse (at c2), reported once despite three touches.
    assert_eq!(result.parse_failures, vec!["a.go".to_string()]);

    let changes =
        |path: &str| result.files.iter().find(|f| f.path == path).map(|f| f.changes);
    assert_eq!(changes("a.go"), Some(3));
    assert_eq!(changes("b.go"), Some(1));

    // Dig-down still credits `a` for the two commits it parsed (c1 and c3),
    // and `b` for its single commit; the broken c2 contributes no symbol.
    let sym_changes =
        |name: &str| result.symbols.iter().find(|s| s.symbol == name).map(|s| s.changes);
    assert_eq!(sym_changes("a"), Some(2));
    assert_eq!(sym_changes("b"), Some(1));
}

#[test]
fn analyze_clean_repo_reports_no_parse_failures() {
    let c1 = change(1_600_000_000, &[("main.go", "package main\nfunc main() {}\n", &[1, 2])]);
    let c2 =
        change(1_600_000_100, &[("main.go", "package main\nfunc main() { _ = 1 }\n", &[2])]);

    let result = run(&default_config(), vec![c2, c1]);

    assert_eq!(result.total_files, 1);
    assert!(result.parse_failures.is_empty());
    assert_eq!(
        result.symbols.iter().find(|s| s.symbol == "main").map(|s| s.changes),
        Some(2),
    );
}

#[test]
fn analyze_without_dig_reports_no_parse_failures() {
    // With dig-down off, no file is parsed, so even a broken revision yields
    // no parse failures, and only the file leaderboard is produced.
    let c1 = change(1_600_000_000, &[("a.go", "package main\nfunc a( int {\n", &[1, 2])]);
    let mut config = default_config();
    config.dig = false;
    let result = run(&config, vec![c1]);

    assert_eq!(result.total_files, 1);
    assert!(result.parse_failures.is_empty());
    assert!(result.symbols.is_empty());
}

#[test]
fn commits_outside_the_window_are_skipped() {
    let registry: AnalyzerRegistry<BuiltinAnalyzer> = AnalyzerRegistry::with_builtins();
    let commit = change(100, &[("a.md", "x", &[1])]);
    let mut config = default_config();
    config.since = Some(100);
    config.until = Some(100);
    assert!(analyze_commit(&config, &registry, 0, &commit).is_some());
    config.since = Some(101);
    assert!(analyze_commit(&config, &registry, 0, &commit).is_none());
    // A commit limit or a floor takes precedence over the dates.
    config.max_commits = Some(1);
    assert!(analyze_commit(&config, &registry, 0, &commit).is_some());
    assert_eq!(config.commit_limit(), Some(1));
    config.since_commit = Some("v1".to_string());
    assert_eq!(config.commit_limit(), None);
    config.max_commits = None;
    assert!(config.in_window(0));
    config.since_commit = None;
    config.since = None;
    config.until = Some(99);
    assert!(!config.in_window(100));
}

#[test]
fn a_commit_without_changes_is_skipped() {
    let registry: AnalyzerRegistry<BuiltinAnalyzer> = AnalyzerRegistry::with_builtins();
    assert!(analyze_commit(&default_config(), &registry, 0, &change(1, &[])).is_none());
}

#[test]
fn the_pattern_decides_how_a_glob_is_matched() {
    let matching = |pattern: &str, path: &str| {
        let mut config = default_config();
        config.globset = build_globset(&strings(&[pattern])).unwrap_or(None);
        config.path_included(path)
    };
    assert!(matching("**/*.ts", "a.ts"));
    assert!(!matching("*.ts", "src/a.ts"));
    assert!(matching("**/Makefile", "src/Makefile"));
    // Matched by name, and `..` is no name; as a regular expression it is found.
    assert!(!matching("**/..", "a/.."));
    assert!(matching("**/..{}", "a/.."));
    // One glob matches what it matches alone.
    let mut both = default_config();
    both.globset = build_globset(&strings(&["**/..", "**/..{}"])).unwrap_or(None);
    assert!(both.path_included("a/.."));
    assert!(!both.path_included("a/b"));
}

#[test]
fn globs_choose_what_is_counted_and_dug_into() {
    let registry: AnalyzerRegistry<BuiltinAnalyzer> = AnalyzerRegistry::with_builtins();
    let mut config = default_config();
    config.globset = build_globset(&strings(&["src/**/*.ts", "*.md"])).unwrap_or(None);
    config.exclude = build_globset(&strings(&["**/*.test.ts"])).unwrap_or(None);
    assert!(config.glob_filtered());
    let changed = strings(&["src/a.ts", "src/a.test.ts", "b.ts", "c.md", "src/x.md"]);
    assert!(config.path_included("src/a.ts"));
    assert!(!config.path_included("src/a.test.ts"));
    assert_eq!(dig_paths(&config, &registry, &changed), vec!["src/a.ts"]);
    let commit = CommitChange { time: 1, changed, dug: vec![] };
    let outcome = analyze_commit(&config, &registry, 7, &commit).unwrap();
    assert_eq!(outcome.files, vec!["src/a.ts", "c.md"]);
    assert_eq!(outcome.seq, 7);
    config.dig = false;
    assert!(dig_paths(&config, &registry, &commit.changed).is_empty());
}

#[test]
fn missing_contents_are_passed_over() {
    let registry: AnalyzerRegistry<BuiltinAnalyzer> = AnalyzerRegistry::with_builtins();
    let mut commit = change(1, &[("a.go", "", &[1])]);
    commit.dug[0].content = None;
    let outcome = analyze_commit(&default_config(), &registry, 0, &commit).unwrap();
    assert_eq!(outcome.files, vec!["a.go"]);
    assert!(outcome.symbols.is_empty() && outcome.parse_failures.is_empty());
}

#[test]
fn only_changed_paths_are_dug_into() {
    let registry: AnalyzerRegistry<BuiltinAnalyzer> = AnalyzerRegistry::with_builtins();
    let mut commit = change(1, &[("a.go", "package main\nfunc a() {}\n", &[2])]);
    for (path, content) in [("b.go", "package main\nfunc b() {}\n"), ("c.go", "func (")] {
        commit.dug.push(DugFile {
            path: path.to_string(),
            lines: vec![2],
            content: Some(content.to_string()),
        });
    }
    let outcome = analyze_commit(&default_config(), &registry, 0, &commit).unwrap();
    assert_eq!(outcome.files, vec!["a.go"]);
    let names: Vec<&str> = outcome.symbols.iter().map(|s| s.name.as_str()).collect();
    assert_eq!(names, vec!["a"]);
    assert!(outcome.parse_failures.is_empty());
}
