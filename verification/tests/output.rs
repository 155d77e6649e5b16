use hotcarpet::engine::{AnalysisResult, FileStat, SymbolStat};
use hotcarpet::output::{
    Format, colorize_yellow, file_rows, parse_failure_message, render, supports_color,
    symbol_rows, to_json, warn_empty,
};

fn result(total_files: usize, parse_failures: Vec<String>) -> AnalysisResult {
    AnalysisResult {
        commit_count: 3,
        period: None,
        glob_filtered: false,
        total_files,
        parse_failures,
        files: Vec::new(),
        symbols: Vec::new(),
    }
}

fn full_result() -> AnalysisResult {
    AnalysisResult {
        commit_count: 2,
        period: Some((0, 1_600_000_000)),
        glob_filtered: true,
        total_files: 1,
        parse_failures: vec![],
        files: vec![FileStat { path: "src/a.rs".to_string(), changes: 2 }],
        symbols: vec![SymbolStat {
            path: "src/a.rs".to_string(),
            symbol: "run".to_string(),
            changes: 1,
            start_line: 10,
            end_line: 12,
            depth: 1,
        }],
    }
}

#[test]
fn json_reports_total_files_and_parse_failures() {
    let json = to_json(&result(10, vec!["a.go".to_string(), "b.ts".to_string()]));
    assert_eq!(json["total_files"], 10);
    assert_eq!(json["parse_failures"]["count"], 2);
    assert_eq!(json["parse_failures"]["files"][0], "a.go");
    assert_eq!(json["parse_failures"]["files"][1], "b.ts");
}

#[test]
fn colorize_wraps_only_when_enabled() {
    assert_eq!(colorize_yellow("hi", true), "\x1b[33mhi\x1b[0m");
    assert_eq!(colorize_yellow("hi", false), "hi");
}

#[test]
fn parse_failure_message_summarizes_and_lists_files() {
    let msg = parse_failure_message(&result(10, vec!["a.go".to_string(), "b.ts".to_string()]));
    assert_eq!(
        msg,
        "warning: failed to parse 2 of 10 changed file(s); their changes are counted at the \
         file level only:\n  - a.go\n  - b.ts"
    );
}

#[test]
fn json_parse_failures_present_but_empty_when_all_parsed() {
    let json = to_json(&result(5, Vec::new()));
    assert_eq!(json["total_files"], 5);
    assert_eq!(json["parse_failures"]["count"], 0);
    assert_eq!(json["parse_failures"]["files"].as_array().unwrap().len(), 0);
}

#[test]
fn json_is_printed_whole_and_indented() {
    let rendered = render(&full_result(), Format::Json);
    assert!(rendered.warnings.is_empty());
    let expected = r#"{
  "commit_count": 2,
  "files": [
    {
      "changes": 2,
      "path": "src/a.rs",
      "rank": 1
    }
  ],
  "parse_failures": {
    "count": 0,
    "files": []
  },
  "period": {
    "from": "1970-01-01",
    "to": "2020-09-13"
  },
  "symbols": [
    {
      "changes": 1,
      "depth": 1,
      "end_line": 12,
      "path": "src/a.rs",
      "rank": 1,
      "start_line": 10,
      "symbol": "run"
    }
  ],
  "total_files": 1
}
"#;
    assert_eq!(rendered.stdout, expected);
}

#[test]
fn json_period_is_null_without_commits() {
    assert!(to_json(&result(0, vec![]))["period"].is_null());
}

#[test]
fn tables_are_drawn_with_borders() {
    let rendered = render(&full_result(), Format::Table);
    assert!(rendered.warnings.is_empty());
    let expected = "Analyzed 2 commit(s) from 1970-01-01 to 2020-09-13.\n\n\
        File change leaderboard\n\
        ┌───┬─────────┬──────────┐\n\
        │ # ┆ Changes ┆ File     │\n\
        ╞═══╪═════════╪══════════╡\n\
        │ 1 ┆       2 ┆ src/a.rs │\n\
        └───┴─────────┴──────────┘\n\
        \n\
        Function / method change leaderboard\n\
        ┌───┬─────────┬──────────┬───────┬───────┬──────────┐\n\
        │ # ┆ Changes ┆ Function ┆ Depth ┆ Lines ┆ File     │\n\
        ╞═══╪═════════╪══════════╪═══════╪═══════╪══════════╡\n\
        │ 1 ┆       1 ┆ run      ┆     1 ┆ 10-12 ┆ src/a.rs │\n\
        └───┴─────────┴──────────┴───────┴───────┴──────────┘\n";
    assert_eq!(rendered.stdout, expected);
}

#[test]
fn rows_are_ranked_from_one() {
    let full = full_result();
    let files = file_rows(&full.files);
    let texts: Vec<(&str, bool)> = files[0].iter().map(|c| (c.text.as_str(), c.right)).collect();
    assert_eq!(texts, vec![("1", true), ("2", true), ("src/a.rs", false)]);
    let symbols = symbol_rows(&full.symbols);
    assert_eq!(symbols[0][4].text, "10-12");
    assert!(symbols[0][4].right && !symbols[0][2].right);
}

#[test]
fn an_empty_result_is_explained_outside_of_the_output() {
    let mut empty = result(4, vec!["a.go".to_string()]);
    let rendered = render(&empty, Format::Table);
    assert_eq!(
        rendered.stdout,
        "Analyzed 3 commit(s).\n\nFile change leaderboard\n  (no matching changes found)\n"
    );
    // Parse failures are a warning beside tables, and part of the payload in JSON.
    assert_eq!(rendered.warnings, vec![parse_failure_message(&empty)]);
    assert!(render(&empty, Format::Json).warnings.is_empty());

    empty.glob_filtered = true;
    let hint = "warning: analyzed 3 commit(s) but no changed file matched the given glob(s).\n\
        hint: globs are matched against repo-root-relative paths (e.g. 'src/**/*.ts'); \
        quote them and drop any leading './'.";
    assert_eq!(render(&empty, Format::Json).warnings, vec![hint]);
    assert_eq!(render(&empty, Format::Table).warnings.len(), 2);

    empty.commit_count = 0;
    assert_eq!(
        warn_empty(&empty).as_deref(),
        Some("warning: no commits matched the selected time range.")
    );
    empty.commit_count = 1;
    empty.glob_filtered = false;
    assert_eq!(warn_empty(&empty), None);
}

#[test]
fn color_needs_a_terminal_and_no_objection() {
    assert!(supports_color(None, true));
    assert!(supports_color(Some(0), true));
    assert!(!supports_color(Some(1), true));
    assert!(!supports_color(None, false));
}
