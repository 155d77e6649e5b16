//! What is printed of a result, in terms of the result.
use vstd::prelude::*;

use crate::dates::date_text;
use crate::engine::{FileStatView, ResultView, SymbolStatView};
use crate::output::{
    CellView, Format, JsonView, colorized, empty_text, failure_lines, failure_text, failures_json,
    file_headers, file_json, file_row, file_table_text, headline, members, period_json,
    pretty_json, result_json, stdout_text, symbol_headers, symbol_json, symbol_row,
    symbol_table_text, table_text, warnings_for,
};
use crate::text::{decimal, decimal_reads_back, read_decimal};

verus! {

/// The keys of the output differ.
proof fn keys_differ()
    ensures
        "rank"@ != "changes"@,
        "rank"@ != "path"@,
        "rank"@ != "symbol"@,
        "rank"@ != "start_line"@,
        "rank"@ != "end_line"@,
        "rank"@ != "depth"@,
        "rank"@ != "from"@,
        "rank"@ != "to"@,
        "rank"@ != "count"@,
        "rank"@ != "files"@,
        "rank"@ != "commit_count"@,
        "rank"@ != "period"@,
        "rank"@ != "total_files"@,
        "rank"@ != "parse_failures"@,
        "rank"@ != "symbols"@,
        "changes"@ != "path"@,
        "changes"@ != "symbol"@,
        "changes"@ != "start_line"@,
        "changes"@ != "end_line"@,
        "changes"@ != "depth"@,
        "changes"@ != "from"@,
        "changes"@ != "to"@,
        "changes"@ != "count"@,
        "changes"@ != "files"@,
        "changes"@ != "commit_count"@,
        "changes"@ != "period"@,
        "changes"@ != "total_files"@,
        "changes"@ != "parse_failures"@,
        "changes"@ != "symbols"@,
        "path"@ != "symbol"@,
        "path"@ != "start_line"@,
        "path"@ != "end_line"@,
        "path"@ != "depth"@,
        "path"@ != "from"@,
        "path"@ != "to"@,
        "path"@ != "count"@,
        "path"@ != "files"@,
        "path"@ != "commit_count"@,
        "path"@ != "period"@,
        "path"@ != "total_files"@,
        "path"@ != "parse_failures"@,
        "path"@ != "symbols"@,
        "symbol"@ != "start_line"@,
        "symbol"@ != "end_line"@,
        "symbol"@ != "depth"@,
        "symbol"@ != "from"@,
        "symbol"@ != "to"@,
        "symbol"@ != "count"@,
        "symbol"@ != "files"@,
        "symbol"@ != "commit_count"@,
        "symbol"@ != "period"@,
        "symbol"@ != "total_files"@,
        "symbol"@ != "parse_failures"@,
        "symbol"@ != "symbols"@,
        "start_line"@ != "end_line"@,
        "start_line"@ != "depth"@,
        "start_line"@ != "from"@,
        "start_line"@ != "to"@,
        "start_line"@ != "count"@,
        "start_line"@ != "files"@,
        "start_line"@ != "commit_count"@,
        "start_line"@ != "period"@,
        "start_line"@ != "total_files"@,
        "start_line"@ != "parse_failures"@,
        "start_line"@ != "symbols"@,
        "end_line"@ != "depth"@,
        "end_line"@ != "from"@,
        "end_line"@ != "to"@,
        "end_line"@ != "count"@,
        "end_line"@ != "files"@,
        "end_line"@ != "commit_count"@,
        "end_line"@ != "period"@,
        "end_line"@ != "total_files"@,
        "end_line"@ != "parse_failures"@,
        "end_line"@ != "symbols"@,
        "depth"@ != "from"@,
        "depth"@ != "to"@,
        "depth"@ != "count"@,
        "depth"@ != "files"@,
        "depth"@ != "commit_count"@,
        "depth"@ != "period"@,
        "depth"@ != "total_files"@,
        "depth"@ != "parse_failures"@,
        "depth"@ != "symbols"@,
        "from"@ != "to"@,
        "from"@ != "count"@,
        "from"@ != "files"@,
        "from"@ != "commit_count"@,
        "from"@ != "period"@,
        "from"@ != "total_files"@,
        "from"@ != "parse_failures"@,
        "from"@ != "symbols"@,
        "to"@ != "count"@,
        "to"@ != "files"@,
        "to"@ != "commit_count"@,
        "to"@ != "period"@,
        "to"@ != "total_files"@,
        "to"@ != "parse_failures"@,
        "to"@ != "symbols"@,
        "count"@ != "files"@,
        "count"@ != "commit_count"@,
        "count"@ != "period"@,
        "count"@ != "total_files"@,
        "count"@ != "parse_failures"@,
        "count"@ != "symbols"@,
        "files"@ != "commit_count"@,
        "files"@ != "period"@,
        "files"@ != "total_files"@,
        "files"@ != "parse_failures"@,
        "files"@ != "symbols"@,
        "commit_count"@ != "period"@,
        "commit_count"@ != "total_files"@,
        "commit_count"@ != "parse_failures"@,
        "commit_count"@ != "symbols"@,
        "period"@ != "total_files"@,
        "period"@ != "parse_failures"@,
        "period"@ != "symbols"@,
        "total_files"@ != "parse_failures"@,
        "total_files"@ != "symbols"@,
        "parse_failures"@ != "symbols"@,
{
    reveal_strlit("rank");
    assert("rank"@.len() == 4);
    reveal_strlit("changes");
    assert("changes"@.len() == 7);
    reveal_strlit("path");
    assert("path"@.len() == 4);
    reveal_strlit("symbol");
    assert("symbol"@.len() == 6);
    reveal_strlit("start_line");
    assert("start_line"@.len() == 10);
    reveal_strlit("end_line");
    assert("end_line"@.len() == 8);
    reveal_strlit("depth");
    assert("depth"@.len() == 5);
    reveal_strlit("from");
    assert("from"@.len() == 4);
    reveal_strlit("to");
    assert("to"@.len() == 2);
    reveal_strlit("count");
    assert("count"@.len() == 5);
    reveal_strlit("files");
    assert("files"@.len() == 5);
    reveal_strlit("commit_count");
    assert("commit_count"@.len() == 12);
    reveal_strlit("period");
    assert("period"@.len() == 6);
    reveal_strlit("total_files");
    assert("total_files"@.len() == 11);
    reveal_strlit("parse_failures");
    assert("parse_failures"@.len() == 14);
    reveal_strlit("symbols");
    assert("symbols"@.len() == 7);
    assert("rank"@[0] != "path"@[0]);
    assert("rank"@[0] != "from"@[0]);
    assert("changes"@[0] != "symbols"@[0]);
    assert("path"@[0] != "from"@[0]);
    assert("symbol"@[0] != "period"@[0]);
    assert("depth"@[0] != "count"@[0]);
    assert("depth"@[0] != "files"@[0]);
    assert("count"@[0] != "files"@[0]);
}

/// The JSON of a result has its commit count, its period, its total of files, its parse
/// failures and its two leaderboards, and nothing else. A leaderboard is a list with an
/// entry for each row, in their order.
pub proof fn json_holds_the_result(result: ResultView)
    ensures
        result_json(result) matches JsonView::Object(object) && ({
            &&& object.dom() == set![
                "commit_count"@,
                "period"@,
                "total_files"@,
                "parse_failures"@,
                "files"@,
                "symbols"@,
            ]
            &&& object["commit_count"@] == JsonView::Number(result.commit_count as int)
            &&& object["total_files"@] == JsonView::Number(result.total_files as int)
            &&& object["period"@] == period_json(result.period)
            &&& object["parse_failures"@] == failures_json(result.parse_failures)
            &&& object["files"@] matches JsonView::List(rows) && rows.len() == result.files.len()
                && forall|i: int|
                0 <= i < rows.len() ==> #[trigger] rows[i] == file_json(i + 1, result.files[i])
            &&& object["symbols"@] matches JsonView::List(rows) && rows.len()
                == result.symbols.len() && forall|i: int|
                0 <= i < rows.len() ==> #[trigger] rows[i] == symbol_json(i + 1, result.symbols[i])
        }),
{
    keys_differ();
    reveal_with_fuel(members, 7);
    let object = result_json(result)->Object_0;
    assert(object.dom() =~= set![
        "commit_count"@,
        "period"@,
        "total_files"@,
        "parse_failures"@,
        "files"@,
        "symbols"@,
    ]);
}

/// An entry of the file leaderboard has the rank, the changes and the path of its row.
pub proof fn json_holds_file_rows(rank: int, stat: FileStatView)
    ensures
        file_json(rank, stat) matches JsonView::Object(object) && ({
            &&& object.dom() == set!["rank"@, "changes"@, "path"@]
            &&& object["rank"@] == JsonView::Number(rank)
            &&& object["changes"@] == JsonView::Number(stat.changes)
            &&& object["path"@] == JsonView::Text(stat.path)
        }),
{
    keys_differ();
    reveal_with_fuel(members, 4);
    let object = file_json(rank, stat)->Object_0;
    assert(object.dom() =~= set!["rank"@, "changes"@, "path"@]);
}

/// An entry of the function leaderboard has the rank, the changes, the name, the path, the
/// lines and the depth of its row.
pub proof fn json_holds_symbol_rows(rank: int, stat: SymbolStatView)
    ensures
        symbol_json(rank, stat) matches JsonView::Object(object) && ({
            &&& object.dom() == set![
                "rank"@,
                "changes"@,
                "symbol"@,
                "path"@,
                "start_line"@,
                "end_line"@,
                "depth"@,
            ]
            &&& object["rank"@] == JsonView::Number(rank)
            &&& object["changes"@] == JsonView::Number(stat.changes)
            &&& object["symbol"@] == JsonView::Text(stat.symbol)
            &&& object["path"@] == JsonView::Text(stat.path)
            &&& object["start_line"@] == JsonView::Number(stat.start_line)
            &&& object["end_line"@] == JsonView::Number(stat.end_line)
            &&& object["depth"@] == JsonView::Number(stat.depth)
        }),
{
    keys_differ();
    reveal_with_fuel(members, 8);
    let object = symbol_json(rank, stat)->Object_0;
    assert(object.dom() =~= set![
        "rank"@,
        "changes"@,
        "symbol"@,
        "path"@,
        "start_line"@,
        "end_line"@,
        "depth"@,
    ]);
}

/// The period is an object with the dates of its ends, or null where there is none. The
/// parse failures are an object with their number and their list.
pub proof fn json_holds_period_and_failures(from: int, to: int, paths: Seq<Seq<char>>)
    ensures
        period_json(None) == JsonView::Null,
        period_json(Some((from, to))) matches JsonView::Object(object) && ({
            &&& object.dom() == set!["from"@, "to"@]
            &&& object["from"@] == JsonView::Text(date_text(from))
            &&& object["to"@] == JsonView::Text(date_text(to))
        }),
        failures_json(paths) matches JsonView::Object(object) && ({
            &&& object.dom() == set!["count"@, "files"@]
            &&& object["count"@] == JsonView::Number(paths.len() as int)
            &&& object["files"@] matches JsonView::List(list) && list.len() == paths.len()
                && forall|i: int|
                0 <= i < list.len() ==> #[trigger] list[i] == JsonView::Text(paths[i])
        }),
{
    keys_differ();
    reveal_with_fuel(members, 3);
    let period = period_json(Some((from, to)))->Object_0;
    assert(period.dom() =~= set!["from"@, "to"@]);
    let failures = failures_json(paths)->Object_0;
    assert(failures.dom() =~= set!["count"@, "files"@]);
}

/// Whether a cell holds a number in decimal, aligned to the right.
pub open spec fn shows_number(cell: CellView, n: int) -> bool {
    &&& cell.right
    &&& cell.text.len() > 0
    &&& read_decimal(cell.text) == n
}

/// A row of the file table shows its rank, its changes and its path.
pub proof fn file_cells_show_the_row(rank: nat, stat: FileStatView)
    requires
        stat.changes >= 0,
    ensures
        ({
            let cells = file_row(rank as int, stat);
            &&& cells.len() == 3
            &&& file_headers() == seq!["#"@, "Changes"@, "File"@]
            &&& shows_number(cells[0], rank as int)
            &&& shows_number(cells[1], stat.changes)
            &&& cells[2].text == stat.path && !cells[2].right
        }),
{
    decimal_reads_back(rank);
    decimal_reads_back(stat.changes as nat);
}

/// A row of the function table shows its rank, its changes, its name, its depth, its lines
/// with a dash between them, and its path.
pub proof fn symbol_cells_show_the_row(rank: nat, stat: SymbolStatView)
    requires
        stat.changes >= 0,
        stat.depth >= 0,
        stat.start_line >= 0,
        stat.end_line >= 0,
    ensures
        ({
            let cells = symbol_row(rank as int, stat);
            &&& cells.len() == 6
            &&& symbol_headers() == seq![
                "#"@,
                "Changes"@,
                "Function"@,
                "Depth"@,
                "Lines"@,
                "File"@,
            ]
            &&& shows_number(cells[0], rank as int)
            &&& shows_number(cells[1], stat.changes)
            &&& cells[2].text == stat.symbol && !cells[2].right
            &&& shows_number(cells[3], stat.depth)
            &&& cells[4].right && exists|start: Seq<char>, end: Seq<char>|
                cells[4].text == start + #[trigger] dashed(end) && #[trigger] read_decimal(start)
                    == stat.start_line && read_decimal(end) == stat.end_line
            &&& cells[5].text == stat.path && !cells[5].right
        }),
{
    decimal_reads_back(rank);
    decimal_reads_back(stat.changes as nat);
    decimal_reads_back(stat.depth as nat);
    decimal_reads_back(stat.start_line as nat);
    decimal_reads_back(stat.end_line as nat);
    reveal_strlit("-");
    let (start, end) = (decimal(stat.start_line as nat), decimal(stat.end_line as nat));
    let cells = symbol_row(rank as int, stat);
    assert(cells[4].text =~= start + dashed(end));
    assert(read_decimal(start) == stat.start_line);
}

/// A text with a dash in front of it.
pub open spec fn dashed(text: Seq<char>) -> Seq<char> {
    seq!['-'] + text
}

/// A text with something in front of it and something behind it.
pub open spec fn amid(before: Seq<char>, text: Seq<char>, after: Seq<char>) -> Seq<char> {
    before + text + after
}

/// Whether a text stands in another.
pub open spec fn stands_in(whole: Seq<char>, text: Seq<char>) -> bool {
    exists|before: Seq<char>, after: Seq<char>| whole == #[trigger] amid(before, text, after)
}

/// The tables start with the line that says what was analyzed. The table of files is there
/// where there are files, and that of functions where there are functions.
pub proof fn tables_show_both_leaderboards(result: ResultView)
    ensures
        headline(result).is_prefix_of(table_text(result)),
        result.files.len() > 0 ==> stands_in(table_text(result), file_table_text(result.files)),
        result.symbols.len() > 0 ==> stands_in(
            table_text(result),
            symbol_table_text(result.symbols),
        ),
        result.files.len() == 0 ==> stands_in(
            table_text(result),
            "(no matching changes found)"@,
        ),
{
    reveal_strlit("  (no matching changes found)\n");
    reveal_strlit("(no matching changes found)");
    let whole = table_text(result);
    let top = headline(result) + "File change leaderboard\n"@;
    let files = if result.files.len() == 0 {
        "  (no matching changes found)\n"@
    } else {
        file_table_text(result.files) + "\n"@
    };
    let title = "\nFunction / method change leaderboard\n"@;
    let bottom = if result.symbols.len() == 0 {
        Seq::<char>::empty()
    } else {
        title + symbol_table_text(result.symbols) + "\n"@
    };
    assert(whole =~= top + files + bottom);
    assert(headline(result) =~= whole.take(headline(result).len() as int));
    if result.files.len() > 0 {
        let table = file_table_text(result.files);
        assert(whole =~= amid(top, table, "\n"@ + bottom));
    } else {
        let line = "  (no matching changes found)\n"@;
        let note = "(no matching changes found)"@;
        assert(line =~= seq![' ', ' '] + note + seq!['\n']);
        assert(whole =~= amid(top + seq![' ', ' '], note, seq!['\n'] + bottom));
    }
    if result.symbols.len() > 0 {
        let table = symbol_table_text(result.symbols);
        assert(whole =~= amid(top + files + title, table, "\n"@));
    }
}

/// The line that says what was analyzed has the number of commits in decimal, and the dates
/// of the period where there is one.
pub proof fn headline_shows_commits_and_period(result: ResultView)
    ensures
        stands_in(headline(result), decimal(result.commit_count)),
        result.period matches Some((from, to)) ==> stands_in(headline(result), date_text(from))
            && stands_in(headline(result), date_text(to)),
{
    let start = "Analyzed "@;
    let n = decimal(result.commit_count);
    let unit = " commit(s)"@;
    match result.period {
        Some((from, to)) => {
            let (a, b) = (date_text(from), date_text(to));
            let rest = " from "@ + a + " to "@ + b + ".\n\n"@;
            assert(headline(result) =~= amid(start, n, unit + rest));
            assert(headline(result) =~= amid(
                start + n + unit + " from "@,
                a,
                " to "@ + b + ".\n\n"@,
            ));
            assert(headline(result) =~= amid(
                start + n + unit + " from "@ + a + " to "@,
                b,
                ".\n\n"@,
            ));
        },
        None => {
            assert(headline(result) =~= amid(start, n, unit + ".\n\n"@));
        },
    }
}

/// What is warned of: with tables, the files that failed to parse, if there are any; and
/// where no file is shown, that no commit was in the range, or that no file matched the
/// globs where there are some. With JSON the parse failures are part of the output and not
/// warned of.
pub proof fn warnings_are_due(result: ResultView, format: Format)
    ensures
        ({
            let list = warnings_for(result, format);
            let failed = format == Format::Table && result.parse_failures.len() > 0;
            let empty = result.files.len() == 0 && (result.commit_count == 0
                || result.glob_filtered);
            &&& list.len() == (if failed {
                1int
            } else {
                0
            }) + (if empty {
                1int
            } else {
                0
            })
            &&& failed ==> list[0] == failure_text(result)
            &&& empty ==> empty_text(result) == Some(list[list.len() - 1])
        }),
        result.commit_count == 0 ==> empty_text(result) == Some(
            "warning: no commits matched the selected time range."@,
        ),
        result.commit_count > 0 && result.glob_filtered ==> (empty_text(result) matches Some(text)
            && stands_in(text, decimal(result.commit_count))),
        result.commit_count > 0 && !result.glob_filtered ==> empty_text(result) is None,
{
    if result.commit_count > 0 && result.glob_filtered {
        let text = empty_text(result)->0;
        let n = decimal(result.commit_count);
        let rest = " commit(s) but no changed file matched the given glob(s).\n"@
            + "hint: globs are matched against repo-root-relative paths (e.g. 'src/**/*.ts'); "@
            + "quote them and drop any leading './'."@;
        assert(text =~= amid("warning: analyzed "@, n, rest));
    }
}

/// The warning of parse failures has their number, the number of all files, and the path of
/// each of them on a line of its own.
pub proof fn failure_warning_names_the_files(result: ResultView, i: int)
    ensures
        stands_in(failure_text(result), decimal(result.parse_failures.len())),
        stands_in(failure_text(result), decimal(result.total_files)),
        0 <= i < result.parse_failures.len() ==> stands_in(
            failure_text(result),
            seq!['\n', ' ', ' ', '-', ' '] + result.parse_failures[i],
        ),
{
    let whole = failure_text(result);
    let a = "warning: failed to parse "@;
    let n = decimal(result.parse_failures.len());
    let m = decimal(result.total_files);
    let b = " changed file(s); their changes are counted at the file level only:"@;
    let lines = failure_lines(result.parse_failures);
    assert(whole =~= amid(a, n, " of "@ + m + b + lines));
    assert(whole =~= amid(a + n + " of "@, m, b + lines));
    if 0 <= i < result.parse_failures.len() {
        let line = seq!['\n', ' ', ' ', '-', ' '] + result.parse_failures[i];
        failure_has_its_line(result.parse_failures, i);
        let (before, after) = choose|before: Seq<char>, after: Seq<char>|
            lines == #[trigger] amid(before, line, after);
        assert(whole =~= amid(a + n + " of "@ + m + b + before, line, after));
    }
}

proof fn failure_has_its_line(paths: Seq<Seq<char>>, i: int)
    requires
        0 <= i < paths.len(),
    ensures
        stands_in(failure_lines(paths), seq!['\n', ' ', ' ', '-', ' '] + paths[i]),
    decreases paths.len(),
{
    reveal_strlit("\n  - ");
    assert("\n  - "@ =~= seq!['\n', ' ', ' ', '-', ' ']);
    let rest = paths.drop_last();
    let last = seq!['\n', ' ', ' ', '-', ' '] + paths.last();
    let line = seq!['\n', ' ', ' ', '-', ' '] + paths[i];
    assert(failure_lines(paths) =~= failure_lines(rest) + last);
    if i < rest.len() {
        failure_has_its_line(rest, i);
        let (before, after) = choose|before: Seq<char>, after: Seq<char>|
            failure_lines(rest) == #[trigger] amid(before, line, after);
        assert(failure_lines(paths) =~= amid(before, line, after + last));
    } else {
        assert(failure_lines(paths) =~= amid(failure_lines(rest), line, Seq::empty()));
    }
}

/// JSON is printed as it is written, with a line end behind it, and tables as they are.
pub proof fn output_is_in_the_format_asked_for(result: ResultView)
    ensures
        stdout_text(result, Format::Json) == pretty_json(result_json(result)).push('\n'),
        stdout_text(result, Format::Table) == table_text(result),
{
    reveal_strlit("\n");
    assert(pretty_json(result_json(result)) + "\n"@ =~= pretty_json(result_json(result)).push(
        '\n',
    ));
}

/// A message in color is the message between two escapes, and one without color is itself.
pub proof fn color_goes_around_the_message(message: Seq<char>)
    ensures
        colorized(message, false) == message,
        colorized(message, true) == seq!['\x1b', '[', '3', '3', 'm'] + message + seq![
            '\x1b',
            '[',
            '0',
            'm',
        ],
{
    reveal_strlit("\x1b[33m");
    reveal_strlit("\x1b[0m");
    assert("\x1b[33m"@ =~= seq!['\x1b', '[', '3', '3', 'm']);
    assert("\x1b[0m"@ =~= seq!['\x1b', '[', '0', 'm']);
}

} // verus!
