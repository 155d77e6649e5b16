//! Renders analysis results as JSON (default) or human-readable tables.
use vstd::prelude::*;

use crate::dates::{date_text, format_date};
use crate::engine::{
    AnalysisResult, FileStat, FileStatView, ResultView, SymbolStat, SymbolStatView,
};
use crate::text::{decimal, decimal_text, texts};

verus! {

/// Output format selected on the command line.
#[derive(Clone, Copy, PartialEq, Eq, Structural)]
pub enum Format {
    Json,
    Table,
}

/// A JSON value.
#[verifier::external_type_specification]
#[verifier::external_body]
pub struct ExValue(serde_json::Value);

/// What a JSON value holds.
pub enum JsonView {
    Null,
    Number(int),
    Text(Seq<char>),
    List(Seq<JsonView>),
    Object(Map<Seq<char>, JsonView>),
}

/// What a `serde_json::Value` holds.
pub uninterp spec fn json_of(value: serde_json::Value) -> JsonView;

/// How a JSON value is written, indented, the keys of an object in ascending
/// order.
pub uninterp spec fn pretty_json(value: JsonView) -> Seq<char>;

/// The object with the given members.
pub open spec fn members(entries: Seq<(Seq<char>, JsonView)>) -> Map<Seq<char>, JsonView>
    decreases entries.len(),
{
    if entries.len() == 0 {
        Map::empty()
    } else {
        members(entries.drop_last()).insert(entries.last().0, entries.last().1)
    }
}

/// What JSON values hold.
pub open spec fn json_views(values: Seq<serde_json::Value>) -> Seq<JsonView> {
    values.map_values(|v: serde_json::Value| json_of(v))
}

/// What the members of an object hold.
pub open spec fn member_views(entries: Seq<(String, serde_json::Value)>) -> Seq<
    (Seq<char>, JsonView),
> {
    entries.map_values(|e: (String, serde_json::Value)| (e.0@, json_of(e.1)))
}

/// `serde_json::Value::Null`.
#[verifier::external_body]
fn json_null() -> (value: serde_json::Value)
    ensures
        json_of(value) == JsonView::Null,
{
    serde_json::Value::Null
}

/// `serde_json::Value::from` an unsigned integer.
#[verifier::external_body]
fn json_number(n: u64) -> (value: serde_json::Value)
    ensures
        json_of(value) == JsonView::Number(n as int),
{
    serde_json::Value::from(n)
}

/// `serde_json::Value::from` a string.
#[verifier::external_body]
fn json_text(text: &str) -> (value: serde_json::Value)
    ensures
        json_of(value) == JsonView::Text(text@),
{
    serde_json::Value::from(text)
}

/// `serde_json::Value::Array` of the values.
#[verifier::external_body]
fn json_list(values: Vec<serde_json::Value>) -> (value: serde_json::Value)
    ensures
        json_of(value) == JsonView::List(json_views(values@)),
{
    serde_json::Value::Array(values)
}

/// `serde_json::Value::Object` of the members, the last of equal keys counting.
#[verifier::external_body]
fn json_object(entries: Vec<(String, serde_json::Value)>) -> (value: serde_json::Value)
    ensures
        json_of(value) == JsonView::Object(members(member_views(entries@))),
{
    serde_json::Value::Object(entries.into_iter().collect())
}

/// `serde_json::to_string_pretty`: what is written depends on what the value holds
/// alone, since an object is a `BTreeMap` without the feature `preserve_order`. A
/// value has no key that is not a string, so it is always written.
#[verifier::external_body]
fn json_pretty(value: &serde_json::Value) -> (text: String)
    ensures
        text@ == pretty_json(json_of(*value)),
{
    serde_json::to_string_pretty(value).unwrap()
}

/// One cell of a table: its text, and whether it is aligned to the right.
pub struct TableCell {
    pub text: String,
    pub right: bool,
}

/// What a [`TableCell`] stands for.
pub struct CellView {
    pub text: Seq<char>,
    pub right: bool,
}

impl View for TableCell {
    type V = CellView;

    open spec fn view(&self) -> CellView {
        CellView { text: self.text@, right: self.right }
    }
}

/// What the cells of a row stand for.
pub open spec fn row_view(cells: Seq<TableCell>) -> Seq<CellView> {
    cells.map_values(|c: TableCell| c@)
}

/// What the rows of a table stand for.
pub open spec fn row_views(rows: Seq<Vec<TableCell>>) -> Seq<Seq<CellView>> {
    rows.map_values(|r: Vec<TableCell>| row_view(r@))
}

/// A table with the given headers and rows, drawn with full borders.
pub uninterp spec fn drawn_table(headers: Seq<Seq<char>>, rows: Seq<Seq<CellView>>) -> Seq<char>;

/// `comfy_table::Table` with the preset `UTF8_FULL` and the default arrangement of
/// contents, which does not depend on the terminal: its text is a function of the
/// headers and the cells alone.
#[verifier::external_body]
fn draw_table(headers: &Vec<String>, rows: &Vec<Vec<TableCell>>) -> (text: String)
    ensures
        text@ == drawn_table(texts(headers@), row_views(rows@)),
{
    let side = |c: &TableCell| match c.right {
        true => comfy_table::CellAlignment::Right,
        false => comfy_table::CellAlignment::Left,
    };
    let cell = |c: &TableCell| comfy_table::Cell::new(&c.text).set_alignment(side(c));
    let mut table = comfy_table::Table::new();
    table.load_preset(comfy_table::presets::UTF8_FULL);
    table.set_header(headers.iter().map(comfy_table::Cell::new));
    table.add_rows(rows.iter().map(|r| r.iter().map(cell).collect::<Vec<_>>()));
    table.to_string()
}

/// A number as JSON.
pub open spec fn number(n: int) -> JsonView {
    JsonView::Number(n)
}

/// The JSON of a row of the file leaderboard.
pub open spec fn file_json(rank: int, stat: FileStatView) -> JsonView {
    JsonView::Object(
        members(
            seq![
                ("rank"@, number(rank)),
                ("changes"@, number(stat.changes)),
                ("path"@, JsonView::Text(stat.path)),
            ],
        ),
    )
}

/// The JSON of a row of the function leaderboard.
pub open spec fn symbol_json(rank: int, stat: SymbolStatView) -> JsonView {
    JsonView::Object(
        members(
            seq![
                ("rank"@, number(rank)),
                ("changes"@, number(stat.changes)),
                ("symbol"@, JsonView::Text(stat.symbol)),
                ("path"@, JsonView::Text(stat.path)),
                ("start_line"@, number(stat.start_line)),
                ("end_line"@, number(stat.end_line)),
                ("depth"@, number(stat.depth)),
            ],
        ),
    )
}

/// The JSON of the analyzed period.
pub open spec fn period_json(period: Option<(int, int)>) -> JsonView {
    match period {
        Some((from, to)) => JsonView::Object(
            members(
                seq![
                    ("from"@, JsonView::Text(date_text(from))),
                    ("to"@, JsonView::Text(date_text(to))),
                ],
            ),
        ),
        None => JsonView::Null,
    }
}

/// The JSON of the files that failed to parse.
pub open spec fn failures_json(paths: Seq<Seq<char>>) -> JsonView {
    JsonView::Object(
        members(
            seq![
                ("count"@, number(paths.len() as int)),
                ("files"@, JsonView::List(paths.map_values(|p: Seq<char>| JsonView::Text(p)))),
            ],
        ),
    )
}

/// The JSON payload for a result.
pub open spec fn result_json(result: ResultView) -> JsonView {
    JsonView::Object(
        members(
            seq![
                ("commit_count"@, number(result.commit_count as int)),
                ("period"@, period_json(result.period)),
                ("total_files"@, number(result.total_files as int)),
                ("parse_failures"@, failures_json(result.parse_failures)),
                (
                    "files"@,
                    JsonView::List(
                        Seq::new(
                            result.files.len(),
                            |i: int| file_json(i + 1, result.files[i]),
                        ),
                    ),
                ),
                (
                    "symbols"@,
                    JsonView::List(
                        Seq::new(
                            result.symbols.len(),
                            |i: int| symbol_json(i + 1, result.symbols[i]),
                        ),
                    ),
                ),
            ],
        ),
    )
}

/// An object being filled: `key` comes next with `value`.
fn member(entries: &mut Vec<(String, serde_json::Value)>, key: &str, value: serde_json::Value)
    ensures
        member_views(final(entries)@) == member_views(old(entries)@).push(
            (key@, json_of(value)),
        ),
{
    let ghost before = member_views(entries@);
    entries.push((key.to_string(), value));
    assert(member_views(entries@) =~= before.push((key@, json_of(value))));
}

fn no_members() -> (entries: Vec<(String, serde_json::Value)>)
    ensures
        member_views(entries@) == Seq::<(Seq<char>, JsonView)>::empty(),
{
    let entries: Vec<(String, serde_json::Value)> = Vec::new();
    assert(member_views(entries@) =~= Seq::empty());
    entries
}

fn file_value(rank: usize, stat: &FileStat) -> (value: serde_json::Value)
    ensures
        json_of(value) == file_json(rank as int, stat@),
{
    let mut row = no_members();
    member(&mut row, "rank", json_number(rank as u64));
    member(&mut row, "changes", json_number(stat.changes as u64));
    member(&mut row, "path", json_text(stat.path.as_str()));
    assert(member_views(row@) =~= seq![
        ("rank"@, number(rank as int)),
        ("changes"@, number(stat@.changes)),
        ("path"@, JsonView::Text(stat@.path)),
    ]);
    json_object(row)
}

fn symbol_value(rank: usize, stat: &SymbolStat) -> (value: serde_json::Value)
    ensures
        json_of(value) == symbol_json(rank as int, stat@),
{
    let mut row = no_members();
    member(&mut row, "rank", json_number(rank as u64));
    member(&mut row, "changes", json_number(stat.changes as u64));
    member(&mut row, "symbol", json_text(stat.symbol.as_str()));
    member(&mut row, "path", json_text(stat.path.as_str()));
    member(&mut row, "start_line", json_number(stat.start_line as u64));
    member(&mut row, "end_line", json_number(stat.end_line as u64));
    member(&mut row, "depth", json_number(stat.depth as u64));
    assert(member_views(row@) =~= seq![
        ("rank"@, number(rank as int)),
        ("changes"@, number(stat@.changes)),
        ("symbol"@, JsonView::Text(stat@.symbol)),
        ("path"@, JsonView::Text(stat@.path)),
        ("start_line"@, number(stat@.start_line)),
        ("end_line"@, number(stat@.end_line)),
        ("depth"@, number(stat@.depth)),
    ]);
    json_object(row)
}

fn period_value(period: Option<(i64, i64)>) -> (value: serde_json::Value)
    ensures
        json_of(value) == period_json(
            match period {
                Some((from, to)) => Some((from as int, to as int)),
                None => None,
            },
        ),
{
    match period {
        Some((from, to)) => {
            let mut object = no_members();
            member(&mut object, "from", json_text(format_date(from).as_str()));
            member(&mut object, "to", json_text(format_date(to).as_str()));
            assert(member_views(object@) =~= seq![
                ("from"@, JsonView::Text(date_text(from as int))),
                ("to"@, JsonView::Text(date_text(to as int))),
            ]);
            json_object(object)
        },
        None => json_null(),
    }
}

fn failures_value(paths: &Vec<String>) -> (value: serde_json::Value)
    ensures
        json_of(value) == failures_json(texts(paths@)),
{
    let ghost all = texts(paths@).map_values(|p: Seq<char>| JsonView::Text(p));
    let mut list: Vec<serde_json::Value> = Vec::new();
    let mut i: usize = 0;
    while i < paths.len()
        invariant
            i <= paths@.len() == all.len(),
            all == texts(paths@).map_values(|p: Seq<char>| JsonView::Text(p)),
            json_views(list@) == all.take(i as int),
        decreases paths@.len() - i,
    {
        let ghost before = list@;
        list.push(json_text(paths[i].as_str()));
        assert(json_views(list@) =~= json_views(before).push(all[i as int]));
        assert(all.take(i + 1) =~= all.take(i as int).push(all[i as int]));
        i += 1;
    }
    assert(all.take(i as int) =~= all);
    let mut object = no_members();
    member(&mut object, "count", json_number(paths.len() as u64));
    member(&mut object, "files", json_list(list));
    assert(member_views(object@) =~= seq![
        ("count"@, number(texts(paths@).len() as int)),
        ("files"@, JsonView::List(all)),
    ]);
    json_object(object)
}

fn files_value(files: &Vec<FileStat>) -> (value: serde_json::Value)
    ensures
        json_of(value) == JsonView::List(
            Seq::new(files@.len(), |i: int| file_json(i + 1, files@[i]@)),
        ),
{
    let ghost all = Seq::new(files@.len(), |i: int| file_json(i + 1, files@[i]@));
    let mut list: Vec<serde_json::Value> = Vec::new();
    let mut i: usize = 0;
    while i < files.len()
        invariant
            i <= files@.len(),
            all == Seq::new(files@.len(), |i: int| file_json(i + 1, files@[i]@)),
            json_views(list@) == all.take(i as int),
        decreases files@.len() - i,
    {
        let ghost before = list@;
        list.push(file_value(i + 1, &files[i]));
        assert(json_views(list@) =~= json_views(before).push(all[i as int]));
        assert(all.take(i + 1) =~= all.take(i as int).push(all[i as int]));
        i += 1;
    }
    assert(all.take(i as int) =~= all);
    json_list(list)
}

fn symbols_value(symbols: &Vec<SymbolStat>) -> (value: serde_json::Value)
    ensures
        json_of(value) == JsonView::List(
            Seq::new(symbols@.len(), |i: int| symbol_json(i + 1, symbols@[i]@)),
        ),
{
    let ghost all = Seq::new(symbols@.len(), |i: int| symbol_json(i + 1, symbols@[i]@));
    let mut list: Vec<serde_json::Value> = Vec::new();
    let mut i: usize = 0;
    while i < symbols.len()
        invariant
            i <= symbols@.len(),
            all == Seq::new(symbols@.len(), |i: int| symbol_json(i + 1, symbols@[i]@)),
            json_views(list@) == all.take(i as int),
        decreases symbols@.len() - i,
    {
        let ghost before = list@;
        list.push(symbol_value(i + 1, &symbols[i]));
        assert(json_views(list@) =~= json_views(before).push(all[i as int]));
        assert(all.take(i + 1) =~= all.take(i as int).push(all[i as int]));
        i += 1;
    }
    assert(all.take(i as int) =~= all);
    json_list(list)
}

/// Builds the JSON payload for a result.
pub fn to_json(result: &AnalysisResult) -> (value: serde_json::Value)
    ensures
        json_of(value) == result_json(result@),
{
    let mut object = no_members();
    member(&mut object, "commit_count", json_number(result.commit_count as u64));
    member(&mut object, "period", period_value(result.period));
    member(&mut object, "total_files", json_number(result.total_files as u64));
    member(&mut object, "parse_failures", failures_value(&result.parse_failures));
    member(&mut object, "files", files_value(&result.files));
    member(&mut object, "symbols", symbols_value(&result.symbols));
    proof {
        let view = result@;
        assert(Seq::new(view.files.len(), |i: int| file_json(i + 1, view.files[i])) =~= Seq::new(
            result.files@.len(),
            |i: int| file_json(i + 1, result.files@[i]@),
        ));
        assert(Seq::new(view.symbols.len(), |i: int| symbol_json(i + 1, view.symbols[i]))
            =~= Seq::new(
            result.symbols@.len(),
            |i: int| symbol_json(i + 1, result.symbols@[i]@),
        ));
        assert(member_views(object@) =~= seq![
            ("commit_count"@, number(view.commit_count as int)),
            ("period"@, period_json(view.period)),
            ("total_files"@, number(view.total_files as int)),
            ("parse_failures"@, failures_json(view.parse_failures)),
            (
                "files"@,
                JsonView::List(
                    Seq::new(view.files.len(), |i: int| file_json(i + 1, view.files[i])),
                ),
            ),
            (
                "symbols"@,
                JsonView::List(
                    Seq::new(view.symbols.len(), |i: int| symbol_json(i + 1, view.symbols[i])),
                ),
            ),
        ]);
    }
    json_object(object)
}

/// A left-aligned cell.
pub open spec fn left_cell(text: Seq<char>) -> CellView {
    CellView { text, right: false }
}

/// A right-aligned cell that holds a number.
pub open spec fn number_cell(n: nat) -> CellView {
    CellView { text: decimal(n), right: true }
}

/// The headers of the file leaderboard.
pub open spec fn file_headers() -> Seq<Seq<char>> {
    seq!["#"@, "Changes"@, "File"@]
}

/// A row of the file leaderboard.
pub open spec fn file_row(rank: int, stat: FileStatView) -> Seq<CellView> {
    seq![number_cell(rank as nat), number_cell(stat.changes as nat), left_cell(stat.path)]
}

/// The headers of the function leaderboard.
pub open spec fn symbol_headers() -> Seq<Seq<char>> {
    seq!["#"@, "Changes"@, "Function"@, "Depth"@, "Lines"@, "File"@]
}

/// A row of the function leaderboard.
pub open spec fn symbol_row(rank: int, stat: SymbolStatView) -> Seq<CellView> {
    let lines = decimal(stat.start_line as nat) + "-"@ + decimal(stat.end_line as nat);
    seq![
        number_cell(rank as nat),
        number_cell(stat.changes as nat),
        left_cell(stat.symbol),
        number_cell(stat.depth as nat),
        CellView { text: lines, right: true },
        left_cell(stat.path),
    ]
}

/// The file leaderboard as a table.
pub open spec fn file_table_text(files: Seq<FileStatView>) -> Seq<char> {
    drawn_table(file_headers(), Seq::new(files.len(), |i: int| file_row(i + 1, files[i])))
}

/// The function leaderboard as a table.
pub open spec fn symbol_table_text(symbols: Seq<SymbolStatView>) -> Seq<char> {
    drawn_table(symbol_headers(), Seq::new(symbols.len(), |i: int| symbol_row(i + 1, symbols[i])))
}

fn left(text: &String) -> (cell: TableCell)
    ensures
        cell@ == left_cell(text@),
{
    TableCell { text: text.clone(), right: false }
}

fn right(n: u64) -> (cell: TableCell)
    ensures
        cell@ == number_cell(n as nat),
{
    TableCell { text: decimal_text(n), right: true }
}

/// The rows of the file leaderboard.
pub fn file_rows(files: &Vec<FileStat>) -> (rows: Vec<Vec<TableCell>>)
    ensures
        row_views(rows@) == Seq::new(files@.len(), |i: int| file_row(i + 1, files@[i]@)),
{
    let ghost all = Seq::new(files@.len(), |i: int| file_row(i + 1, files@[i]@));
    let mut rows: Vec<Vec<TableCell>> = Vec::new();
    let mut i: usize = 0;
    while i < files.len()
        invariant
            i <= files@.len(),
            all == Seq::new(files@.len(), |i: int| file_row(i + 1, files@[i]@)),
            row_views(rows@) == all.take(i as int),
        decreases files@.len() - i,
    {
        let ghost before = rows@;
        let stat = &files[i];
        let row = vec![right(i as u64 + 1), right(stat.changes as u64), left(&stat.path)];
        assert(row_view(row@) =~= all[i as int]);
        rows.push(row);
        assert(row_views(rows@) =~= row_views(before).push(all[i as int]));
        assert(all.take(i + 1) =~= all.take(i as int).push(all[i as int]));
        i += 1;
    }
    assert(all.take(i as int) =~= all);
    rows
}

/// The rows of the function leaderboard.
pub fn symbol_rows(symbols: &Vec<SymbolStat>) -> (rows: Vec<Vec<TableCell>>)
    ensures
        row_views(rows@) == Seq::new(symbols@.len(), |i: int| symbol_row(i + 1, symbols@[i]@)),
{
    let ghost all = Seq::new(symbols@.len(), |i: int| symbol_row(i + 1, symbols@[i]@));
    let mut rows: Vec<Vec<TableCell>> = Vec::new();
    let mut i: usize = 0;
    while i < symbols.len()
        invariant
            i <= symbols@.len(),
            all == Seq::new(symbols@.len(), |i: int| symbol_row(i + 1, symbols@[i]@)),
            row_views(rows@) == all.take(i as int),
        decreases symbols@.len() - i,
    {
        let ghost before = rows@;
        let stat = &symbols[i];
        let mut lines = decimal_text(stat.start_line as u64);
        lines.append("-");
        lines.append(decimal_text(stat.end_line as u64).as_str());
        let row = vec![
            right(i as u64 + 1),
            right(stat.changes as u64),
            left(&stat.symbol),
            right(stat.depth as u64),
            TableCell { text: lines, right: true },
            left(&stat.path),
        ];
        assert(row_view(row@) =~= all[i as int]);
        rows.push(row);
        assert(row_views(rows@) =~= row_views(before).push(all[i as int]));
        assert(all.take(i + 1) =~= all.take(i as int).push(all[i as int]));
        i += 1;
    }
    assert(all.take(i as int) =~= all);
    rows
}

fn file_table(result: &AnalysisResult) -> (text: String)
    ensures
        text@ == file_table_text(result@.files),
{
    let headers = vec!["#".to_string(), "Changes".to_string(), "File".to_string()];
    assert(texts(headers@) =~= file_headers());
    let rows = file_rows(&result.files);
    assert(row_views(rows@) =~= Seq::new(
        result@.files.len(),
        |i: int| file_row(i + 1, result@.files[i]),
    ));
    draw_table(&headers, &rows)
}

fn symbol_table(result: &AnalysisResult) -> (text: String)
    ensures
        text@ == symbol_table_text(result@.symbols),
{
    let headers = vec![
        "#".to_string(),
        "Changes".to_string(),
        "Function".to_string(),
        "Depth".to_string(),
        "Lines".to_string(),
        "File".to_string(),
    ];
    assert(texts(headers@) =~= symbol_headers());
    let rows = symbol_rows(&result.symbols);
    assert(row_views(rows@) =~= Seq::new(
        result@.symbols.len(),
        |i: int| symbol_row(i + 1, result@.symbols[i]),
    ));
    draw_table(&headers, &rows)
}

/// The line that says what was analyzed.
pub open spec fn headline(result: ResultView) -> Seq<char> {
    let count = "Analyzed "@ + decimal(result.commit_count) + " commit(s)"@;
    match result.period {
        Some((from, to)) => count + " from "@ + date_text(from) + " to "@ + date_text(to)
            + ".\n\n"@,
        None => count + ".\n\n"@,
    }
}

/// A result as tables.
pub open spec fn table_text(result: ResultView) -> Seq<char> {
    let files = headline(result) + "File change leaderboard\n"@ + if result.files.len() == 0 {
        "  (no matching changes found)\n"@
    } else {
        file_table_text(result.files) + "\n"@
    };
    if result.symbols.len() == 0 {
        files
    } else {
        files + "\nFunction / method change leaderboard\n"@ + symbol_table_text(result.symbols)
            + "\n"@
    }
}

/// The parse-failure warning: a one-line summary followed by one indented line per
/// failing path.
pub open spec fn failure_text(result: ResultView) -> Seq<char> {
    "warning: failed to parse "@ + decimal(result.parse_failures.len()) + " of "@ + decimal(
        result.total_files,
    ) + " changed file(s); their changes are counted at the file level only:"@ + failure_lines(
        result.parse_failures,
    )
}

/// One indented line per failing path.
pub open spec fn failure_lines(paths: Seq<Seq<char>>) -> Seq<char>
    decreases paths.len(),
{
    if paths.len() == 0 {
        Seq::empty()
    } else {
        failure_lines(paths.drop_last()) + "\n  - "@ + paths.last()
    }
}

/// The hint that explains why the leaderboard came out empty, if there is one.
pub open spec fn empty_text(result: ResultView) -> Option<Seq<char>> {
    if result.commit_count == 0 {
        Some("warning: no commits matched the selected time range."@)
    } else if result.glob_filtered {
        Some(
            "warning: analyzed "@ + decimal(result.commit_count)
                + " commit(s) but no changed file matched the given glob(s).\n"@
                + "hint: globs are matched against repo-root-relative paths (e.g. 'src/**/*.ts'); "@
                + "quote them and drop any leading './'."@,
        )
    } else {
        None
    }
}

/// The diagnostics for a result, in order. Parse failures are part of the JSON
/// payload, so only tables need a warning for them.
pub open spec fn warnings_for(result: ResultView, format: Format) -> Seq<Seq<char>> {
    let failures = if format == Format::Table && result.parse_failures.len() > 0 {
        seq![failure_text(result)]
    } else {
        Seq::empty()
    };
    match empty_text(result) {
        Some(hint) => if result.files.len() == 0 {
            failures.push(hint)
        } else {
            failures
        },
        None => failures,
    }
}

/// What goes to standard output.
pub open spec fn stdout_text(result: ResultView, format: Format) -> Seq<char> {
    match format {
        Format::Json => pretty_json(result_json(result)) + "\n"@,
        Format::Table => table_text(result),
    }
}

/// The JSON payload as it is printed.
pub fn print_json(result: &AnalysisResult) -> (text: String)
    ensures
        text@ == stdout_text(result@, Format::Json),
{
    let mut text = json_pretty(&to_json(result));
    text.append("\n");
    text
}

fn headline_text(result: &AnalysisResult) -> (text: String)
    ensures
        text@ == headline(result@),
{
    let mut text = "Analyzed ".to_string();
    text.append(decimal_text(result.commit_count as u64).as_str());
    text.append(" commit(s)");
    if let Some((from, to)) = result.period {
        text.append(" from ");
        text.append(format_date(from).as_str());
        text.append(" to ");
        text.append(format_date(to).as_str());
    }
    text.append(".\n\n");
    text
}

/// The tables as they are printed.
pub fn print_table(result: &AnalysisResult) -> (text: String)
    ensures
        text@ == stdout_text(result@, Format::Table),
{
    let mut text = headline_text(result);
    text.append("File change leaderboard\n");
    if result.files.len() == 0 {
        text.append("  (no matching changes found)\n");
    } else {
        let mut table = file_table(result);
        table.append("\n");
        text.append(table.as_str());
    }
    if result.symbols.len() > 0 {
        text.append("\nFunction / method change leaderboard\n");
        text.append(symbol_table(result).as_str());
        text.append("\n");
    }
    text
}

/// The parse-failure warning: a one-line summary followed by one indented line per
/// failing path.
pub fn parse_failure_message(result: &AnalysisResult) -> (message: String)
    ensures
        message@ == failure_text(result@),
{
    let mut message = "warning: failed to parse ".to_string();
    message.append(decimal_text(result.parse_failures.len() as u64).as_str());
    message.append(" of ");
    message.append(decimal_text(result.total_files as u64).as_str());
    message.append(" changed file(s); their changes are counted at the file level only:");
    let ghost start = message@;
    let ghost paths = texts(result.parse_failures@);
    let mut i: usize = 0;
    assert(paths.take(0) =~= Seq::empty());
    assert(start + failure_lines(paths.take(0)) =~= start);
    while i < result.parse_failures.len()
        invariant
            i <= result.parse_failures@.len() == paths.len(),
            paths == texts(result.parse_failures@),
            message@ == start + failure_lines(paths.take(i as int)),
        decreases result.parse_failures@.len() - i,
    {
        assert(paths.take(i + 1).drop_last() =~= paths.take(i as int));
        message.append("\n  - ");
        message.append(result.parse_failures[i].as_str());
        assert(message@ =~= start + failure_lines(paths.take(i + 1)));
        i += 1;
    }
    assert(paths.take(i as int) =~= paths);
    message
}

/// The hint that explains why the leaderboard came out empty, if there is one.
pub fn warn_empty(result: &AnalysisResult) -> (message: Option<String>)
    ensures
        (match message {
            Some(text) => Some(text@),
            None => None,
        }) == empty_text(result@),
{
    if result.commit_count == 0 {
        Some("warning: no commits matched the selected time range.".to_string())
    } else if result.glob_filtered {
        let mut text = "warning: analyzed ".to_string();
        text.append(decimal_text(result.commit_count as u64).as_str());
        text.append(" commit(s) but no changed file matched the given glob(s).\n");
        text.append(
            "hint: globs are matched against repo-root-relative paths (e.g. 'src/**/*.ts'); ",
        );
        text.append("quote them and drop any leading './'.");
        Some(text)
    } else {
        None
    }
}

/// A rendered result: what goes to standard output, and the diagnostics for
/// standard error.
pub struct Rendered {
    pub stdout: String,
    pub warnings: Vec<String>,
}

/// Renders a result. Diagnostics are kept apart, so that they corrupt neither the
/// JSON nor the tables.
pub fn render(result: &AnalysisResult, format: Format) -> (rendered: Rendered)
    ensures
        rendered.stdout@ == stdout_text(result@, format),
        texts(rendered.warnings@) == warnings_for(result@, format),
{
    let stdout = match format {
        Format::Json => print_json(result),
        Format::Table => print_table(result),
    };
    let mut warnings: Vec<String> = Vec::new();
    assert(texts(warnings@) =~= Seq::empty());
    if format == Format::Table && result.parse_failures.len() > 0 {
        let message = parse_failure_message(result);
        warnings.push(message);
        assert(texts(warnings@) =~= seq![message@]);
    }
    if result.files.len() == 0 {
        let ghost before = texts(warnings@);
        if let Some(hint) = warn_empty(result) {
            warnings.push(hint);
            assert(texts(warnings@) =~= before.push(hint@));
        }
    }
    Rendered { stdout, warnings }
}

/// A message in the ANSI yellow color, or as it is. A single color pair spans the
/// whole (possibly multi-line) message.
pub open spec fn colorized(message: Seq<char>, enabled: bool) -> Seq<char> {
    if enabled {
        "\x1b[33m"@ + message + "\x1b[0m"@
    } else {
        message
    }
}

/// Wraps `msg` in the ANSI yellow color when `enabled`, otherwise returns it
/// unchanged.
pub fn colorize_yellow(msg: &str, enabled: bool) -> (text: String)
    ensures
        text@ == colorized(msg@, enabled),
{
    if enabled {
        let mut text = "\x1b[33m".to_string();
        text.append(msg);
        text.append("\x1b[0m");
        text
    } else {
        msg.to_string()
    }
}

/// Whether standard error is colorized: it is a terminal and `NO_COLOR`, whose
/// length is given where it is set, is unset or empty (per
/// <https://no-color.org>).
pub fn supports_color(no_color: Option<usize>, terminal: bool) -> (supports: bool)
    ensures
        supports == (terminal && (no_color matches Some(length) ==> length == 0)),
{
    let off = match no_color {
        Some(length) => length > 0,
        None => false,
    };
    !off && terminal
}

} // verus!
