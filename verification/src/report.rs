//! The report on the duplicates that were found: a table with one row for
//! each file, the groups set apart by blank rows, and the number of files.

use crate::cell::{fits_cell, is_plain, lemma_plain_text_is_shown, shown, shown_text};
use crate::order::{same_groups, sort_by_hash, sorted_by_hash};
use crate::record::{File, FileView};
use prettytable::{Cell, Row, Table};
use vstd::prelude::*;
use vstd::string::*;

verus! {

/// The row that names the two columns.
pub open spec fn header_row() -> Seq<Seq<char>> {
    seq!["FILE PATH"@, "FILE HASH MD5"@]
}

/// The row that sets two groups apart: two empty cells.
pub open spec fn blank_row() -> Seq<Seq<char>> {
    seq![Seq::<char>::empty(), Seq::<char>::empty()]
}

/// Whether the table printer can measure every cell of every row.
pub open spec fn fit_rows(rows: Seq<Seq<Seq<char>>>) -> bool {
    forall|i: int, j: int|
        0 <= i < rows.len() && 0 <= j < rows[i].len() ==> fits_cell(#[trigger] rows[i][j])
}

/// The row of one record: its path, then its digest, as cells show them.
pub open spec fn record_row(record: FileView) -> Seq<Seq<char>> {
    seq![shown(record.path), shown(record.hash)]
}

/// The rows for `records`, in their order: one row for each record, and a
/// blank row before each record whose digest differs from that of the record
/// before it.
pub open spec fn record_rows(records: Seq<FileView>) -> Seq<Seq<Seq<char>>>
    decreases records.len(),
{
    if records.len() == 0 {
        Seq::empty()
    } else {
        let front = records.drop_last();
        let last = records.last();
        if front.len() > 0 && front.last().hash != last.hash {
            record_rows(front).push(blank_row()).push(record_row(last))
        } else {
            record_rows(front).push(record_row(last))
        }
    }
}

/// How often the digest changes from one record to the next.
pub open spec fn changes(records: Seq<FileView>) -> nat
    decreases records.len(),
{
    if records.len() <= 1 {
        0
    } else if records[records.len() - 2].hash != records.last().hash {
        changes(records.drop_last()) + 1
    } else {
        changes(records.drop_last())
    }
}

/// The place of the row of record `i` among the rows for `records`: behind
/// the rows of the records before it and one blank row for every change of
/// digest up to it.
pub open spec fn row_of(records: Seq<FileView>, i: int) -> int {
    i + changes(records.take(i + 1))
}

/// All rows of the table: the header, then the rows for the records.
pub open spec fn table_rows(records: Seq<FileView>) -> Seq<Seq<Seq<char>>> {
    seq![header_row()] + record_rows(records)
}

/// The character for one decimal digit.
pub open spec fn digit(d: nat) -> char
    recommends
        d < 10,
{
    if d == 0 {
        '0'
    } else if d == 1 {
        '1'
    } else if d == 2 {
        '2'
    } else if d == 3 {
        '3'
    } else if d == 4 {
        '4'
    } else if d == 5 {
        '5'
    } else if d == 6 {
        '6'
    } else if d == 7 {
        '7'
    } else if d == 8 {
        '8'
    } else {
        '9'
    }
}

/// A number in decimal, without leading zeros.
pub open spec fn decimal(n: nat) -> Seq<char>
    decreases n,
{
    if n < 10 {
        seq![digit(n)]
    } else {
        decimal(n / 10).push(digit(n % 10))
    }
}

/// The text that the table printer makes of a table with these rows, each row
/// a sequence of cells, in its default format and without a title line.
pub uninterp spec fn table_text(rows: Seq<Seq<Seq<char>>>) -> Seq<char>;

/// Renders rows of cells with `prettytable`: a `Table` is filled with one
/// `Row` for each row, its cells made by `Cell::new` from the strings, and
/// turned into text through the table's `Display` implementation. The
/// contract only names that text; it is the same for the same rows. Only
/// cells that fit are admitted: `Cell::new` measures every line of a cell,
/// and stops with a panic on a line in which it counts more hidden
/// characters than `unicode-width` gives the line columns.
#[verifier::external_body]
fn render_table(rows: &Vec<Vec<String>>) -> (text: String)
    requires
        fit_rows(rows.deep_view()),
    ensures
        text@ == table_text(rows.deep_view()),
{
    let mut table = Table::new();
    for row in rows.iter() {
        table.add_row(Row::new(row.iter().map(|cell| Cell::new(cell)).collect()));
    }
    table.to_string()
}

/// What there is to tell about the duplicates of one scan.
#[derive(Debug)]
pub enum Report {
    /// No file has the content of another.
    NoDuplicates,
    /// Some files share their content: the rendered table that lists them
    /// group by group, and how many files it lists.
    Duplicates { table: String, count: usize },
}

/// What a [`Report`] stands for in specifications.
pub enum ReportView {
    NoDuplicates,
    Duplicates { table: Seq<char>, count: nat },
}

impl View for Report {
    type V = ReportView;

    open spec fn view(&self) -> ReportView {
        match *self {
            Report::NoDuplicates => ReportView::NoDuplicates,
            Report::Duplicates { table, count } => ReportView::Duplicates {
                table: table@,
                count: count as nat,
            },
        }
    }
}

/// The report on duplicates that are listed in the order `sorted`: that
/// there are none, or their table and their number.
pub open spec fn report_for(sorted: Seq<FileView>) -> ReportView {
    if sorted.len() == 0 {
        ReportView::NoDuplicates
    } else {
        ReportView::Duplicates { table: table_text(table_rows(sorted)), count: sorted.len() }
    }
}

/// The text in which a report is shown: either the notice that nothing was
/// found, or an empty line, the table, an empty line and the number of
/// duplicate files, followed by an empty line.
pub open spec fn report_text(report: ReportView) -> Seq<char> {
    match report {
        ReportView::NoDuplicates => "No duplicates found\n\n"@,
        ReportView::Duplicates { table, count } => "\n"@ + table + "\nDuplicates found: "@
            + decimal(count) + "\n\n"@,
    }
}

impl Report {
    /// The text to show for this report.
    pub fn text(&self) -> (text: String)
        ensures
            text@ == report_text(self@),
    {
        match self {
            Report::NoDuplicates => "No duplicates found\n\n".to_owned(),
            Report::Duplicates { table, count } => {
                let mut text = "\n".to_owned();
                text.append(table.as_str());
                text.append("\nDuplicates found: ");
                text.append(decimal_string(*count).as_str());
                text.append("\n\n");
                text
            },
        }
    }

    /// The number of duplicate files that the report lists.
    pub fn count(&self) -> (n: usize)
        ensures
            n == match self@ {
                ReportView::NoDuplicates => 0,
                ReportView::Duplicates { count, .. } => count,
            },
    {
        match self {
            Report::NoDuplicates => 0,
            Report::Duplicates { count, .. } => *count,
        }
    }
}

fn digit_str(d: usize) -> (s: &'static str)
    requires
        d < 10,
    ensures
        s@ == seq![digit(d as nat)],
{
    proof {
        reveal_strlit("0");
        reveal_strlit("1");
        reveal_strlit("2");
        reveal_strlit("3");
        reveal_strlit("4");
        reveal_strlit("5");
        reveal_strlit("6");
        reveal_strlit("7");
        reveal_strlit("8");
        reveal_strlit("9");
    }
    match d {
        0 => "0",
        1 => "1",
        2 => "2",
        3 => "3",
        4 => "4",
        5 => "5",
        6 => "6",
        7 => "7",
        8 => "8",
        _ => "9",
    }
}

/// Writes a number in decimal.
pub fn decimal_string(n: usize) -> (s: String)
    ensures
        s@ == decimal(n as nat),
    decreases n,
{
    if n < 10 {
        digit_str(n).to_owned()
    } else {
        let mut s = decimal_string(n / 10);
        s.append(digit_str(n % 10));
        s
    }
}

fn text_row(first: String, second: String) -> (row: Vec<String>)
    ensures
        row.deep_view() == seq![first@, second@],
{
    let mut row: Vec<String> = Vec::new();
    row.push(first);
    row.push(second);
    row
}

/// The row of a record shows its path and its digest as they are, where the
/// table printer can measure them.
pub proof fn lemma_row_of_fitting_record(record: FileView)
    requires
        fits_cell(record.path),
        fits_cell(record.hash),
    ensures
        record_row(record) == seq![record.path, record.hash],
{
}

/// The row of a record shows its path and its digest as they are, where they
/// hold no escape character.
pub proof fn lemma_row_of_plain_record(record: FileView)
    requires
        is_plain(record.path),
        is_plain(record.hash),
    ensures
        record_row(record) == seq![record.path, record.hash],
{
    lemma_plain_text_is_shown(record.path);
    lemma_plain_text_is_shown(record.hash);
}

/// The rows for the records are one for each record and one blank row for
/// each change of digest.
pub proof fn lemma_record_rows_len(records: Seq<FileView>)
    ensures
        record_rows(records).len() == records.len() + changes(records),
    decreases records.len(),
{
    if records.len() > 0 {
        lemma_record_rows_len(records.drop_last());
    }
}

/// Every record has its row, the rows stand in the order of the records, and
/// a blank row stands just before the row of a record exactly where its
/// digest is not that of the record before it.
pub proof fn lemma_record_rows_place(records: Seq<FileView>, i: int)
    requires
        0 <= i < records.len(),
    ensures
        0 <= row_of(records, i) < record_rows(records).len(),
        record_rows(records)[row_of(records, i)] == record_row(records[i]),
        i > 0 && records[i - 1].hash != records[i].hash ==> row_of(records, i) == row_of(
            records,
            i - 1,
        ) + 2 && record_rows(records)[row_of(records, i) - 1] == blank_row(),
        i > 0 && records[i - 1].hash == records[i].hash ==> row_of(records, i) == row_of(
            records,
            i - 1,
        ) + 1,
        i == 0 ==> row_of(records, i) == 0,
    decreases records.len(),
{
    let front = records.drop_last();
    lemma_record_rows_len(front);
    lemma_record_rows_len(records);
    if i == records.len() - 1 {
        assert(records.take(i + 1) =~= records);
        if i > 0 {
            assert(records.take(i) =~= front);
        }
    } else {
        lemma_record_rows_place(front, i);
        assert(front.take(i + 1) =~= records.take(i + 1));
        if i > 0 {
            assert(front.take(i) =~= records.take(i));
        }
    }
}

/// A cell for a text without escape characters: the text as it is.
fn plain_cell(text: &str) -> (cell: String)
    requires
        is_plain(text@),
    ensures
        cell@ == text@,
        fits_cell(cell@),
{
    proof {
        lemma_plain_text_is_shown(text@);
    }
    shown_text(text)
}

/// The rows of the table for `files`, which are listed in the order given:
/// the header, then one row for each file, with a blank row wherever the
/// digest changes from one file to the next. Paths and digests stand in
/// their rows as cells show them; every cell of the rows fits the table.
pub fn build_rows<'a>(files: &[File<'a>]) -> (rows: Vec<Vec<String>>)
    ensures
        rows.deep_view() == table_rows(files.deep_view()),
        fit_rows(rows.deep_view()),
{
    let ghost records = files.deep_view();
    let mut rows: Vec<Vec<String>> = Vec::new();
    proof {
        reveal_strlit("FILE PATH");
        reveal_strlit("FILE HASH MD5");
    }
    rows.push(text_row(plain_cell("FILE PATH"), plain_cell("FILE HASH MD5")));
    let mut i: usize = 0;
    while i < files.len()
        invariant
            i <= files@.len(),
            records == files.deep_view(),
            rows.deep_view() == seq![header_row()] + record_rows(records.take(i as int)),
            fit_rows(rows.deep_view()),
        decreases files@.len() - i,
    {
        let ghost listed = rows.deep_view();
        proof {
            assert(records.take(i + 1).drop_last() =~= records.take(i as int));
        }
        if i > 0 && files[i - 1].hash != files[i].hash {
            proof {
                reveal_strlit("");
            }
            rows.push(text_row(plain_cell(""), plain_cell("")));
            proof {
                assert(""@ =~= Seq::<char>::empty());
                assert(rows.deep_view() =~= listed.push(blank_row()));
            }
        }
        let ghost spaced = rows.deep_view();
        rows.push(text_row(shown_text(files[i].path), shown_text(files[i].hash.as_str())));
        proof {
            assert(rows.deep_view() =~= spaced.push(record_row(records[i as int])));
        }
        i += 1;
    }
    proof {
        assert(records.take(files@.len() as int) =~= records);
    }
    rows
}

/// Reports on the duplicates of a scan. The records are sorted by digest, so
/// that files with the same content stand together, and keep within a group
/// the order they came in. Where there are none the report says so and
/// nothing is rendered; else the report holds the table of all records and
/// their number. The table shows every path and digest as it is, but for
/// one that the table printer cannot measure: that one is shown without its
/// escape characters. The records themselves stay as they are.
pub fn output_duplicate_files<'a>(duplicates: &mut Vec<File<'a>>) -> (report: Report)
    ensures
        sorted_by_hash(final(duplicates).deep_view()),
        same_groups(final(duplicates).deep_view(), old(duplicates).deep_view()),
        final(duplicates).deep_view().to_multiset() == old(duplicates).deep_view().to_multiset(),
        final(duplicates)@.len() == old(duplicates)@.len(),
        report@ == report_for(final(duplicates).deep_view()),
{
    sort_by_hash(duplicates);
    if duplicates.is_empty() {
        return Report::NoDuplicates;
    }
    let rows = build_rows(duplicates.as_slice());
    let table = render_table(&rows);
    Report::Duplicates { table, count: duplicates.len() }
}

} // verus!
