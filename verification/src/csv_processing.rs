//! The tabular codec: a roster to delimited text and back.
//!
//! The text itself, with its quoting, is read and written by the `csv` crate,
//! which hands over each cell as it found it, byte for byte. What this module
//! decides is what stands in the cells: that every cell is text in UTF-8, the
//! header, the order of the columns, what an empty cell means, and which
//! table is refused and why.

use crate::decimal::{lemma_parse_decimal_wf, lemma_parse_text, DecimalView};
use crate::models::{rating_fits, roster_view, Employee, EmployeeView};
use crate::schema::{
    arranged, bad_rating, cell_is_rating, cell_rating, column_names, column_positions,
    decode_record, decode_row, encode_record, encode_row, header_fault, header_fault_from,
    header_record, lemma_column_names_distinct, names_twice, rating_cell, record_of, record_view,
    CsvError, COLUMN_COUNT,
};
use crate::text::{first_index, lemma_first_index, text_of_bytes, texts};
use vstd::pervasive::unreached;
use vstd::prelude::*;
use vstd::utf8::{
    decode_utf8, encode_utf8, encode_utf8_decode_utf8, encode_utf8_valid_utf8, valid_utf8,
};

verus! {

#[verifier::external_type_specification]
#[verifier::external_body]
pub struct ExCsvFailure(csv::Error);

/// The rows that the reader of the `csv` crate finds in `data`, each row as
/// its cells and each cell as its bytes. The reader is set to take the first
/// row as any other and to accept rows of any length.
pub uninterp spec fn csv_records(data: Seq<u8>) -> Seq<Seq<Seq<u8>>>;

/// The bytes that the writer of the `csv` crate writes for `rows`.
pub uninterp spec fn csv_text(rows: Seq<Seq<Seq<char>>>) -> Seq<u8>;

/// The character content of a table held as strings.
pub open spec fn table_view(rows: Seq<Vec<String>>) -> Seq<Seq<Seq<char>>> {
    Seq::new(rows.len(), |i: int| texts(rows[i]@))
}

/// The content of a row held as byte vectors.
pub open spec fn row_cells(row: Seq<Vec<u8>>) -> Seq<Seq<u8>> {
    Seq::new(row.len(), |j: int| row[j]@)
}

/// The content of a table held as byte vectors.
pub open spec fn table_cells(rows: Seq<Vec<Vec<u8>>>) -> Seq<Seq<Seq<u8>>> {
    Seq::new(rows.len(), |i: int| row_cells(rows[i]@))
}

/// The bytes of each cell of a row of text.
pub open spec fn row_bytes(row: Seq<Seq<char>>) -> Seq<Seq<u8>> {
    Seq::new(row.len(), |j: int| encode_utf8(row[j]))
}

/// The bytes of each cell of a table of text.
pub open spec fn table_bytes(rows: Seq<Seq<Seq<char>>>) -> Seq<Seq<Seq<u8>>> {
    Seq::new(rows.len(), |i: int| row_bytes(rows[i]))
}

/// Whether a table can be written and read back: every row has the same
/// number of cells, at least one, and the first cell of the first row does not
/// start with a byte-order mark.
pub open spec fn writable(rows: Seq<Seq<Seq<char>>>) -> bool {
    &&& forall|i: int| 0 <= i < rows.len() ==> (#[trigger] rows[i]).len() == rows[0].len()
    &&& rows.len() > 0 ==> rows[0].len() > 0
    &&& rows.len() > 0 && rows[0][0].len() > 0 ==> rows[0][0][0] != '\u{feff}'
}

/// Reads all rows of `data`, each cell as its bytes.
///
/// Trusted: this is `csv::Reader::byte_records` on a reader built with
/// `has_headers(false)` and `flexible(true)` over a slice. The contract names
/// what the reader returns, and claims that it returns no error: with rows of
/// any length accepted and cells taken as bytes, the reader fails only where
/// its source fails, and a slice does not.
#[verifier::external_body]
fn read_records(data: &[u8]) -> (outcome: Result<Vec<Vec<Vec<u8>>>, csv::Error>)
    ensures
        outcome is Ok,
        table_cells(outcome->Ok_0@) == csv_records(data@),
{
    let mut reader = csv::ReaderBuilder::new().has_headers(false).flexible(true).from_reader(data);
    let mut rows = Vec::new();
    for record in reader.byte_records() {
        rows.push(record?.iter().map(|cell| cell.to_vec()).collect());
    }
    Ok(rows)
}

/// Writes all rows to a buffer.
///
/// Trusted: this is `csv::Writer::write_record` for each row, then
/// `csv::Writer::into_inner`, on a writer with the crate's defaults over a
/// `Vec<u8>`. The contract claims three things of it. It succeeds: the writer
/// fails only on rows of unequal length or on a sink that fails, and a
/// `Vec<u8>` does not. The bytes are those that the name gives. And the reader
/// of `read_records` finds in them the rows that were written, each cell as
/// the bytes of its text: the writer quotes every cell that holds a
/// delimiter, a quote or a line break. The reader drops a byte-order mark at
/// the start of the text and takes an empty line for no row, which is why
/// `writable` is required.
#[verifier::external_body]
fn write_records(rows: &Vec<Vec<String>>) -> (outcome: Result<Vec<u8>, csv::Error>)
    requires
        writable(table_view(rows@)),
    ensures
        outcome is Ok,
        outcome->Ok_0@ == csv_text(table_view(rows@)),
        csv_records(outcome->Ok_0@) == table_bytes(table_view(rows@)),
{
    let mut writer = csv::WriterBuilder::new().from_writer(Vec::new());
    for row in rows.iter() {
        writer.write_record(row.iter())?;
    }
    writer.into_inner().map_err(|failure| csv::Error::from(failure.into_error()))
}

/// The first `upto` cells of a row as text, or the index of the first cell
/// among them that is not text in UTF-8.
pub open spec fn text_row(row: Seq<Seq<u8>>, upto: int) -> Result<Seq<Seq<char>>, int>
    decreases upto,
{
    if upto <= 0 {
        Ok(Seq::empty())
    } else {
        match text_row(row, upto - 1) {
            Err(cell) => Err(cell),
            Ok(before) => if valid_utf8(row[upto - 1]) {
                Ok(before.push(decode_utf8(row[upto - 1])))
            } else {
                Err(upto - 1)
            },
        }
    }
}

/// A cell that is no text among the first cells is the first such cell of
/// the whole row.
proof fn lemma_text_row_fault(row: Seq<Seq<u8>>, upto: int, all: int)
    requires
        upto <= all,
        text_row(row, upto) is Err,
    ensures
        text_row(row, all) == text_row(row, upto),
    decreases all - upto,
{
    if upto < all {
        lemma_text_row_fault(row, upto, all - 1);
    }
}

/// The cells of one row as text, or the index of the first cell that is not
/// text in UTF-8.
fn text_record(cells: &Vec<Vec<u8>>) -> (outcome: Result<Vec<String>, usize>)
    ensures
        match outcome {
            Ok(row) => text_row(row_cells(cells@), cells.len() as int) == Ok::<
                Seq<Seq<char>>,
                int,
            >(texts(row@)),
            Err(cell) => text_row(row_cells(cells@), cells.len() as int) == Err::<
                Seq<Seq<char>>,
                int,
            >(cell as int),
        },
{
    let ghost bytes = row_cells(cells@);
    let mut row: Vec<String> = Vec::new();
    let mut j: usize = 0;
    assert(texts(row@) =~= Seq::<Seq<char>>::empty());
    while j < cells.len()
        invariant
            j <= cells.len(),
            bytes == row_cells(cells@),
            text_row(bytes, j as int) == Ok::<Seq<Seq<char>>, int>(texts(row@)),
        decreases cells.len() - j,
    {
        let ghost before = texts(row@);
        assert(bytes[j as int] == cells[j as int]@);
        match text_of_bytes(cells[j].as_slice()) {
            Some(text) => {
                row.push(text.to_owned());
                assert(texts(row@) =~= before.push(decode_utf8(bytes[j as int])));
            },
            None => {
                proof {
                    lemma_text_row_fault(bytes, j as int + 1, cells.len() as int);
                }
                return Err(j);
            },
        }
        j = j + 1;
    }
    Ok(row)
}

/// The text of each cell of a row of bytes.
pub open spec fn row_text(row: Seq<Seq<u8>>) -> Seq<Seq<char>> {
    Seq::new(row.len(), |j: int| decode_utf8(row[j]))
}

/// Cells that are all text give a row of text: the text of each cell.
proof fn lemma_text_row_sound(row: Seq<Seq<u8>>, upto: int)
    requires
        0 <= upto <= row.len(),
        forall|j: int| 0 <= j < upto ==> valid_utf8(#[trigger] row[j]),
    ensures
        text_row(row, upto) == Ok::<Seq<Seq<char>>, int>(row_text(row).take(upto)),
    decreases upto,
{
    if upto > 0 {
        lemma_text_row_sound(row, upto - 1);
        assert(row_text(row).take(upto - 1).push(decode_utf8(row[upto - 1])) =~= row_text(
            row,
        ).take(upto));
    } else {
        assert(row_text(row).take(0) =~= Seq::<Seq<char>>::empty());
    }
}

/// Whether `cell` is the first cell of `row` that is not text in UTF-8.
pub open spec fn first_non_text(row: Seq<Seq<u8>>, cell: int) -> bool {
    &&& 0 <= cell < row.len()
    &&& !valid_utf8(row[cell])
    &&& forall|j: int| 0 <= j < cell ==> valid_utf8(#[trigger] row[j])
}

/// A row whose cells are all text in UTF-8 reads as the text of its cells;
/// any other row is refused with the index of its first cell that is not.
pub proof fn lemma_text_row(row: Seq<Seq<u8>>)
    ensures
        (forall|j: int| 0 <= j < row.len() ==> valid_utf8(#[trigger] row[j])) ==> text_row(
            row,
            row.len() as int,
        ) == Ok::<Seq<Seq<char>>, int>(row_text(row)),
        forall|cell: int| #[trigger]
            first_non_text(row, cell) ==> text_row(row, row.len() as int) == Err::<
                Seq<Seq<char>>,
                int,
            >(cell),
{
    if forall|j: int| 0 <= j < row.len() ==> valid_utf8(#[trigger] row[j]) {
        lemma_text_row_sound(row, row.len() as int);
        assert(row_text(row).take(row.len() as int) =~= row_text(row));
    }
    assert forall|cell: int| #[trigger] first_non_text(row, cell) implies text_row(
        row,
        row.len() as int,
    ) == Err::<Seq<Seq<char>>, int>(cell) by {
        lemma_text_row_sound(row, cell);
        assert(text_row(row, cell + 1) == Err::<Seq<Seq<char>>, int>(cell));
        lemma_text_row_fault(row, cell + 1, row.len() as int);
    }
}

/// The bytes of a row of text are text, and read as that row.
proof fn lemma_text_row_of_bytes(row: Seq<Seq<char>>, upto: int)
    requires
        0 <= upto <= row.len(),
    ensures
        text_row(row_bytes(row), upto) == Ok::<Seq<Seq<char>>, int>(row.take(upto)),
    decreases upto,
{
    if upto == 0 {
        assert(row.take(0) =~= Seq::<Seq<char>>::empty());
    } else {
        lemma_text_row_of_bytes(row, upto - 1);
        encode_utf8_valid_utf8(row[upto - 1]);
        encode_utf8_decode_utf8(row[upto - 1]);
        assert(row.take(upto - 1).push(row[upto - 1]) =~= row.take(upto));
    }
}

/// The name that a cell of the header gives: its text, or the empty name
/// where it is not text in UTF-8. No column has the empty name, so such a
/// cell names none.
pub open spec fn cell_name(cell: Seq<u8>) -> Seq<char> {
    if valid_utf8(cell) {
        decode_utf8(cell)
    } else {
        Seq::empty()
    }
}

/// The names that a header row gives, cell by cell.
pub open spec fn header_names(row: Seq<Seq<u8>>) -> Seq<Seq<char>> {
    Seq::new(row.len(), |j: int| cell_name(row[j]))
}

/// The header of a table: its first row; a table without rows has an empty
/// header.
pub open spec fn header_of(rows: Seq<Seq<Seq<u8>>>) -> Seq<Seq<u8>> {
    if rows.len() > 0 {
        rows[0]
    } else {
        Seq::empty()
    }
}

/// What row number `number` of a table with these sound header names decodes
/// to. The row must have as many cells as the header, every cell must be text
/// in UTF-8, and the cells of the rating columns must be numbers or empty;
/// the fault is the first of these that fails.
pub open spec fn decode_line(header: Seq<Seq<char>>, cells: Seq<Seq<u8>>, number: int) -> Result<
    EmployeeView,
    CsvError,
> {
    if cells.len() != header.len() {
        Err(
            CsvError::FieldCount {
                row: number as usize,
                expected: header.len() as usize,
                found: cells.len() as usize,
            },
        )
    } else {
        match text_row(cells, cells.len() as int) {
            Err(cell) => Err(CsvError::Malformed { row: number as usize, cell: cell as usize }),
            Ok(row) => decode_record(header, row, number),
        }
    }
}

/// The employees of the rows `1..upto` of a table with these sound header
/// names, or the fault of the first row among them that has one.
pub open spec fn decode_rows(header: Seq<Seq<char>>, rows: Seq<Seq<Seq<u8>>>, upto: int) -> Result<
    Seq<EmployeeView>,
    CsvError,
>
    decreases upto,
{
    if upto <= 1 {
        Ok(Seq::empty())
    } else {
        match decode_rows(header, rows, upto - 1) {
            Err(fault) => Err(fault),
            Ok(before) => match decode_line(header, rows[upto - 1], upto - 1) {
                Err(fault) => Err(fault),
                Ok(e) => Ok(before.push(e)),
            },
        }
    }
}

/// What a table decodes to, read row by row: the fault of its header, which
/// must name every column exactly once; else the fault of a header cell that
/// is not text; else the fault of the first row that has one; else one
/// employee for each row after the header, in the order of the rows.
pub open spec fn decode_table(rows: Seq<Seq<Seq<u8>>>) -> Result<Seq<EmployeeView>, CsvError> {
    let header = header_of(rows);
    match header_fault(header_names(header)) {
        Some(fault) => Err(fault),
        None => match text_row(header, header.len() as int) {
            Err(cell) => Err(CsvError::Malformed { row: 0, cell: cell as usize }),
            Ok(_) => decode_rows(header_names(header), rows, rows.len() as int),
        },
    }
}

/// What delimited text decodes to.
pub open spec fn decode_bytes(data: Seq<u8>) -> Result<Seq<EmployeeView>, CsvError> {
    decode_table(csv_records(data))
}

/// The table for a roster: the header, then one row for each employee in the
/// order of the roster.
pub open spec fn encode_table(roster: Seq<EmployeeView>) -> Seq<Seq<Seq<char>>> {
    Seq::new(
        roster.len() + 1,
        |i: int|
            if i == 0 {
                column_names()
            } else {
                encode_row(roster[i - 1])
            },
    )
}

/// The content of what decoding gave.
pub open spec fn outcome_view(outcome: Result<Vec<Employee>, CsvError>) -> Result<
    Seq<EmployeeView>,
    CsvError,
> {
    match outcome {
        Ok(roster) => Ok(roster_view(roster@)),
        Err(fault) => Err(fault),
    }
}

/// Every employee of the roster is one that a row can hold exactly.
pub open spec fn all_tabular(roster: Seq<EmployeeView>) -> bool {
    forall|i: int| 0 <= i < roster.len() ==> (#[trigger] roster[i]).tabular()
}

/// No employee of the roster has an optional text that is present but empty.
pub open spec fn all_texts_fit(roster: Seq<EmployeeView>) -> bool {
    forall|i: int| 0 <= i < roster.len() ==> (#[trigger] roster[i]).texts_fit()
}

/// The names that a header row gives: the text of each cell, and the empty
/// name for a cell that is not text.
fn names_of(cells: &Vec<Vec<u8>>) -> (names: Vec<String>)
    ensures
        texts(names@) == header_names(row_cells(cells@)),
{
    let mut names: Vec<String> = Vec::new();
    let mut j: usize = 0;
    while j < cells.len()
        invariant
            j <= cells.len(),
            names.len() == j,
            forall|t: int| 0 <= t < j ==> names[t]@ == cell_name(cells[t]@),
        decreases cells.len() - j,
    {
        match text_of_bytes(cells[j].as_slice()) {
            Some(text) => {
                names.push(text.to_owned());
            },
            None => {
                names.push(String::new());
            },
        }
        j = j + 1;
    }
    assert(texts(names@) =~= header_names(row_cells(cells@)));
    names
}

/// Decodes a table that was read already, each cell as its bytes: the header,
/// then one row for each employee.
pub fn decode_records(cells: &Vec<Vec<Vec<u8>>>) -> (outcome: Result<Vec<Employee>, CsvError>)
    ensures
        outcome_view(outcome) == decode_table(table_cells(cells@)),
{
    let ghost table = table_cells(cells@);
    let no_header: Vec<Vec<u8>> = Vec::new();
    let first: &Vec<Vec<u8>> = if cells.len() > 0 {
        &cells[0]
    } else {
        &no_header
    };
    assert(row_cells(first@) =~= header_of(table));
    let header = names_of(first);
    let positions = match column_positions(&header) {
        Ok(positions) => positions,
        Err(fault) => {
            return Err(fault);
        },
    };
    match text_record(first) {
        Ok(_) => {},
        Err(cell) => {
            return Err(CsvError::Malformed { row: 0, cell });
        },
    }
    let mut roster: Vec<Employee> = Vec::new();
    let mut number: usize = 1;
    assert(roster_view(roster@) =~= Seq::<EmployeeView>::empty());
    while number < cells.len()
        invariant
            1 <= number,
            number <= cells.len() || cells.len() == 0,
            table == table_cells(cells@),
            texts(header@) == header_names(header_of(table)),
            header_fault(header_names(header_of(table))) is None,
            text_row(header_of(table), header_of(table).len() as int) is Ok,
            positions.len() == COLUMN_COUNT,
            forall|k: int|
                0 <= k < COLUMN_COUNT ==> #[trigger] positions[k] == first_index(
                    texts(header@),
                    column_names()[k],
                ) && positions[k] < header.len(),
            decode_rows(texts(header@), table, number as int) == Ok::<
                Seq<EmployeeView>,
                CsvError,
            >(roster_view(roster@)),
        decreases cells.len() - number,
    {
        let ghost before = roster_view(roster@);
        let ghost names = texts(header@);
        let line = &cells[number];
        assert(table[number as int] == row_cells(line@));
        let decoded = if line.len() != header.len() {
            Err(CsvError::FieldCount { row: number, expected: header.len(), found: line.len() })
        } else {
            match text_record(line) {
                Err(cell) => Err(CsvError::Malformed { row: number, cell }),
                Ok(row) => decode_row(&header, &positions, &row, number),
            }
        };
        assert(record_view(decoded) == decode_line(names, table[number as int], number as int));
        match decoded {
            Ok(employee) => {
                roster.push(employee);
                assert(roster_view(roster@) =~= before.push(employee@));
            },
            Err(fault) => {
                proof {
                    assert(decode_rows(names, table, number as int + 1) == Err::<
                        Seq<EmployeeView>,
                        CsvError,
                    >(fault));
                    lemma_decode_rows_fault(names, table, number as int + 1, cells.len() as int);
                }
                return Err(fault);
            },
        }
        number = number + 1;
    }
    proof {
        if cells.len() == 0 {
            assert(number == 1);
        }
    }
    Ok(roster)
}

/// A fault among the first rows is the fault of the whole table.
proof fn lemma_decode_rows_fault(
    header: Seq<Seq<char>>,
    rows: Seq<Seq<Seq<u8>>>,
    upto: int,
    all: int,
)
    requires
        upto <= all,
        decode_rows(header, rows, upto) is Err,
    ensures
        decode_rows(header, rows, all) == decode_rows(header, rows, upto),
    decreases all - upto,
{
    if upto < all {
        lemma_decode_rows_fault(header, rows, upto, all - 1);
    }
}

/// Reads a roster from delimited text.
///
/// The first row is the header. It must name every column exactly once; the
/// columns may stand in any order, and columns that the roster does not know
/// are passed over. Every other row gives one employee, in the order of the
/// rows. An empty cell is an absent value; a cell of a rating column is
/// otherwise a decimal number. Every cell must be text in UTF-8.
///
/// The table is read row by row, and the first fault ends the reading:
/// nothing is returned of the rows before it. A header that lacks a column or
/// names one twice is refused whatever else the table holds. Of a row, the
/// number of its cells is looked at first, then whether every cell is text,
/// then the cells of the rating columns.
pub fn import_employees_from_csv(data: &[u8]) -> (outcome: Result<Vec<Employee>, CsvError>)
    ensures
        outcome_view(outcome) == decode_bytes(data@),
{
    let cells = match read_records(data) {
        Ok(cells) => cells,
        Err(_) => unreached(),
    };
    decode_records(&cells)
}

/// The table for a roster: the header, then one row for each employee.
pub fn encode_records(employees: &[Employee]) -> (rows: Vec<Vec<String>>)
    ensures
        table_view(rows@) == encode_table(roster_view(employees@)),
        forall|i: int| 0 <= i < employees.len() ==> (#[trigger] employees[i])@.ratings_fit(),
{
    let mut rows: Vec<Vec<String>> = Vec::new();
    rows.push(header_record());
    let mut i: usize = 0;
    while i < employees.len()
        invariant
            i <= employees.len(),
            rows.len() == i + 1,
            texts(rows[0]@) == column_names(),
            forall|k: int| 0 <= k < i ==> texts(#[trigger] rows[k + 1]@) == encode_row(employees[k]@),
            forall|k: int| 0 <= k < i ==> (#[trigger] employees[k])@.ratings_fit(),
        decreases employees.len() - i,
    {
        rows.push(encode_record(&employees[i]));
        i = i + 1;
    }
    assert(table_view(rows@) =~= encode_table(roster_view(employees@))) by {
        assert forall|k: int| 0 <= k < rows.len() implies table_view(rows@)[k] == encode_table(
            roster_view(employees@),
        )[k] by {
            if k > 0 {
                assert(texts(rows[(k - 1) + 1]@) == encode_row(employees[k - 1]@));
            }
        }
    }
    rows
}

/// Writes a roster as delimited text: the header with the column names in
/// column order, then one row for each employee in the order of the roster.
/// An absent value gives an empty cell, a rating its canonical text.
///
/// Always `Ok`. Unless an employee has an optional text that is present but
/// empty, which a cell cannot tell from an absent one, the text reads back as
/// the roster that was written.
pub fn export_employees_to_csv(employees: &[Employee]) -> (outcome: Result<Vec<u8>, CsvError>)
    ensures
        outcome matches Ok(bytes) && bytes@ == csv_text(encode_table(roster_view(employees@)))
            && (all_texts_fit(roster_view(employees@)) ==> decode_bytes(bytes@) == Ok::<
            Seq<EmployeeView>,
            CsvError,
        >(roster_view(employees@))),
{
    let rows = encode_records(employees);
    proof {
        let roster = roster_view(employees@);
        lemma_encode_table_writable(roster);
        if all_texts_fit(roster) {
            assert forall|i: int| 0 <= i < roster.len() implies (#[trigger] roster[i]).tabular() by {
                assert(employees[i]@.ratings_fit());
            }
            lemma_decode_encode(roster);
        }
    }
    match write_records(&rows) {
        Ok(bytes) => Ok(bytes),
        Err(_) => unreached(),
    }
}

/// The table of a roster can be written and read back.
proof fn lemma_encode_table_writable(roster: Seq<EmployeeView>)
    ensures
        writable(encode_table(roster)),
{
    lemma_column_names_distinct();
}

/// The header that is written has no fault, and finds every column where it
/// stands.
proof fn lemma_own_header()
    ensures
        header_fault(column_names()) is None,
        forall|k: int|
            0 <= k < COLUMN_COUNT ==> first_index(column_names(), #[trigger] column_names()[k])
                == k,
{
    let names = column_names();
    lemma_column_names_distinct();
    assert forall|k: int| 0 <= k < COLUMN_COUNT implies first_index(names, #[trigger] names[k])
        == k && !names_twice(names, names[k]) && names.contains(names[k]) by {
        lemma_first_index(names, names[k]);
        let f = first_index(names, names[k]);
        assert(names[k] == names[k]);
        if f != k {
            assert(names[f] == names[k]);
        }
    }
    lemma_header_sound_from(names, 0);
}

/// A header that names every column from `from` on exactly once has no fault
/// from `from` on.
proof fn lemma_header_sound_from(header: Seq<Seq<char>>, from: int)
    requires
        0 <= from <= COLUMN_COUNT,
        forall|k: int|
            from <= k < COLUMN_COUNT ==> header.contains(#[trigger] column_names()[k])
                && !names_twice(header, column_names()[k]),
    ensures
        header_fault_from(header, from) is None,
    decreases COLUMN_COUNT - from,
{
    if from < COLUMN_COUNT {
        assert(header.contains(column_names()[from]));
        lemma_header_sound_from(header, from + 1);
    }
}

/// The bytes of a name give that name back.
proof fn lemma_names_of_bytes(row: Seq<Seq<char>>)
    ensures
        header_names(row_bytes(row)) == row,
{
    assert forall|j: int| 0 <= j < row.len() implies cell_name(#[trigger] row_bytes(row)[j])
        == row[j] by {
        encode_utf8_valid_utf8(row[j]);
        encode_utf8_decode_utf8(row[j]);
    }
    assert(header_names(row_bytes(row)) =~= row);
}

/// Reading back what was written: the table of a roster, taken cell by cell
/// as bytes, decodes to that roster, in the same order and with every
/// optional value present or absent as it was, provided every employee is one
/// that a row can hold exactly.
pub proof fn lemma_decode_encode(roster: Seq<EmployeeView>)
    requires
        all_tabular(roster),
    ensures
        decode_table(table_bytes(encode_table(roster))) == Ok::<Seq<EmployeeView>, CsvError>(
            roster,
        ),
{
    let names = column_names();
    lemma_own_header();
    lemma_names_of_bytes(names);
    lemma_text_row_of_bytes(names, names.len() as int);
    lemma_decode_encode_rows(roster, roster.len() as int);
    assert(roster.take(roster.len() as int) =~= roster);
}

/// The first `n` employees come back from the first `n` rows after the header.
proof fn lemma_decode_encode_rows(roster: Seq<EmployeeView>, n: int)
    requires
        all_tabular(roster),
        0 <= n <= roster.len(),
    ensures
        decode_rows(column_names(), table_bytes(encode_table(roster)), n + 1) == Ok::<
            Seq<EmployeeView>,
            CsvError,
        >(roster.take(n)),
    decreases n,
{
    let table = table_bytes(encode_table(roster));
    if n == 0 {
        assert(roster.take(0) =~= Seq::<EmployeeView>::empty());
    } else {
        lemma_decode_encode_rows(roster, n - 1);
        let e = roster[n - 1];
        assert(e.tabular());
        lemma_decode_encode_row(e, n);
        assert(table[n] == row_bytes(encode_row(e)));
        assert(roster.take(n - 1).push(e) =~= roster.take(n));
    }
}

/// One employee comes back from its row.
proof fn lemma_decode_encode_row(e: EmployeeView, number: int)
    requires
        e.tabular(),
    ensures
        decode_line(column_names(), row_bytes(encode_row(e)), number) == Ok::<
            EmployeeView,
            CsvError,
        >(e),
{
    lemma_own_header();
    lemma_column_names_distinct();
    let row = encode_row(e);
    lemma_text_row_of_bytes(row, row.len() as int);
    assert(row.take(row.len() as int) =~= row);
    assert(arranged(column_names(), row) =~= row);
    lemma_rating_cell(e.pr_2021);
    lemma_rating_cell(e.pr_2022);
    lemma_rating_cell(e.pr_2023);
    lemma_rating_cell(e.pr_2024);
    assert(record_of(row) == e);
}

/// A rating comes back from its cell.
proof fn lemma_rating_cell(field: Option<DecimalView>)
    requires
        rating_fits(field),
    ensures
        cell_is_rating(rating_cell(field)),
        cell_rating(rating_cell(field)) == field,
{
    match field {
        Some(d) => {
            lemma_parse_text(d);
            assert(d.text().len() > 0);
        },
        None => {},
    }
}

/// A header that lacks a column at or after `from` has a fault from `from`
/// on, and the fault is one of the header.
proof fn lemma_header_fault_from(header: Seq<Seq<char>>, from: int, column: int)
    requires
        0 <= from <= column < COLUMN_COUNT,
        !header.contains(column_names()[column]),
    ensures
        header_fault_from(header, from) matches Some(fault) && (fault is MissingColumn
            || fault is DuplicateColumn),
    decreases column - from,
{
    if from < column {
        lemma_header_fault_from(header, from + 1, column);
    }
}

/// A table whose header lacks a column is refused, and the fault is one of
/// the header, whatever else the table holds.
pub proof fn lemma_missing_column(rows: Seq<Seq<Seq<u8>>>, column: int)
    requires
        0 <= column < COLUMN_COUNT,
        !header_names(header_of(rows)).contains(column_names()[column]),
    ensures
        decode_table(rows) matches Err(fault) && (fault is MissingColumn
            || fault is DuplicateColumn),
{
    lemma_header_fault_from(header_names(header_of(rows)), 0, column);
}

/// The fault of a row is one of the text: a wrong number of cells, a cell
/// that is not text, or a cell of a rating column that is no number.
proof fn lemma_row_fault_kind(header: Seq<Seq<char>>, rows: Seq<Seq<Seq<u8>>>, upto: int)
    requires
        decode_rows(header, rows, upto) is Err,
    ensures
        decode_rows(header, rows, upto) matches Err(fault) && (fault is FieldCount
            || fault is Malformed || fault is InvalidNumber),
    decreases upto,
{
    if upto > 1 {
        if decode_rows(header, rows, upto - 1) is Err {
            lemma_row_fault_kind(header, rows, upto - 1);
        }
    }
}

/// Every fault is one of the header or one of the text, and with a header
/// that names every column exactly once it is one of the text.
pub proof fn lemma_fault_kind(rows: Seq<Seq<Seq<u8>>>)
    requires
        decode_table(rows) is Err,
    ensures
        decode_table(rows) matches Err(fault) && (if header_fault(
            header_names(header_of(rows)),
        ) is Some {
            fault is MissingColumn || fault is DuplicateColumn
        } else {
            fault is FieldCount || fault is Malformed || fault is InvalidNumber
        }),
{
    let header = header_of(rows);
    let names = header_names(header);
    if header_fault(names) is Some {
        lemma_header_fault_kind(names, 0);
    } else if text_row(header, header.len() as int) is Ok {
        lemma_row_fault_kind(names, rows, rows.len() as int);
    }
}

/// The fault of a header names a column that is missing or stands twice.
proof fn lemma_header_fault_kind(header: Seq<Seq<char>>, from: int)
    requires
        header_fault_from(header, from) is Some,
    ensures
        header_fault_from(header, from) matches Some(fault) && (fault is MissingColumn
            || fault is DuplicateColumn),
    decreases COLUMN_COUNT - from,
{
    if 0 <= from < COLUMN_COUNT && header.contains(column_names()[from]) && !names_twice(
        header,
        column_names()[from],
    ) {
        lemma_header_fault_kind(header, from + 1);
    }
}

/// A row with a cell in a rating column that is neither empty nor a decimal
/// number makes the table a faulty one, and the fault is one of the text.
/// Where the rows before it are sound and no rating column before this one is
/// at fault in the row, the fault names this row and this column.
pub proof fn lemma_bad_rating(rows: Seq<Seq<Seq<u8>>>, number: int, column: int)
    requires
        header_fault(header_names(header_of(rows))) is None,
        1 <= number < rows.len(),
        rows[number].len() == rows[0].len(),
        forall|j: int| 0 <= j < rows[number].len() ==> valid_utf8(#[trigger] rows[number][j]),
        6 <= column <= 9,
        !cell_is_rating(arranged(header_names(rows[0]), row_text(rows[number]))[column]),
    ensures
        decode_table(rows) matches Err(fault) && (fault is FieldCount || fault is Malformed
            || fault is InvalidNumber),
        text_row(rows[0], rows[0].len() as int) is Ok && decode_rows(
            header_names(rows[0]),
            rows,
            number,
        ) is Ok && (forall|c: int|
            6 <= c < column ==> cell_is_rating(
                #[trigger] arranged(header_names(rows[0]), row_text(rows[number]))[c],
            )) ==> decode_table(rows) == Err::<Seq<EmployeeView>, CsvError>(
            CsvError::InvalidNumber { row: number as usize, column: column as usize },
        ),
{
    let header = header_names(rows[0]);
    let line = rows[number];
    let row = row_text(line);
    let cells = arranged(header, row);
    lemma_text_row(line);
    assert(bad_rating(cells) is Some);
    assert(decode_record(header, row, number) is Err);
    assert(decode_line(header, line, number) is Err);
    assert(decode_rows(header, rows, number + 1) is Err);
    lemma_decode_rows_fault(header, rows, number + 1, rows.len() as int);
    lemma_row_fault_kind(header, rows, number + 1);
    if text_row(rows[0], rows[0].len() as int) is Ok && decode_rows(header, rows, number) is Ok
        && (forall|c: int| 6 <= c < column ==> cell_is_rating(#[trigger] arranged(header, row)[c])) {
        if column > 6 {
            assert(cell_is_rating(cells[6]));
        }
        if column > 7 {
            assert(cell_is_rating(cells[7]));
        }
        if column > 8 {
            assert(cell_is_rating(cells[8]));
        }
        assert(bad_rating(cells) == Some(column));
    }
}

/// A cell that is not text in UTF-8 makes the table a faulty one. Where the
/// header is sound, the rows before the cell's row are sound and that row has
/// as many cells as the header, the fault names the row and its first cell
/// that is not text.
pub proof fn lemma_not_text(rows: Seq<Seq<Seq<u8>>>, number: int, cell: int)
    requires
        0 <= number < rows.len(),
        first_non_text(rows[number], cell),
    ensures
        decode_table(rows) is Err,
        header_fault(header_names(rows[0])) is None && (number == 0 || (text_row(
            rows[0],
            rows[0].len() as int,
        ) is Ok && rows[number].len() == rows[0].len() && decode_rows(
            header_names(rows[0]),
            rows,
            number,
        ) is Ok)) ==> decode_table(rows) == Err::<Seq<EmployeeView>, CsvError>(
            CsvError::Malformed { row: number as usize, cell: cell as usize },
        ),
{
    let header = header_names(rows[0]);
    let line = rows[number];
    lemma_text_row(line);
    if number > 0 {
        assert(decode_line(header, line, number) is Err);
        assert(decode_rows(header, rows, number + 1) is Err);
        lemma_decode_rows_fault(header, rows, number + 1, rows.len() as int);
    }
}

/// What a row decodes to is an employee that a row can hold exactly.
proof fn lemma_decoded_row_is_tabular(header: Seq<Seq<char>>, row: Seq<Seq<char>>, number: int)
    requires
        decode_record(header, row, number) is Ok,
    ensures
        decode_record(header, row, number)->Ok_0.tabular(),
{
    let cells = arranged(header, row);
    let e = record_of(cells);
    assert(bad_rating(cells) is None);
    if cells[6].len() > 0 {
        lemma_parse_decimal_wf(cells[6]);
    }
    if cells[7].len() > 0 {
        lemma_parse_decimal_wf(cells[7]);
    }
    if cells[8].len() > 0 {
        lemma_parse_decimal_wf(cells[8]);
    }
    if cells[9].len() > 0 {
        lemma_parse_decimal_wf(cells[9]);
    }
}

/// What the first rows decode to are employees that a row can hold exactly,
/// one for each row after the header.
proof fn lemma_decoded_rows_are_tabular(
    header: Seq<Seq<char>>,
    rows: Seq<Seq<Seq<u8>>>,
    upto: int,
)
    requires
        decode_rows(header, rows, upto) is Ok,
    ensures
        all_tabular(decode_rows(header, rows, upto)->Ok_0),
        decode_rows(header, rows, upto)->Ok_0.len() == if upto <= 1 {
            0
        } else {
            upto - 1
        },
    decreases upto,
{
    if upto > 1 {
        let line = rows[upto - 1];
        lemma_decoded_rows_are_tabular(header, rows, upto - 1);
        lemma_decoded_row_is_tabular(
            header,
            text_row(line, line.len() as int)->Ok_0,
            upto - 1,
        );
    }
}

/// What a table decodes to is a roster that a table can hold exactly, with
/// one employee for each row after the header. Writing it and reading it
/// again therefore gives the same roster.
pub proof fn lemma_decoded_is_tabular(rows: Seq<Seq<Seq<u8>>>)
    requires
        decode_table(rows) is Ok,
    ensures
        all_tabular(decode_table(rows)->Ok_0),
        decode_table(rows)->Ok_0.len() == rows.len() - 1,
        decode_table(table_bytes(encode_table(decode_table(rows)->Ok_0))) == decode_table(rows),
{
    lemma_decoded_rows_are_tabular(header_names(header_of(rows)), rows, rows.len() as int);
    lemma_decode_encode(decode_table(rows)->Ok_0);
    if rows.len() == 0 {
        // a table without a header lacks the first column
        assert(!header_names(header_of(rows)).contains(column_names()[0]));
        lemma_missing_column(rows, 0);
    }
}

} // verus!
