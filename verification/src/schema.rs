//! The record schema: the columns of the roster table, and how one employee
//! and one row of cells turn into each other.
//!
//! Both directions read the same column table, so a name cannot drift
//! between writing and reading.

use crate::decimal::{parse_decimal, Decimal, DecimalView};
use crate::models::{rating_fits, rating_view, text_view, Employee, EmployeeView};
use crate::text::{find_text, first_index, lemma_first_index, texts};
use vstd::prelude::*;

verus! {

/// Number of columns of the roster table.
pub const COLUMN_COUNT: usize = 19;

/// The column names, in the order in which a table is written.
pub open spec fn column_names() -> Seq<Seq<char>> {
    seq![
        "User ID"@,
        "PR Group 2025"@,
        "First Name"@,
        "Last Name"@,
        "Current Position"@,
        "Current Temp Position"@,
        "PR2021"@,
        "PR2022"@,
        "PR2023"@,
        "PR2024"@,
        "User 9Box 2024"@,
        "User 9Box 2025"@,
        "Notes"@,
        "Current Label"@,
        "Email"@,
        "Manager ID"@,
        "Department"@,
        "Location"@,
        "Hire Date"@,
    ]
}

/// The name of the column with the given index; `None` past the last column.
pub fn column_name(index: usize) -> (name: Option<&'static str>)
    ensures
        match name {
            Some(n) => index < COLUMN_COUNT && n@ == column_names()[index as int],
            None => index >= COLUMN_COUNT,
        },
{
    match index {
        0 => Some("User ID"),
        1 => Some("PR Group 2025"),
        2 => Some("First Name"),
        3 => Some("Last Name"),
        4 => Some("Current Position"),
        5 => Some("Current Temp Position"),
        6 => Some("PR2021"),
        7 => Some("PR2022"),
        8 => Some("PR2023"),
        9 => Some("PR2024"),
        10 => Some("User 9Box 2024"),
        11 => Some("User 9Box 2025"),
        12 => Some("Notes"),
        13 => Some("Current Label"),
        14 => Some("Email"),
        15 => Some("Manager ID"),
        16 => Some("Department"),
        17 => Some("Location"),
        18 => Some("Hire Date"),
        _ => None,
    }
}

/// What the cells of a column hold.
#[derive(Debug, Clone, Copy, PartialEq, Eq)]
pub enum FieldKind {
    /// A text that is always there, though it may be empty.
    Text,
    /// A text, or nothing; the empty cell is nothing.
    OptionalText,
    /// A decimal number, or nothing; the empty cell is nothing.
    OptionalDecimal,
}

/// The kind of each column: five texts, one optional text, the four ratings,
/// and nine optional texts.
pub open spec fn column_kinds() -> Seq<FieldKind> {
    Seq::new(
        COLUMN_COUNT as nat,
        |k: int|
            if k < 5 {
                FieldKind::Text
            } else if 6 <= k <= 9 {
                FieldKind::OptionalDecimal
            } else {
                FieldKind::OptionalText
            },
    )
}

/// The kind of the column with the given index; `None` past the last column.
pub fn column_kind(index: usize) -> (kind: Option<FieldKind>)
    ensures
        match kind {
            Some(k) => index < COLUMN_COUNT && k == column_kinds()[index as int],
            None => index >= COLUMN_COUNT,
        },
{
    if index < 5 {
        Some(FieldKind::Text)
    } else if 6 <= index && index <= 9 {
        Some(FieldKind::OptionalDecimal)
    } else if index < COLUMN_COUNT {
        Some(FieldKind::OptionalText)
    } else {
        None
    }
}

/// What a cell of the given kind must hold to be read: anything for a text,
/// a decimal number or nothing for a rating.
pub open spec fn cell_fits(kind: FieldKind, cell: Seq<char>) -> bool {
    kind is OptionalDecimal ==> cell_is_rating(cell)
}

/// No two columns share a name, and the first name does not start with a
/// byte-order mark.
pub proof fn lemma_column_names_distinct()
    ensures
        column_names().len() == COLUMN_COUNT,
        forall|i: int, j: int|
            0 <= i < COLUMN_COUNT && 0 <= j < COLUMN_COUNT && column_names()[i] == column_names()[j]
                ==> i == j,
        column_names()[0].len() > 0,
        column_names()[0][0] == 'U',
{
    reveal_strlit("User ID");
    reveal_strlit("PR Group 2025");
    reveal_strlit("First Name");
    reveal_strlit("Last Name");
    reveal_strlit("Current Position");
    reveal_strlit("Current Temp Position");
    reveal_strlit("PR2021");
    reveal_strlit("PR2022");
    reveal_strlit("PR2023");
    reveal_strlit("PR2024");
    reveal_strlit("User 9Box 2024");
    reveal_strlit("User 9Box 2025");
    reveal_strlit("Notes");
    reveal_strlit("Current Label");
    reveal_strlit("Email");
    reveal_strlit("Manager ID");
    reveal_strlit("Department");
    reveal_strlit("Location");
    reveal_strlit("Hire Date");
    let names = column_names();
    assert(name_mark(names[0]) == 7085068);
    assert(name_mark(names[1]) == 13080053);
    assert(name_mark(names[2]) == 10070101);
    assert(name_mark(names[3]) == 9076101);
    assert(name_mark(names[4]) == 16067110);
    assert(name_mark(names[5]) == 21067110);
    assert(name_mark(names[6]) == 6080049);
    assert(name_mark(names[7]) == 6080050);
    assert(name_mark(names[8]) == 6080051);
    assert(name_mark(names[9]) == 6080052);
    assert(name_mark(names[10]) == 14085052);
    assert(name_mark(names[11]) == 14085053);
    assert(name_mark(names[12]) == 5078115);
    assert(name_mark(names[13]) == 13067108);
    assert(name_mark(names[14]) == 5069108);
    assert(name_mark(names[15]) == 10077068);
    assert(name_mark(names[16]) == 10068116);
    assert(name_mark(names[17]) == 8076110);
    assert(name_mark(names[18]) == 9072101);
    assert forall|i: int, j: int|
        0 <= i < COLUMN_COUNT && 0 <= j < COLUMN_COUNT && column_names()[i]
            == column_names()[j] implies i == j by {
        assert(name_mark(names[i]) == name_mark(names[j]));
    }
}

/// Length, first and last character of a name in one number: enough to tell
/// the column names apart.
spec fn name_mark(name: Seq<char>) -> int {
    name.len() * 1000000 + (name[0] as int) * 1000 + (name.last() as int)
}

/// What went wrong while a table was read.
///
/// Rows are counted from the header, which is row 0; columns by their index
/// in the column table; cells from the first cell of their row, which is
/// cell 0.
#[derive(Debug, Clone, Copy, PartialEq, Eq)]
pub enum CsvError {
    /// This cell of this row is not text in UTF-8. It is the first such cell
    /// of its row.
    Malformed { row: usize, cell: usize },
    /// The header does not name this column.
    MissingColumn { column: usize },
    /// The header names this column more than once.
    DuplicateColumn { column: usize },
    /// This row has another number of cells than the header.
    FieldCount { row: usize, expected: usize, found: usize },
    /// The cell of this rating column in this row is not a decimal number.
    InvalidNumber { row: usize, column: usize },
}

impl CsvError {
    /// Whether the header is at fault.
    pub fn is_schema_error(&self) -> (schema: bool)
        ensures
            schema == (self is MissingColumn || self is DuplicateColumn),
    {
        match self {
            CsvError::MissingColumn { .. } => true,
            CsvError::DuplicateColumn { .. } => true,
            _ => false,
        }
    }

    /// Whether the text or one of its rows is at fault.
    pub fn is_parse_error(&self) -> (parse: bool)
        ensures
            parse == (self is Malformed || self is FieldCount || self is InvalidNumber),
    {
        match self {
            CsvError::Malformed { .. } => true,
            CsvError::FieldCount { .. } => true,
            CsvError::InvalidNumber { .. } => true,
            _ => false,
        }
    }

    /// The row that the error names, if it names one.
    pub open spec fn at_row(self) -> Option<usize> {
        match self {
            CsvError::Malformed { row, .. } => Some(row),
            CsvError::FieldCount { row, .. } => Some(row),
            CsvError::InvalidNumber { row, .. } => Some(row),
            _ => None,
        }
    }

    /// The column that the error names, if it names one.
    pub open spec fn at_column(self) -> Option<usize> {
        match self {
            CsvError::MissingColumn { column } => Some(column),
            CsvError::DuplicateColumn { column } => Some(column),
            CsvError::InvalidNumber { column, .. } => Some(column),
            _ => None,
        }
    }

    /// The row at fault, where the error names one.
    pub fn row(&self) -> (row: Option<usize>)
        ensures
            row == self.at_row(),
    {
        match self {
            CsvError::Malformed { row, .. } => Some(*row),
            CsvError::FieldCount { row, .. } => Some(*row),
            CsvError::InvalidNumber { row, .. } => Some(*row),
            _ => None,
        }
    }

    /// The column at fault, where the error names one.
    pub fn column(&self) -> (column: Option<usize>)
        ensures
            column == self.at_column(),
    {
        match self {
            CsvError::MissingColumn { column } => Some(*column),
            CsvError::DuplicateColumn { column } => Some(*column),
            CsvError::InvalidNumber { column, .. } => Some(*column),
            _ => None,
        }
    }

    /// The name of the column at fault, where the error names one.
    pub fn column_name(&self) -> (name: Option<&'static str>)
        ensures
            match name {
                Some(n) => self.at_column() matches Some(c) && c < COLUMN_COUNT && n@
                    == column_names()[c as int],
                None => self.at_column() matches Some(c) ==> c >= COLUMN_COUNT,
            },
    {
        match self.column() {
            Some(c) => column_name(c),
            None => None,
        }
    }
}

/// The cell that holds an optional text: the text, or nothing.
pub open spec fn text_cell(field: Option<Seq<char>>) -> Seq<char> {
    match field {
        Some(s) => s,
        None => Seq::empty(),
    }
}

/// The cell that holds an optional rating: its canonical text, or nothing.
pub open spec fn rating_cell(field: Option<DecimalView>) -> Seq<char> {
    match field {
        Some(d) => d.text(),
        None => Seq::empty(),
    }
}

/// The optional text that a cell holds: absent for the empty cell.
pub open spec fn cell_text(cell: Seq<char>) -> Option<Seq<char>> {
    if cell.len() == 0 {
        None
    } else {
        Some(cell)
    }
}

/// Whether a cell can stand in a rating column: it is empty or a decimal
/// number.
pub open spec fn cell_is_rating(cell: Seq<char>) -> bool {
    cell.len() == 0 || parse_decimal(cell) is Some
}

/// The optional rating that a cell holds: absent for the empty cell.
pub open spec fn cell_rating(cell: Seq<char>) -> Option<DecimalView> {
    if cell.len() == 0 {
        None
    } else {
        parse_decimal(cell)
    }
}

/// The row of cells for one employee, in column order.
pub open spec fn encode_row(e: EmployeeView) -> Seq<Seq<char>> {
    seq![
        e.user_id,
        e.pr_group_2025,
        e.first_name,
        e.last_name,
        e.current_position,
        text_cell(e.current_temp_position),
        rating_cell(e.pr_2021),
        rating_cell(e.pr_2022),
        rating_cell(e.pr_2023),
        rating_cell(e.pr_2024),
        text_cell(e.user_9box_2024),
        text_cell(e.user_9box_2025),
        text_cell(e.notes),
        text_cell(e.current_label),
        text_cell(e.email),
        text_cell(e.manager_id),
        text_cell(e.department),
        text_cell(e.location),
        text_cell(e.hire_date),
    ]
}

/// The first column whose cell does not fit its kind, if there is one: the
/// first rating column whose cell is neither empty nor a number. `cells` are
/// in column order.
pub open spec fn bad_rating(cells: Seq<Seq<char>>) -> Option<int> {
    if !cell_is_rating(cells[6]) {
        Some(6)
    } else if !cell_is_rating(cells[7]) {
        Some(7)
    } else if !cell_is_rating(cells[8]) {
        Some(8)
    } else if !cell_is_rating(cells[9]) {
        Some(9)
    } else {
        None
    }
}

/// The employee that a row of cells in column order stands for.
pub open spec fn record_of(cells: Seq<Seq<char>>) -> EmployeeView {
    EmployeeView {
        user_id: cells[0],
        pr_group_2025: cells[1],
        first_name: cells[2],
        last_name: cells[3],
        current_position: cells[4],
        current_temp_position: cell_text(cells[5]),
        pr_2021: cell_rating(cells[6]),
        pr_2022: cell_rating(cells[7]),
        pr_2023: cell_rating(cells[8]),
        pr_2024: cell_rating(cells[9]),
        user_9box_2024: cell_text(cells[10]),
        user_9box_2025: cell_text(cells[11]),
        notes: cell_text(cells[12]),
        current_label: cell_text(cells[13]),
        email: cell_text(cells[14]),
        manager_id: cell_text(cells[15]),
        department: cell_text(cells[16]),
        location: cell_text(cells[17]),
        hire_date: cell_text(cells[18]),
    }
}

/// Whether `header` names `name` more than once.
pub open spec fn names_twice(header: Seq<Seq<char>>, name: Seq<char>) -> bool {
    exists|i: int, j: int|
        0 <= i < j < header.len() && #[trigger] header[i] == name && #[trigger] header[j] == name
}

/// The fault of a header, looking at the columns from `from` on in column
/// order: the first column that the header does not name, or names twice.
pub open spec fn header_fault_from(header: Seq<Seq<char>>, from: int) -> Option<CsvError>
    decreases COLUMN_COUNT - from,
{
    if from < 0 || from >= COLUMN_COUNT {
        None
    } else if !header.contains(column_names()[from]) {
        Some(CsvError::MissingColumn { column: from as usize })
    } else if names_twice(header, column_names()[from]) {
        Some(CsvError::DuplicateColumn { column: from as usize })
    } else {
        header_fault_from(header, from + 1)
    }
}

/// The fault of a header, if it has one. A header without fault names every
/// column exactly once, in any order, and may name others besides.
pub open spec fn header_fault(header: Seq<Seq<char>>) -> Option<CsvError> {
    header_fault_from(header, 0)
}

/// The cells of `row` in column order, found by the names in `header`.
pub open spec fn arranged(header: Seq<Seq<char>>, row: Seq<Seq<char>>) -> Seq<Seq<char>> {
    Seq::new(COLUMN_COUNT as nat, |k: int| row[first_index(header, column_names()[k])])
}

/// What row number `row` of a table with this sound header decodes to.
pub open spec fn decode_record(header: Seq<Seq<char>>, row: Seq<Seq<char>>, number: int) -> Result<
    EmployeeView,
    CsvError,
> {
    if row.len() != header.len() {
        Err(
            CsvError::FieldCount {
                row: number as usize,
                expected: header.len() as usize,
                found: row.len() as usize,
            },
        )
    } else {
        match bad_rating(arranged(header, row)) {
            Some(column) => Err(
                CsvError::InvalidNumber { row: number as usize, column: column as usize },
            ),
            None => Ok(record_of(arranged(header, row))),
        }
    }
}

/// The content of what decoding one row gave.
pub open spec fn record_view(outcome: Result<Employee, CsvError>) -> Result<EmployeeView, CsvError> {
    match outcome {
        Ok(e) => Ok(e@),
        Err(fault) => Err(fault),
    }
}

fn text_to_cell(field: &Option<String>) -> (cell: String)
    ensures
        cell@ == text_cell(text_view(*field)),
{
    match field {
        Some(s) => s.clone(),
        None => String::new(),
    }
}

fn rating_to_cell(field: &Option<Decimal>) -> (cell: String)
    ensures
        cell@ == rating_cell(rating_view(*field)),
        rating_fits(rating_view(*field)),
{
    match field {
        Some(d) => d.to_string(),
        None => String::new(),
    }
}

fn cell_to_text(cell: &String) -> (field: Option<String>)
    ensures
        text_view(field) == cell_text(cell@),
{
    if cell.as_str().is_empty() {
        None
    } else {
        Some(cell.clone())
    }
}

/// The rating in a cell; the outer `None` says that the cell holds none.
fn cell_to_rating(cell: &String) -> (field: Option<Option<Decimal>>)
    ensures
        match field {
            Some(rating) => cell_is_rating(cell@) && rating_view(rating) == cell_rating(cell@),
            None => !cell_is_rating(cell@),
        },
{
    if cell.as_str().is_empty() {
        Some(None)
    } else {
        match Decimal::parse(cell.as_str()) {
            Some(d) => Some(Some(d)),
            None => None,
        }
    }
}

/// The row of cells for one employee, in column order.
pub fn encode_record(employee: &Employee) -> (row: Vec<String>)
    ensures
        texts(row@) == encode_row(employee@),
        employee@.ratings_fit(),
{
    let mut row: Vec<String> = Vec::new();
    row.push(employee.user_id.clone());
    row.push(employee.pr_group_2025.clone());
    row.push(employee.first_name.clone());
    row.push(employee.last_name.clone());
    row.push(employee.current_position.clone());
    row.push(text_to_cell(&employee.current_temp_position));
    row.push(rating_to_cell(&employee.pr_2021));
    row.push(rating_to_cell(&employee.pr_2022));
    row.push(rating_to_cell(&employee.pr_2023));
    row.push(rating_to_cell(&employee.pr_2024));
    row.push(text_to_cell(&employee.user_9box_2024));
    row.push(text_to_cell(&employee.user_9box_2025));
    row.push(text_to_cell(&employee.notes));
    row.push(text_to_cell(&employee.current_label));
    row.push(text_to_cell(&employee.email));
    row.push(text_to_cell(&employee.manager_id));
    row.push(text_to_cell(&employee.department));
    row.push(text_to_cell(&employee.location));
    row.push(text_to_cell(&employee.hire_date));
    assert(texts(row@) =~= encode_row(employee@));
    row
}

/// The header row: the column names in column order.
pub fn header_record() -> (row: Vec<String>)
    ensures
        texts(row@) == column_names(),
{
    let mut row: Vec<String> = Vec::new();
    let mut k: usize = 0;
    while k < COLUMN_COUNT
        invariant
            k <= COLUMN_COUNT,
            row.len() == k,
            forall|t: int| 0 <= t < k ==> row[t]@ == column_names()[t],
        decreases COLUMN_COUNT - k,
    {
        match column_name(k) {
            Some(name) => {
                row.push(name.to_owned());
            },
            None => {},
        }
        k = k + 1;
    }
    assert(texts(row@) =~= column_names());
    row
}

/// Where each column stands in `header`.
///
/// `Ok` holds, for each column in column order, the index of the cell of
/// `header` that names it. `Err` is the fault of the header.
pub(crate) fn column_positions(header: &Vec<String>) -> (outcome: Result<Vec<usize>, CsvError>)
    ensures
        match outcome {
            Ok(positions) => {
                &&& header_fault(texts(header@)) is None
                &&& positions.len() == COLUMN_COUNT
                &&& forall|k: int|
                    0 <= k < COLUMN_COUNT ==> #[trigger] positions[k] == first_index(
                        texts(header@),
                        column_names()[k],
                    ) && positions[k] < header.len()
            },
            Err(fault) => header_fault(texts(header@)) == Some(fault),
        },
{
    let ghost h = texts(header@);
    let mut positions: Vec<usize> = Vec::new();
    let mut k: usize = 0;
    while k < COLUMN_COUNT
        invariant
            k <= COLUMN_COUNT,
            h == texts(header@),
            positions.len() == k,
            header_fault(h) == header_fault_from(h, k as int),
            forall|t: int|
                0 <= t < k ==> #[trigger] positions[t] == first_index(h, column_names()[t])
                    && positions[t] < header.len(),
        decreases COLUMN_COUNT - k,
    {
        let ghost name = column_names()[k as int];
        match column_name(k) {
            Some(column) => {
                let wanted = column.to_owned();
                proof {
                    lemma_first_index(h, name);
                }
                match find_text(header, 0, &wanted) {
                    None => {
                        proof {
                            if h.contains(name) {
                                let i = choose|i: int| 0 <= i < h.len() && h[i] == name;
                                assert(header[i]@ == name);
                            }
                        }
                        return Err(CsvError::MissingColumn { column: k });
                    },
                    Some(first) => {
                        assert(h[first as int] == name);
                        assert(first_index(h, name) == first) by {
                            let f = first_index(h, name);
                            if f < first {
                                assert(header[f]@ == h[f]);
                            }
                        }
                        match find_text(header, first + 1, &wanted) {
                            Some(second) => {
                                assert(h[second as int] == name);
                                assert(names_twice(h, name));
                                return Err(CsvError::DuplicateColumn { column: k });
                            },
                            None => {
                                proof {
                                    if names_twice(h, name) {
                                        let (i, j) = choose|i: int, j: int|
                                            0 <= i < j < h.len() && #[trigger] h[i] == name
                                                && #[trigger] h[j] == name;
                                        assert(header[i]@ == name);
                                        assert(header[j]@ == name);
                                    }
                                }
                                positions.push(first);
                            },
                        }
                    },
                }
            },
            None => {},
        }
        k = k + 1;
    }
    Ok(positions)
}

/// Decodes row number `number` of a table whose sound header is `header`.
pub(crate) fn decode_row(
    header: &Vec<String>,
    positions: &Vec<usize>,
    row: &Vec<String>,
    number: usize,
) -> (outcome: Result<Employee, CsvError>)
    requires
        positions.len() == COLUMN_COUNT,
        forall|k: int|
            0 <= k < COLUMN_COUNT ==> #[trigger] positions[k] == first_index(
                texts(header@),
                column_names()[k],
            ) && positions[k] < header.len(),
    ensures
        record_view(outcome) == decode_record(texts(header@), texts(row@), number as int),
{
    if row.len() != header.len() {
        return Err(
            CsvError::FieldCount { row: number, expected: header.len(), found: row.len() },
        );
    }
    let ghost cells = arranged(texts(header@), texts(row@));
    proof {
        assert forall|k: int| 0 <= k < COLUMN_COUNT implies cells[k] == row[positions[k] as int]@ by {}
    }
    let pr_2021 = match cell_to_rating(&row[positions[6]]) {
        Some(rating) => rating,
        None => {
            return Err(CsvError::InvalidNumber { row: number, column: 6 });
        },
    };
    let pr_2022 = match cell_to_rating(&row[positions[7]]) {
        Some(rating) => rating,
        None => {
            return Err(CsvError::InvalidNumber { row: number, column: 7 });
        },
    };
    let pr_2023 = match cell_to_rating(&row[positions[8]]) {
        Some(rating) => rating,
        None => {
            return Err(CsvError::InvalidNumber { row: number, column: 8 });
        },
    };
    let pr_2024 = match cell_to_rating(&row[positions[9]]) {
        Some(rating) => rating,
        None => {
            return Err(CsvError::InvalidNumber { row: number, column: 9 });
        },
    };
    let employee = Employee {
        user_id: row[positions[0]].clone(),
        pr_group_2025: row[positions[1]].clone(),
        first_name: row[positions[2]].clone(),
        last_name: row[positions[3]].clone(),
        current_position: row[positions[4]].clone(),
        current_temp_position: cell_to_text(&row[positions[5]]),
        pr_2021,
        pr_2022,
        pr_2023,
        pr_2024,
        user_9box_2024: cell_to_text(&row[positions[10]]),
        user_9box_2025: cell_to_text(&row[positions[11]]),
        notes: cell_to_text(&row[positions[12]]),
        current_label: cell_to_text(&row[positions[13]]),
        email: cell_to_text(&row[positions[14]]),
        manager_id: cell_to_text(&row[positions[15]]),
        department: cell_to_text(&row[positions[16]]),
        location: cell_to_text(&row[positions[17]]),
        hire_date: cell_to_text(&row[positions[18]]),
    };
    assert(employee@ == record_of(cells));
    Ok(employee)
}

/// A row is read exactly when every cell fits the kind of its column, and
/// the column that a fault names is the first whose cell does not.
pub proof fn lemma_bad_rating_by_kind(cells: Seq<Seq<char>>)
    requires
        cells.len() == COLUMN_COUNT,
    ensures
        bad_rating(cells) is None <==> forall|k: int|
            0 <= k < COLUMN_COUNT ==> cell_fits(column_kinds()[k], #[trigger] cells[k]),
        bad_rating(cells) matches Some(column) ==> {
            &&& 0 <= column < COLUMN_COUNT
            &&& !cell_fits(column_kinds()[column], cells[column])
            &&& forall|k: int| 0 <= k < column ==> cell_fits(column_kinds()[k], #[trigger] cells[k])
        },
{
    if bad_rating(cells) is None {
        assert forall|k: int| 0 <= k < COLUMN_COUNT implies cell_fits(
            column_kinds()[k],
            #[trigger] cells[k],
        ) by {
            if 6 <= k <= 9 {
                assert(k == 6 || k == 7 || k == 8 || k == 9);
            }
        }
    } else {
        let column = bad_rating(cells)->0;
        assert(!cell_fits(column_kinds()[column], cells[column]));
        assert forall|k: int| 0 <= k < column implies cell_fits(
            column_kinds()[k],
            #[trigger] cells[k],
        ) by {
            if 6 <= k <= 9 {
                assert(k == 6 || k == 7 || k == 8 || k == 9);
            }
        }
    }
}

} // verus!
