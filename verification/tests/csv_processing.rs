use box_planner_core::csv_processing::{decode_records, encode_records};
use box_planner_core::schema::{column_name, COLUMN_COUNT};
use box_planner_core::{
    export_employees_to_csv, import_employees_from_csv, CsvError, Decimal, Employee,
};

const HEADER: &str = "User ID,PR Group 2025,First Name,Last Name,Current Position,Current Temp Position,PR2021,PR2022,PR2023,PR2024,User 9Box 2024,User 9Box 2025,Notes,Current Label,Email,Manager ID,Department,Location,Hire Date\n";

fn cells_of(rows: &[Vec<String>]) -> Vec<Vec<Vec<u8>>> {
    rows.iter().map(|row| row.iter().map(|cell| cell.as_bytes().to_vec()).collect()).collect()
}

fn text(value: &str) -> Option<String> {
    Some(value.to_string())
}

fn rating(field: &Option<Decimal>) -> Option<f64> {
    field.as_ref().map(|d| d.to_string().parse::<f64>().unwrap())
}

fn get_sample_employees() -> Vec<Employee> {
    vec![
        Employee {
            user_id: "user1".to_string(),
            pr_group_2025: "Group A".to_string(),
            first_name: "John".to_string(),
            last_name: "Doe".to_string(),
            current_position: "Developer".to_string(),
            current_temp_position: None,
            pr_2021: Decimal::parse("4.0"),
            pr_2022: Decimal::parse("4.1"),
            pr_2023: Decimal::parse("4.2"),
            pr_2024: Decimal::parse("4.3"),
            user_9box_2024: text("Top Talent"),
            user_9box_2025: text("Growth Potential"),
            notes: text("High performer"),
            current_label: text("Senior"),
            email: text("john.doe@example.com"),
            manager_id: text("manager1"),
            department: text("Engineering"),
            location: text("New York"),
            hire_date: text("2020-01-15"),
        },
        Employee {
            user_id: "user2".to_string(),
            pr_group_2025: "Group B".to_string(),
            first_name: "Jane".to_string(),
            last_name: "Smith".to_string(),
            current_position: "Manager".to_string(),
            current_temp_position: text("Acting Director"),
            pr_2021: None,
            pr_2022: Decimal::parse("4.5"),
            pr_2023: Decimal::parse("4.6"),
            pr_2024: None,
            user_9box_2024: None,
            user_9box_2025: text("Key Player"),
            notes: None,
            current_label: None,
            email: text("jane.smith@example.com"),
            manager_id: None,
            department: text("Management"),
            location: text("London"),
            hire_date: text("2018-05-20"),
        },
    ]
}

fn minimal(user_id: &str) -> Employee {
    Employee {
        user_id: user_id.to_string(),
        pr_group_2025: "G1".to_string(),
        first_name: "A".to_string(),
        last_name: "B".to_string(),
        current_position: "Dev".to_string(),
        current_temp_position: None,
        pr_2021: None,
        pr_2022: None,
        pr_2023: None,
        pr_2024: None,
        user_9box_2024: None,
        user_9box_2025: None,
        notes: None,
        current_label: None,
        email: None,
        manager_id: None,
        department: None,
        location: None,
        hire_date: None,
    }
}

#[test]
fn test_import_simple_csv() {
    let csv_data = r#"User ID,PR Group 2025,First Name,Last Name,Current Position,Current Temp Position,PR2021,PR2022,PR2023,PR2024,User 9Box 2024,User 9Box 2025,Notes,Current Label,Email,Manager ID,Department,Location,Hire Date
user1,Group A,John,Doe,Developer,,4.0,4.1,4.2,4.3,Top Talent,Growth Potential,High performer,Senior,john.doe@example.com,manager1,Engineering,New York,2020-01-15
user2,Group B,Jane,Smith,Manager,Acting Director,,,4.5,4.6,,Key Player,,,jane.smith@example.com,,Management,London,2018-05-20
"#;
    let result = import_employees_from_csv(csv_data.as_bytes());
    assert!(result.is_ok(), "CSV import failed: {:?}", result.err());

    let employees = result.unwrap();
    assert_eq!(employees.len(), 2);

    let emp1 = &employees[0];
    assert_eq!(emp1.user_id, "user1");
    assert_eq!(emp1.first_name, "John");
    assert_eq!(emp1.pr_group_2025, "Group A");
    assert_eq!(rating(&emp1.pr_2024), Some(4.3));
    assert_eq!(emp1.notes, Some("High performer".to_string()));
    assert_eq!(emp1.current_temp_position, None);
    assert_eq!(emp1.email, Some("john.doe@example.com".to_string()));
    assert_eq!(emp1.manager_id, Some("manager1".to_string()));
    assert_eq!(emp1.department, Some("Engineering".to_string()));
    assert_eq!(emp1.location, Some("New York".to_string()));
    assert_eq!(emp1.hire_date, Some("2020-01-15".to_string()));

    let emp2 = &employees[1];
    assert_eq!(emp2.user_id, "user2");
    assert_eq!(emp2.first_name, "Jane");
    assert_eq!(emp2.pr_group_2025, "Group B");
    assert_eq!(rating(&emp2.pr_2021), None);
    assert_eq!(emp2.current_temp_position, Some("Acting Director".to_string()));
    assert_eq!(emp2.email, Some("jane.smith@example.com".to_string()));
    assert_eq!(emp2.manager_id, None);
}

#[test]
fn test_export_simple_csv() {
    let employees = get_sample_employees();

    let result = export_employees_to_csv(&employees);
    assert!(result.is_ok(), "CSV export failed: {:?}", result.err());

    let csv_output = String::from_utf8(result.unwrap()).expect("CSV output is not valid UTF-8");

    let expected_csv_header = HEADER;
    let expected_csv_emp1 = "user1,Group A,John,Doe,Developer,,4.0,4.1,4.2,4.3,Top Talent,Growth Potential,High performer,Senior,john.doe@example.com,manager1,Engineering,New York,2020-01-15\n";
    let expected_csv_emp2 = "user2,Group B,Jane,Smith,Manager,Acting Director,,4.5,4.6,,,Key Player,,,jane.smith@example.com,,Management,London,2018-05-20\n";
    let expected_csv_data = format!("{}{}{}", expected_csv_header, expected_csv_emp1, expected_csv_emp2);

    assert_eq!(csv_output, expected_csv_data);
}

#[test]
fn test_csv_round_trip() {
    let written_employees = get_sample_employees();

    let export_result = export_employees_to_csv(&written_employees);
    assert!(export_result.is_ok(), "Export failed: {:?}", export_result.err());
    let buffer = export_result.unwrap();

    let import_result = import_employees_from_csv(buffer.as_slice());
    assert!(import_result.is_ok(), "Import failed: {:?}", import_result.err());

    let imported_employees = import_result.unwrap();

    assert_eq!(written_employees, imported_employees);
}

#[test]
fn import_row_with_every_optional_cell_empty() {
    let data = format!("{}u1,G1,A,B,Dev,,,,,,,,,,,,,,\n", HEADER);
    let roster = import_employees_from_csv(data.as_bytes()).unwrap();
    assert_eq!(roster.len(), 1);
    assert_eq!(roster[0].user_id, "u1");
    assert_eq!(roster[0].first_name, "A");
    assert_eq!(roster[0], minimal("u1"));
}

#[test]
fn import_keeps_the_order_of_the_rows_and_duplicate_ids() {
    let data = format!(
        "{}u2,G1,A,B,Dev,,,,,,,,,,,,,,\nu1,G1,A,B,Dev,,,,,,,,,,,,,,\nu2,G1,A,B,Dev,,,,,,,,,,,,,,\n",
        HEADER
    );
    let roster = import_employees_from_csv(data.as_bytes()).unwrap();
    let ids: Vec<&str> = roster.iter().map(|e| e.user_id.as_str()).collect();
    assert_eq!(ids, vec!["u2", "u1", "u2"]);
}

#[test]
fn import_header_only_gives_empty_roster() {
    let roster = import_employees_from_csv(HEADER.as_bytes()).unwrap();
    assert!(roster.is_empty());
}

#[test]
fn import_empty_input_lacks_the_first_column() {
    let fault = import_employees_from_csv(b"").unwrap_err();
    assert_eq!(fault, CsvError::MissingColumn { column: 0 });
    assert!(fault.is_schema_error());
    assert!(!fault.is_parse_error());
    assert_eq!(fault.column_name(), Some("User ID"));
}

#[test]
fn import_header_without_a_column_is_a_schema_error() {
    for missing in 0..COLUMN_COUNT {
        let names: Vec<&str> = (0..COLUMN_COUNT)
            .filter(|k| *k != missing)
            .map(|k| column_name(k).unwrap())
            .collect();
        let data = format!("{}\n", names.join(","));
        let fault = import_employees_from_csv(data.as_bytes()).unwrap_err();
        assert_eq!(fault, CsvError::MissingColumn { column: missing });
        assert!(fault.is_schema_error());
        assert_eq!(fault.column_name(), column_name(missing));
        assert_eq!(fault.row(), None);
    }
}

#[test]
fn import_header_with_a_column_twice_is_a_schema_error() {
    let data = format!("{},Email\n", HEADER.trim_end());
    let fault = import_employees_from_csv(data.as_bytes()).unwrap_err();
    assert_eq!(fault, CsvError::DuplicateColumn { column: 14 });
    assert!(fault.is_schema_error());
    assert_eq!(fault.column_name(), Some("Email"));
}

#[test]
fn import_non_numeric_rating_names_row_and_column() {
    let data = format!(
        "{}u1,G1,A,B,Dev,,,,,,,,,,,,,,\nu2,G1,A,B,Dev,,4.0,high,4.2,,,,,,,,,,\n",
        HEADER
    );
    let fault = import_employees_from_csv(data.as_bytes()).unwrap_err();
    assert_eq!(fault, CsvError::InvalidNumber { row: 2, column: 7 });
    assert!(fault.is_parse_error());
    assert!(!fault.is_schema_error());
    assert_eq!(fault.column_name(), Some("PR2022"));
    assert_eq!(fault.row(), Some(2));
    assert_eq!(fault.column(), Some(7));
}

#[test]
fn import_short_row_is_a_parse_error() {
    let data = format!("{}u1,G1,A,B,Dev\n", HEADER);
    let fault = import_employees_from_csv(data.as_bytes()).unwrap_err();
    assert_eq!(fault, CsvError::FieldCount { row: 1, expected: 19, found: 5 });
    assert!(fault.is_parse_error());
    assert_eq!(fault.row(), Some(1));
    assert_eq!(fault.column(), None);
    assert_eq!(fault.column_name(), None);
}

#[test]
fn import_long_row_is_a_parse_error() {
    let data = format!("{}u1,G1,A,B,Dev,,,,,,,,,,,,,,,extra\n", HEADER);
    let fault = import_employees_from_csv(data.as_bytes()).unwrap_err();
    assert_eq!(fault, CsvError::FieldCount { row: 1, expected: 19, found: 20 });
}

#[test]
fn import_text_that_is_not_utf8_is_malformed() {
    let mut data = HEADER.as_bytes().to_vec();
    data.extend_from_slice(b"u1,G1,\xff\xfe,B,Dev,,,,,,,,,,,,,,\n");
    let fault = import_employees_from_csv(&data).unwrap_err();
    assert_eq!(fault, CsvError::Malformed { row: 1, cell: 2 });
    assert!(fault.is_parse_error());
    assert!(!fault.is_schema_error());
    assert_eq!(fault.row(), Some(1));
    assert_eq!(fault.column(), None);
    assert_eq!(fault.column_name(), None);
}

#[test]
fn import_names_the_first_cell_that_is_not_utf8() {
    let mut data = HEADER.as_bytes().to_vec();
    data.extend_from_slice(b"u1,G1,A,B,Dev,,,,,,,,,,,,,,\n");
    data.extend_from_slice(b"u2,G1,A,B,Dev,,,,,,,,\xc3\x28,,,,\xff,,\n");
    data.extend_from_slice(b"\xff,G1,A,B,Dev,,,,,,,,,,,,,,\n");
    let fault = import_employees_from_csv(&data).unwrap_err();
    assert_eq!(fault, CsvError::Malformed { row: 2, cell: 12 });
}

#[test]
fn import_header_with_a_cell_that_is_not_utf8_is_malformed_in_row_zero() {
    let mut data = HEADER.trim_end().as_bytes().to_vec();
    data.extend_from_slice(b",\x80\n");
    data.extend_from_slice(b"u1,G1,A,B,Dev,,,,,,,,,,,,,,,x\n");
    let fault = import_employees_from_csv(&data).unwrap_err();
    assert_eq!(fault, CsvError::Malformed { row: 0, cell: 19 });
    assert_eq!(fault.row(), Some(0));
}

#[test]
fn import_header_fault_comes_before_every_other_fault() {
    let mut data = b"User ID,\x80,First Name\n".to_vec();
    data.extend_from_slice(b"u1\n");
    data.extend_from_slice(b"u2,\xe2\x82,A\n");
    let fault = import_employees_from_csv(&data).unwrap_err();
    assert_eq!(fault, CsvError::MissingColumn { column: 1 });
    assert!(fault.is_schema_error());
}

#[test]
fn import_stops_at_the_first_row_at_fault() {
    let mut data = HEADER.as_bytes().to_vec();
    data.extend_from_slice(b"u1,G1,A,B,Dev,,4.0,high,4.2,,,,,,,,,,\n");
    data.extend_from_slice(b"u2,G1,\xff,B,Dev,,,,,,,,,,,,,,\n");
    let fault = import_employees_from_csv(&data).unwrap_err();
    assert_eq!(fault, CsvError::InvalidNumber { row: 1, column: 7 });

    let mut data = HEADER.as_bytes().to_vec();
    data.extend_from_slice(b"u1,G1,\xff,B,Dev,,,,,,,,,,,,,,\n");
    data.extend_from_slice(b"u2,G1,A,B,Dev,,4.0,high,4.2,,,,,,,,,,\n");
    let fault = import_employees_from_csv(&data).unwrap_err();
    assert_eq!(fault, CsvError::Malformed { row: 1, cell: 2 });
}

#[test]
fn import_looks_at_a_row_for_its_length_then_its_text_then_its_numbers() {
    let mut data = HEADER.as_bytes().to_vec();
    data.extend_from_slice(b"u1,G1,\xff,B,Dev,,4.0,high\n");
    let fault = import_employees_from_csv(&data).unwrap_err();
    assert_eq!(fault, CsvError::FieldCount { row: 1, expected: 19, found: 8 });

    let mut data = HEADER.as_bytes().to_vec();
    data.extend_from_slice(b"u1,G1,A,B,Dev,,4.0,high,4.2,,,,,,,,,\xff,\n");
    let fault = import_employees_from_csv(&data).unwrap_err();
    assert_eq!(fault, CsvError::Malformed { row: 1, cell: 17 });
}

#[test]
fn import_reads_text_beyond_ascii() {
    let data = format!("{}u1,G1,Zo\u{eb},M\u{fc}ller,\u{1f600} Dev,,,,,,,,,,,,,,\n", HEADER);
    let roster = import_employees_from_csv(data.as_bytes()).unwrap();
    assert_eq!(roster.len(), 1);
    assert_eq!(roster[0].first_name, "Zo\u{eb}");
    assert_eq!(roster[0].last_name, "M\u{fc}ller");
    assert_eq!(roster[0].current_position, "\u{1f600} Dev");
    let bytes = export_employees_to_csv(&roster).unwrap();
    assert_eq!(bytes, data.as_bytes());
    assert_eq!(import_employees_from_csv(&bytes).unwrap(), roster);
}

#[test]
fn decode_records_takes_cells_of_bytes_for_text() {
    let mut cells = cells_of(&encode_records(&[minimal("u1")]));
    cells[1][2] = "Zo\u{eb}".as_bytes().to_vec();
    let roster = decode_records(&cells).unwrap();
    assert_eq!(roster.len(), 1);
    assert_eq!(roster[0].first_name, "Zo\u{eb}");
    assert_eq!(decode_records(&Vec::new()), Err(CsvError::MissingColumn { column: 0 }));
}

#[test]
fn decode_records_names_the_first_cell_that_is_no_text() {
    let mut cells = cells_of(&encode_records(&[minimal("u1"), minimal("u2"), minimal("u3")]));
    cells[2][3] = vec![0xc0, 0x80];
    cells[2][7] = vec![0xff];
    cells[3][0] = vec![0xff];
    assert_eq!(decode_records(&cells), Err(CsvError::Malformed { row: 2, cell: 3 }));
    cells[2][3] = vec![0xed, 0xa0, 0x80];
    assert_eq!(decode_records(&cells), Err(CsvError::Malformed { row: 2, cell: 3 }));
    cells[2][3] = b"B".to_vec();
    assert_eq!(decode_records(&cells), Err(CsvError::Malformed { row: 2, cell: 7 }));
}

#[test]
fn import_finds_columns_by_name_in_any_order() {
    let data = "Hire Date,Extra,Location,Department,Manager ID,Email,Current Label,Notes,User 9Box 2025,User 9Box 2024,PR2024,PR2023,PR2022,PR2021,Current Temp Position,Current Position,Last Name,First Name,PR Group 2025,User ID\n2020-01-15,ignored,NY,Eng,m1,a@b.c,Senior,note,KP,TT,4.25,3,2.50,1,Lead,Dev,Doe,John,G1,u9\n";
    let roster = import_employees_from_csv(data.as_bytes()).unwrap();
    assert_eq!(roster.len(), 1);
    let e = &roster[0];
    assert_eq!(e.user_id, "u9");
    assert_eq!(e.pr_group_2025, "G1");
    assert_eq!(e.first_name, "John");
    assert_eq!(e.last_name, "Doe");
    assert_eq!(e.current_position, "Dev");
    assert_eq!(e.current_temp_position, text("Lead"));
    assert_eq!(rating(&e.pr_2021), Some(1.0));
    assert_eq!(rating(&e.pr_2022), Some(2.5));
    assert_eq!(rating(&e.pr_2023), Some(3.0));
    assert_eq!(rating(&e.pr_2024), Some(4.25));
    assert_eq!(e.user_9box_2024, text("TT"));
    assert_eq!(e.user_9box_2025, text("KP"));
    assert_eq!(e.notes, text("note"));
    assert_eq!(e.current_label, text("Senior"));
    assert_eq!(e.email, text("a@b.c"));
    assert_eq!(e.manager_id, text("m1"));
    assert_eq!(e.department, text("Eng"));
    assert_eq!(e.location, text("NY"));
    assert_eq!(e.hire_date, text("2020-01-15"));
}

#[test]
fn export_quotes_cells_with_delimiters_and_line_breaks() {
    let mut e = minimal("u1");
    e.notes = text("first, second\nthird \"quoted\"");
    e.last_name = "O'Neil, Jr.".to_string();
    let bytes = export_employees_to_csv(&[e.clone()]).unwrap();
    let written = String::from_utf8(bytes.clone()).unwrap();
    assert_eq!(
        written,
        format!(
            "{}u1,G1,A,\"O'Neil, Jr.\",Dev,,,,,,,,\"first, second\nthird \"\"quoted\"\"\",,,,,,\n",
            HEADER
        )
    );
    assert_eq!(import_employees_from_csv(&bytes).unwrap(), vec![e]);
}

#[test]
fn export_of_empty_roster_is_the_header() {
    let bytes = export_employees_to_csv(&[]).unwrap();
    assert_eq!(String::from_utf8(bytes).unwrap(), HEADER);
}

#[test]
fn round_trip_keeps_presence_and_absence_of_every_optional_field() {
    let mut full = minimal("u1");
    full.current_temp_position = text("Lead");
    full.pr_2021 = Decimal::parse("-0.5");
    full.pr_2022 = Decimal::parse("10");
    full.pr_2023 = Decimal::parse("0");
    full.pr_2024 = Decimal::parse("123456789012345678901234567890.000000000000000000001");
    full.user_9box_2024 = text("1A");
    full.user_9box_2025 = text("2B");
    full.notes = text(" padded ");
    full.current_label = text("L");
    full.email = text("e@x");
    full.manager_id = text("m");
    full.department = text("D");
    full.location = text("Zürich");
    full.hire_date = text("yesterday");
    let roster = vec![minimal("u0"), full, minimal("")];
    let bytes = export_employees_to_csv(&roster).unwrap();
    assert_eq!(import_employees_from_csv(&bytes).unwrap(), roster);
}

#[test]
fn present_but_empty_text_reads_back_as_absent() {
    let mut e = minimal("u1");
    e.notes = text("");
    let bytes = export_employees_to_csv(&[e]).unwrap();
    assert_eq!(import_employees_from_csv(&bytes).unwrap(), vec![minimal("u1")]);
}

#[test]
fn records_round_trip_without_the_text() {
    let roster = get_sample_employees();
    let rows = encode_records(&roster);
    assert_eq!(rows.len(), 3);
    assert_eq!(rows[0].join(","), HEADER.trim_end());
    assert_eq!(rows[1][6], "4.0");
    assert_eq!(rows[2][5], "Acting Director");
    assert_eq!(rows[2][6], "");
    assert_eq!(decode_records(&cells_of(&rows)), Ok(roster));
}
