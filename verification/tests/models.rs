use box_planner_core::schema::{column_kind, column_name, FieldKind, COLUMN_COUNT};
use box_planner_core::{GridBox, Skill};

#[test]
fn columns_are_nineteen_in_the_written_order() {
    let names: Vec<&str> = (0..COLUMN_COUNT).map(|k| column_name(k).unwrap()).collect();
    assert_eq!(
        names,
        vec![
            "User ID",
            "PR Group 2025",
            "First Name",
            "Last Name",
            "Current Position",
            "Current Temp Position",
            "PR2021",
            "PR2022",
            "PR2023",
            "PR2024",
            "User 9Box 2024",
            "User 9Box 2025",
            "Notes",
            "Current Label",
            "Email",
            "Manager ID",
            "Department",
            "Location",
            "Hire Date",
        ]
    );
    assert_eq!(COLUMN_COUNT, 19);
    assert_eq!(column_name(19), None);
    assert_eq!(column_name(usize::MAX), None);
}

#[test]
fn columns_have_their_kinds() {
    for k in 0..5 {
        assert_eq!(column_kind(k), Some(FieldKind::Text));
    }
    assert_eq!(column_kind(5), Some(FieldKind::OptionalText));
    for k in 6..10 {
        assert_eq!(column_kind(k), Some(FieldKind::OptionalDecimal));
    }
    for k in 10..19 {
        assert_eq!(column_kind(k), Some(FieldKind::OptionalText));
    }
    assert_eq!(column_kind(19), None);
}

#[test]
fn skills_and_boxes_are_plain_records() {
    let skill = Skill { id: "s1".to_string(), name: "Rust".to_string() };
    assert_eq!(skill.clone(), skill);
    assert_ne!(skill, Skill { id: "s1".to_string(), name: "Go".to_string() });
    let cell = GridBox {
        id: "1A".to_string(),
        label: "High Perf / High Pot".to_string(),
        description: String::new(),
    };
    assert_eq!(cell.clone(), cell);
    assert_eq!(cell.id, "1A");
}
