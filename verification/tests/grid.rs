use box_planner_core::GridState;

fn names(list: &[&str]) -> Vec<String> {
    list.iter().map(|s| s.to_string()).collect()
}

#[test]
fn new_grid_is_empty() {
    let grid = GridState::new();
    assert!(grid.is_empty());
    assert_eq!(grid, GridState::default());
    assert_eq!(grid.occupants_of("1A"), Vec::<String>::new());
    assert_eq!(grid.cell_of("u1"), None);
}

#[test]
fn assign_places_the_occupant() {
    let mut grid = GridState::new();
    grid.assign("u1", "1A");
    assert!(!grid.is_empty());
    assert_eq!(grid.occupants_of("1A"), names(&["u1"]));
    assert_eq!(grid.cell_of("u1"), Some("1A".to_string()));
    assert_eq!(grid.occupants_of("2B"), Vec::<String>::new());
}

#[test]
fn assign_to_another_cell_moves_the_occupant_and_drops_the_empty_cell() {
    let mut grid = GridState::new();
    grid.assign("e", "1A");
    grid.assign("e", "2B");
    assert_eq!(grid.cell_of("e"), Some("2B".to_string()));
    assert_eq!(grid.occupants_of("2B"), names(&["e"]));
    assert_eq!(grid.occupants_of("1A"), Vec::<String>::new());
    assert!(!grid.contains_cell("1A"));
    assert!(grid.contains_cell("2B"));
    let mut only_second = GridState::new();
    only_second.assign("e", "2B");
    assert_eq!(grid, only_second);
}

#[test]
fn assign_to_another_cell_leaves_the_others_where_they_are() {
    let mut grid = GridState::new();
    grid.assign("a", "1A");
    grid.assign("e", "1A");
    grid.assign("b", "1A");
    grid.assign("e", "2B");
    assert_eq!(grid.occupants_of("1A"), names(&["a", "b"]));
    assert_eq!(grid.occupants_of("2B"), names(&["e"]));
}

#[test]
fn assign_twice_is_assign_once() {
    let mut once = GridState::new();
    once.assign("a", "1A");
    once.assign("e", "1A");
    let mut twice = once.clone();
    twice.assign("e", "1A");
    assert_eq!(twice, once);
    assert_eq!(twice.cell_of("e"), Some("1A".to_string()));
    assert_eq!(twice.occupants_of("1A"), names(&["a", "e"]));
}

#[test]
fn assign_again_moves_the_occupant_to_the_end_of_its_cell() {
    let mut grid = GridState::new();
    grid.assign("u1", "1A");
    grid.assign("u2", "1A");
    grid.assign("u3", "1A");
    grid.assign("u1", "1A");
    assert_eq!(grid.occupants_of("1A"), names(&["u2", "u3", "u1"]));
}

#[test]
fn assign_same_twice_then_another() {
    let mut grid = GridState::new();
    grid.assign("u1", "1A");
    grid.assign("u1", "1A");
    grid.assign("u2", "1A");
    assert_eq!(grid.occupants_of("1A"), names(&["u1", "u2"]));
}

#[test]
fn unassign_of_someone_unassigned_changes_nothing() {
    let mut grid = GridState::new();
    grid.unassign("ghost");
    assert!(grid.is_empty());
    grid.assign("u1", "1A");
    grid.assign("u2", "2B");
    let before = grid.clone();
    grid.unassign("ghost");
    assert_eq!(grid, before);
}

#[test]
fn unassign_takes_out_and_drops_the_empty_cell() {
    let mut grid = GridState::new();
    grid.assign("u1", "1A");
    grid.assign("u2", "1A");
    grid.assign("u3", "3C");
    grid.unassign("u1");
    assert_eq!(grid.cell_of("u1"), None);
    assert_eq!(grid.occupants_of("1A"), names(&["u2"]));
    assert!(grid.contains_cell("3C"));
    grid.unassign("u3");
    assert!(!grid.contains_cell("3C"));
    assert_eq!(grid.occupants_of("3C"), Vec::<String>::new());
    grid.unassign("u2");
    assert!(grid.is_empty());
}

#[test]
fn cells_are_any_text() {
    let mut grid = GridState::new();
    grid.assign("u1", "");
    grid.assign("u2", "TestBox_Assign");
    grid.assign("", "1a");
    assert_eq!(grid.cell_of("u1"), Some(String::new()));
    assert_eq!(grid.cell_of(""), Some("1a".to_string()));
    assert_eq!(grid.occupants_of("1A"), Vec::<String>::new());
    assert_eq!(grid.occupants_of("TestBox_Assign"), names(&["u2"]));
}

#[test]
fn grids_are_equal_when_they_are_the_same_mapping() {
    let mut one = GridState::new();
    one.assign("a", "1A");
    one.assign("b", "2B");
    one.assign("c", "1A");
    let mut other = GridState::new();
    other.assign("b", "2B");
    other.assign("a", "1A");
    other.assign("c", "1A");
    assert_eq!(one, other);
    assert_eq!(other, one);
    assert_eq!(one.clone(), one);
}

#[test]
fn grids_differ_by_a_cell_an_occupant_or_an_order() {
    let mut one = GridState::new();
    one.assign("a", "1A");
    one.assign("c", "1A");
    let mut fewer = GridState::new();
    fewer.assign("a", "1A");
    assert_ne!(one, fewer);
    assert_ne!(fewer, one);
    let mut turned = GridState::new();
    turned.assign("c", "1A");
    turned.assign("a", "1A");
    assert_ne!(one, turned);
    let mut elsewhere = GridState::new();
    elsewhere.assign("a", "2B");
    elsewhere.assign("c", "2B");
    assert_ne!(one, elsewhere);
    assert_ne!(one, GridState::new());
    assert_ne!(GridState::new(), one);
}
