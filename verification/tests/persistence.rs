use box_planner_core::persistence::note_file_name;
use box_planner_core::{
    load_app_settings, load_employee_note, save_employee_note, AppSettings, Decimal, NoteData,
    Stored,
};

#[test]
fn note_is_kept_under_the_identifier_with_json_suffix() {
    assert_eq!(note_file_name("emp123"), "emp123.json");
    assert_eq!(note_file_name(""), ".json");
    let (name, document) = save_employee_note("emp123", "This is a test note.");
    assert_eq!(name, "emp123.json");
    assert_eq!(document, NoteData { notes: "This is a test note.".to_string() });
}

#[test]
fn saved_note_loads_as_it_was_saved() {
    let (_, document) = save_employee_note("emp001", "Test content.");
    assert_eq!(load_employee_note(Stored::Found(document)), Ok(Some("Test content.".to_string())));
}

#[test]
fn missing_note_is_absent_and_not_an_error() {
    assert_eq!(load_employee_note(Stored::Missing), Ok(None));
}

#[test]
fn empty_note_is_not_an_absent_note() {
    let (_, document) = save_employee_note("emp001", "");
    assert_eq!(load_employee_note(Stored::Found(document)), Ok(Some(String::new())));
}

#[test]
fn failure_of_the_note_store_is_passed_on() {
    assert_eq!(load_employee_note(Stored::Failed("disk".to_string())), Err("disk".to_string()));
}

#[test]
fn default_settings_are_those_of_a_first_start() {
    let settings = AppSettings::default();
    assert_eq!(settings.theme_preference, "system");
    assert!(settings.department_colors.is_empty());
    assert!(!settings.auto_save_enabled);
    assert_eq!(settings.view_scale, Some(Decimal::one()));
    assert_eq!(settings.view_scale.unwrap().to_string().parse::<f32>().unwrap(), 1.0);
}

#[test]
fn missing_settings_are_the_defaults_and_not_an_error() {
    assert_eq!(load_app_settings(Stored::Missing), Ok(AppSettings::default()));
}

#[test]
fn found_settings_are_returned_as_they_are() {
    let mut settings = AppSettings::default();
    settings.theme_preference = "dark".to_string();
    settings.auto_save_enabled = true;
    settings.department_colors.insert("Engineering".to_string(), "#FF0000".to_string());
    settings.view_scale = None;
    assert_eq!(load_app_settings(Stored::Found(settings.clone())), Ok(settings));
}

#[test]
fn failure_of_the_settings_store_is_passed_on() {
    assert_eq!(
        load_app_settings(Stored::Failed("unreadable".to_string())),
        Err("unreadable".to_string())
    );
}

#[test]
fn test_save_and_load_employee_note() {
    let employee_id = "emp123";
    let note_content = "This is a test note.";

    let (file_name, document) = save_employee_note(employee_id, note_content);
    assert_eq!(file_name, format!("{}.json", employee_id));
    assert_eq!(document.notes, note_content);

    let load_result = load_employee_note(Stored::Found(document));
    assert!(load_result.is_ok(), "Failed to load note: {:?}", load_result.clone().err());
    assert_eq!(load_result.unwrap(), Some(note_content.to_string()));

    assert_ne!(note_file_name("non_existent_emp"), file_name);
    let non_existent_load_result = load_employee_note(Stored::Missing);
    assert!(
        non_existent_load_result.is_ok(),
        "Error when loading non-existent note: {:?}",
        non_existent_load_result.clone().err()
    );
    assert_eq!(non_existent_load_result.unwrap(), None);
}

#[test]
fn test_save_and_load_app_settings() {
    let mut settings = AppSettings::default();
    settings.theme_preference = "dark".to_string();
    settings.auto_save_enabled = true;
    settings.department_colors.insert("Engineering".to_string(), "#FF0000".to_string());

    let load_result = load_app_settings(Stored::Found(settings.clone()));
    assert!(load_result.is_ok(), "Failed to load settings: {:?}", load_result.clone().err());
    assert_eq!(load_result.unwrap(), settings);
    assert_eq!(settings.view_scale, Some(Decimal::one()));
}

#[test]
fn test_load_default_app_settings_if_file_not_exists() {
    let load_result = load_app_settings(Stored::Missing);
    assert!(load_result.is_ok(), "Failed to load default settings: {:?}", load_result.clone().err());
    assert_eq!(load_result.unwrap(), AppSettings::default());
}
