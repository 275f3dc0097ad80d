//! Core of a 9-box talent planner: the employee roster and its tabular
//! interchange format, the grid that places each employee in at most one
//! cell, and the decisions the planner takes around its note and settings
//! stores.

pub mod csv_processing;
pub mod decimal;
pub mod grid;
pub mod models;
pub mod persistence;
pub mod schema;
pub mod session;
pub mod text;

pub use csv_processing::{export_employees_to_csv, import_employees_from_csv};
pub use decimal::Decimal;
pub use models::{AppSettings, Employee, GridBox, GridState, Skill};
pub use schema::CsvError;
pub use persistence::{load_app_settings, load_employee_note, save_employee_note, NoteData, Stored};
pub use session::{App, Effect, Message};
