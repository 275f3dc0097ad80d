//! What the planner decides around its two stores.
//!
//! Notes and settings live in a store of named documents that is not part of
//! this crate: the host reads and writes it. Here stands what is asked of the
//! store and what its answers mean: under which name a note is kept, what an
//! absent document stands for, and that a failure of the store is passed on
//! and never taken for absence.

use crate::models::AppSettings;
use vstd::prelude::*;
use vstd::string::*;

verus! {

/// What the store answered when asked for a document.
#[derive(Debug, Clone, PartialEq)]
pub enum Stored<T> {
    /// The document, read and understood.
    Found(T),
    /// The store holds no such document.
    Missing,
    /// The store failed, or the document could not be understood.
    Failed(String),
}

/// The document that holds the note on one employee.
#[derive(Debug, Clone, PartialEq)]
pub struct NoteData {
    pub notes: String,
}

/// The name under which the note on `employee_id` is kept.
pub open spec fn note_name(employee_id: Seq<char>) -> Seq<char> {
    employee_id + ".json"@
}

/// The name under which the note on `employee_id` is kept: the identifier
/// followed by `.json`.
pub fn note_file_name(employee_id: &str) -> (name: String)
    ensures
        name@ == note_name(employee_id@),
{
    let mut name = employee_id.to_owned();
    name.append(".json");
    name
}

/// What is to be put into the note store to keep `note_content` as the note
/// on `employee_id`: the name of the document, and the document. Whatever was
/// kept under that name before is replaced.
pub fn save_employee_note(employee_id: &str, note_content: &str) -> (put: (String, NoteData))
    ensures
        put.0@ == note_name(employee_id@),
        put.1.notes@ == note_content@,
{
    (note_file_name(employee_id), NoteData { notes: note_content.to_owned() })
}

/// The note that the store's answer stands for. No document means no note,
/// which is not the same as an empty note and is no error.
pub fn load_employee_note(stored: Stored<NoteData>) -> (outcome: Result<Option<String>, String>)
    ensures
        outcome == match stored {
            Stored::Found(document) => Ok::<Option<String>, String>(Some(document.notes)),
            Stored::Missing => Ok(None),
            Stored::Failed(reason) => Err(reason),
        },
{
    match stored {
        Stored::Found(document) => Ok(Some(document.notes)),
        Stored::Missing => Ok(None),
        Stored::Failed(reason) => Err(reason),
    }
}

/// The settings that the store's answer stands for. Where nothing was ever
/// stored these are the settings of a first start; absence is never an error.
pub fn load_app_settings(stored: Stored<AppSettings>) -> (outcome: Result<AppSettings, String>)
    ensures
        match stored {
            Stored::Found(settings) => outcome == Ok::<AppSettings, String>(settings),
            Stored::Missing => outcome matches Ok(settings) && settings.is_default(),
            Stored::Failed(reason) => outcome == Err::<AppSettings, String>(reason),
        },
{
    match stored {
        Stored::Found(settings) => Ok(settings),
        Stored::Missing => Ok(AppSettings::default()),
        Stored::Failed(reason) => Err(reason),
    }
}

} // verus!
