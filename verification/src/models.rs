//! The records of the planner: employees, the descriptive parts of the grid,
//! and the user's settings.

use crate::decimal::{Decimal, DecimalView};
use std::collections::HashMap;
use vstd::prelude::*;

pub use crate::grid::GridState;

verus! {

/// One person of the roster.
///
/// The five leading fields are always present, though they may be empty. The
/// others are present or absent; an absent one is not the same as an empty
/// one. The four yearly ratings are exact decimal numbers.
#[derive(Debug, Clone, PartialEq)]
pub struct Employee {
    pub user_id: String,
    pub pr_group_2025: String,
    pub first_name: String,
    pub last_name: String,
    pub current_position: String,
    pub current_temp_position: Option<String>,
    pub pr_2021: Option<Decimal>,
    pub pr_2022: Option<Decimal>,
    pub pr_2023: Option<Decimal>,
    pub pr_2024: Option<Decimal>,
    pub user_9box_2024: Option<String>,
    pub user_9box_2025: Option<String>,
    pub notes: Option<String>,
    pub current_label: Option<String>,
    pub email: Option<String>,
    pub manager_id: Option<String>,
    pub department: Option<String>,
    pub location: Option<String>,
    pub hire_date: Option<String>,
}

/// The mathematical content of an [`Employee`].
pub struct EmployeeView {
    pub user_id: Seq<char>,
    pub pr_group_2025: Seq<char>,
    pub first_name: Seq<char>,
    pub last_name: Seq<char>,
    pub current_position: Seq<char>,
    pub current_temp_position: Option<Seq<char>>,
    pub pr_2021: Option<DecimalView>,
    pub pr_2022: Option<DecimalView>,
    pub pr_2023: Option<DecimalView>,
    pub pr_2024: Option<DecimalView>,
    pub user_9box_2024: Option<Seq<char>>,
    pub user_9box_2025: Option<Seq<char>>,
    pub notes: Option<Seq<char>>,
    pub current_label: Option<Seq<char>>,
    pub email: Option<Seq<char>>,
    pub manager_id: Option<Seq<char>>,
    pub department: Option<Seq<char>>,
    pub location: Option<Seq<char>>,
    pub hire_date: Option<Seq<char>>,
}

/// The content of an optional text.
pub open spec fn text_view(field: Option<String>) -> Option<Seq<char>> {
    match field {
        Some(s) => Some(s@),
        None => None,
    }
}

/// The content of an optional rating.
pub open spec fn rating_view(field: Option<Decimal>) -> Option<DecimalView> {
    match field {
        Some(d) => Some(d@),
        None => None,
    }
}

impl View for Employee {
    type V = EmployeeView;

    open spec fn view(&self) -> EmployeeView {
        EmployeeView {
            user_id: self.user_id@,
            pr_group_2025: self.pr_group_2025@,
            first_name: self.first_name@,
            last_name: self.last_name@,
            current_position: self.current_position@,
            current_temp_position: text_view(self.current_temp_position),
            pr_2021: rating_view(self.pr_2021),
            pr_2022: rating_view(self.pr_2022),
            pr_2023: rating_view(self.pr_2023),
            pr_2024: rating_view(self.pr_2024),
            user_9box_2024: text_view(self.user_9box_2024),
            user_9box_2025: text_view(self.user_9box_2025),
            notes: text_view(self.notes),
            current_label: text_view(self.current_label),
            email: text_view(self.email),
            manager_id: text_view(self.manager_id),
            department: text_view(self.department),
            location: text_view(self.location),
            hire_date: text_view(self.hire_date),
        }
    }
}

/// The content of each employee of `roster`, in order.
pub open spec fn roster_view(roster: Seq<Employee>) -> Seq<EmployeeView> {
    Seq::new(roster.len(), |i: int| roster[i]@)
}

/// An optional text that a cell of a table can hold: a cell has no way to tell
/// a present but empty text from an absent one.
pub open spec fn text_fits(field: Option<Seq<char>>) -> bool {
    field matches Some(s) ==> s.len() > 0
}

/// An optional rating in normal form.
pub open spec fn rating_fits(field: Option<DecimalView>) -> bool {
    field matches Some(d) ==> d.wf()
}

impl EmployeeView {
    /// Every rating is in normal form. This holds of the content of every
    /// [`Employee`].
    pub open spec fn ratings_fit(self) -> bool {
        &&& rating_fits(self.pr_2021)
        &&& rating_fits(self.pr_2022)
        &&& rating_fits(self.pr_2023)
        &&& rating_fits(self.pr_2024)
    }

    /// Every optional text that is present is non-empty.
    pub open spec fn texts_fit(self) -> bool {
        &&& text_fits(self.current_temp_position)
        &&& text_fits(self.user_9box_2024)
        &&& text_fits(self.user_9box_2025)
        &&& text_fits(self.notes)
        &&& text_fits(self.current_label)
        &&& text_fits(self.email)
        &&& text_fits(self.manager_id)
        &&& text_fits(self.department)
        &&& text_fits(self.location)
        &&& text_fits(self.hire_date)
    }

    /// What a row of a table can hold exactly: every optional text that is
    /// present is non-empty, and every rating is in normal form.
    pub open spec fn tabular(self) -> bool {
        self.texts_fit() && self.ratings_fit()
    }
}

/// A skill by identifier and name.
#[derive(Debug, Clone, PartialEq)]
pub struct Skill {
    pub id: String,
    pub name: String,
}

/// The descriptive side of one cell of the grid.
#[derive(Debug, Clone, PartialEq)]
pub struct GridBox {
    pub id: String,
    pub label: String,
    pub description: String,
}

/// The user's preferences.
#[derive(Debug, Clone, PartialEq)]
pub struct AppSettings {
    pub theme_preference: String,
    pub department_colors: HashMap<String, String>,
    pub auto_save_enabled: bool,
    pub view_scale: Option<Decimal>,
}

impl AppSettings {
    /// Whether these are the settings of a first start: the theme of the
    /// system, no department colours, no automatic saving, and a view drawn
    /// at scale one.
    pub open spec fn is_default(&self) -> bool {
        &&& self.theme_preference@ == "system"@
        &&& self.department_colors@ == Map::<String, String>::empty()
        &&& !self.auto_save_enabled
        &&& self.view_scale matches Some(scale)
        &&& scale@ == Decimal::unit()
    }
}

impl Default for AppSettings {
    fn default() -> (settings: AppSettings)
        ensures
            settings.is_default(),
    {
        AppSettings {
            theme_preference: "system".to_owned(),
            department_colors: HashMap::new(),
            auto_save_enabled: false,
            view_scale: Some(Decimal::one()),
        }
    }
}

} // verus!
