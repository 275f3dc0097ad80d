//! The planner's session: the roster, the grid, the selection and the
//! settings, and what each event of the user does to them.
//!
//! The host shows the session and carries out what an update asks for; the
//! session itself neither draws nor stores anything.

use crate::decimal::{parse_decimal, Decimal};
use crate::grid::{assigned, cell_of, Cells, GridState};
use crate::models::{roster_view, AppSettings, Employee, EmployeeView};
use vstd::prelude::*;

verus! {

/// An event of the user.
#[derive(Debug, Clone, PartialEq)]
pub enum Message {
    /// An employee was picked from the list, by identifier.
    EmployeeSelected(String),
    /// A cell of the grid was clicked, by identifier.
    BoxClicked(String),
    /// The scale of the view was changed.
    ScaleChanged(Decimal),
}

/// What the host has to do after the session has taken an event.
#[derive(Debug, Clone, Copy, PartialEq, Eq)]
pub enum Effect {
    /// Nothing.
    Nothing,
    /// Put the session's settings into the settings store.
    SaveSettings,
}

/// The state of one session.
#[derive(Debug, Clone, PartialEq)]
pub struct App {
    pub employees: Vec<Employee>,
    pub grid_state: GridState,
    pub selected_employee_id: Option<String>,
    pub view_scale: Decimal,
    pub app_settings: AppSettings,
}

/// One stand-in employee: no optional value but the rating of 2024 and the
/// cell of 2024.
pub open spec fn stand_in(
    user_id: Seq<char>,
    group: Seq<char>,
    first_name: Seq<char>,
    last_name: Seq<char>,
    position: Seq<char>,
    rating: Seq<char>,
    cell: Seq<char>,
) -> EmployeeView {
    EmployeeView {
        user_id,
        pr_group_2025: group,
        first_name,
        last_name,
        current_position: position,
        current_temp_position: None,
        pr_2021: None,
        pr_2022: None,
        pr_2023: None,
        pr_2024: parse_decimal(rating),
        user_9box_2024: Some(cell),
        user_9box_2025: None,
        notes: None,
        current_label: None,
        email: None,
        manager_id: None,
        department: None,
        location: None,
        hire_date: None,
    }
}

/// The roster that stands in where none could be loaded.
pub open spec fn stand_in_roster() -> Seq<EmployeeView> {
    seq![
        stand_in("1"@, "GroupA"@, "John (Dummy)"@, "Doe"@, "Developer"@, "4.5"@, "1A"@),
        stand_in("2"@, "GroupB"@, "Jane (Dummy)"@, "Smith"@, "Designer"@, "4.2"@, "2B"@),
    ]
}

/// The grid after the sample placement: starting from `cells`, the first
/// four employees of the roster are placed, in this order, in `1A`, `2B`,
/// `1A` and `3C`.
pub open spec fn seeded(cells: Cells, roster: Seq<EmployeeView>) -> Cells {
    let one = if roster.len() > 0 {
        assigned(cells, roster[0].user_id, "1A"@)
    } else {
        cells
    };
    let two = if roster.len() > 1 {
        assigned(one, roster[1].user_id, "2B"@)
    } else {
        one
    };
    let three = if roster.len() > 2 {
        assigned(two, roster[2].user_id, "1A"@)
    } else {
        two
    };
    if roster.len() > 3 {
        assigned(three, roster[3].user_id, "3C"@)
    } else {
        three
    }
}

fn dummy(
    user_id: &str,
    group: &str,
    first_name: &str,
    last_name: &str,
    position: &str,
    rating: &str,
    cell: &str,
) -> (employee: Employee)
    ensures
        employee@ == stand_in(
            user_id@,
            group@,
            first_name@,
            last_name@,
            position@,
            rating@,
            cell@,
        ),
{
    Employee {
        user_id: user_id.to_owned(),
        pr_group_2025: group.to_owned(),
        first_name: first_name.to_owned(),
        last_name: last_name.to_owned(),
        current_position: position.to_owned(),
        current_temp_position: None,
        pr_2021: None,
        pr_2022: None,
        pr_2023: None,
        pr_2024: Decimal::parse(rating),
        user_9box_2024: Some(cell.to_owned()),
        user_9box_2025: None,
        notes: None,
        current_label: None,
        email: None,
        manager_id: None,
        department: None,
        location: None,
        hire_date: None,
    }
}

impl App {
    /// The roster that stands in where none could be loaded.
    pub fn load_dummy_employees() -> (roster: Vec<Employee>)
        ensures
            roster_view(roster@) == stand_in_roster(),
    {
        let mut roster: Vec<Employee> = Vec::new();
        roster.push(dummy("1", "GroupA", "John (Dummy)", "Doe", "Developer", "4.5", "1A"));
        roster.push(dummy("2", "GroupB", "Jane (Dummy)", "Smith", "Designer", "4.2", "2B"));
        assert(roster_view(roster@) =~= stand_in_roster());
        roster
    }

    /// Starts a session from what the host could load.
    ///
    /// Settings that could not be loaded give way to those of a first start,
    /// and settings without a scale get scale one; in both cases the host is
    /// asked to save them. A roster that could not be loaded, or that is
    /// empty, gives way to the stand-in roster. Nobody is selected, and the
    /// grid is empty: nobody sits anywhere until somebody is placed.
    pub fn new(
        loaded_settings: Result<AppSettings, String>,
        loaded_employees: Result<Vec<Employee>, String>,
    ) -> (start: (App, Effect))
        ensures
            match loaded_settings {
                Ok(settings) => {
                    &&& start.0.app_settings.theme_preference == settings.theme_preference
                    &&& start.0.app_settings.department_colors == settings.department_colors
                    &&& start.0.app_settings.auto_save_enabled == settings.auto_save_enabled
                    &&& match settings.view_scale {
                        Some(scale) => start.0.app_settings.view_scale == Some(scale)
                            && start.1 == Effect::Nothing,
                        None => start.0.app_settings.view_scale matches Some(scale) && scale@
                            == Decimal::unit() && start.1 == Effect::SaveSettings,
                    }
                },
                Err(_) => start.0.app_settings.is_default() && start.1 == Effect::SaveSettings,
            },
            start.0.app_settings.view_scale matches Some(scale) && scale@ == start.0.view_scale@,
            match loaded_employees {
                Ok(roster) if roster.len() > 0 => start.0.employees == roster,
                _ => roster_view(start.0.employees@) == stand_in_roster(),
            },
            start.0.selected_employee_id is None,
            start.0.grid_state@ == Map::<Seq<char>, Seq<Seq<char>>>::empty(),
    {
        let mut effect = Effect::Nothing;
        let mut app_settings = match loaded_settings {
            Ok(settings) => settings,
            Err(_) => {
                effect = Effect::SaveSettings;
                AppSettings::default()
            },
        };
        let view_scale = match &app_settings.view_scale {
            Some(scale) => scale.clone(),
            None => {
                effect = Effect::SaveSettings;
                app_settings.view_scale = Some(Decimal::one());
                Decimal::one()
            },
        };
        let employees = match loaded_employees {
            Ok(roster) => {
                if roster.len() > 0 {
                    roster
                } else {
                    App::load_dummy_employees()
                }
            },
            Err(_) => App::load_dummy_employees(),
        };
        let grid_state = GridState::new();
        (App { employees, grid_state, selected_employee_id: None, view_scale, app_settings }, effect)
    }

    /// Places the first four employees of the roster as a sample to start
    /// from: the first in `1A`, the second in `2B`, the third in `1A` and the
    /// fourth in `3C`, one after the other and each as any later placement, so
    /// that an identifier that stands twice in the roster sits where it was
    /// placed last. A shorter roster is placed as far as it goes. Nothing but
    /// the grid changes.
    pub fn assign_samples(&mut self)
        ensures
            final(self).grid_state@ == seeded(
                old(self).grid_state@,
                roster_view(old(self).employees@),
            ),
            final(self).employees == old(self).employees,
            final(self).selected_employee_id == old(self).selected_employee_id,
            final(self).view_scale == old(self).view_scale,
            final(self).app_settings == old(self).app_settings,
    {
        if self.employees.len() > 0 {
            self.grid_state.assign(self.employees[0].user_id.as_str(), "1A");
        }
        if self.employees.len() > 1 {
            self.grid_state.assign(self.employees[1].user_id.as_str(), "2B");
        }
        if self.employees.len() > 2 {
            self.grid_state.assign(self.employees[2].user_id.as_str(), "1A");
        }
        if self.employees.len() > 3 {
            self.grid_state.assign(self.employees[3].user_id.as_str(), "3C");
        }
    }

    /// The title of the planner's window.
    pub fn title(&self) -> (title: String)
        ensures
            title@ == "Box Planner"@,
    {
        "Box Planner".to_owned()
    }

    /// Takes one event of the user.
    ///
    /// Picking an employee selects it. Clicking a cell places the selected
    /// employee there and clears the selection; with nobody selected the click
    /// changes nothing. Changing the scale sets it in the session and in its
    /// settings, and asks the host to save the settings.
    pub fn update(&mut self, message: Message) -> (effect: Effect)
        ensures
            final(self).employees == old(self).employees,
            match message {
                Message::EmployeeSelected(id) => {
                    &&& final(self).selected_employee_id == Some(id)
                    &&& final(self).grid_state == old(self).grid_state
                    &&& final(self).view_scale == old(self).view_scale
                    &&& final(self).app_settings == old(self).app_settings
                    &&& effect == Effect::Nothing
                },
                Message::BoxClicked(cell) => {
                    &&& final(self).selected_employee_id is None
                    &&& match old(self).selected_employee_id {
                        Some(id) => final(self).grid_state@ == assigned(
                            old(self).grid_state@,
                            id@,
                            cell@,
                        ) && cell_of(final(self).grid_state@, id@) == Some(cell@),
                        None => final(self).grid_state == old(self).grid_state,
                    }
                    &&& final(self).view_scale == old(self).view_scale
                    &&& final(self).app_settings == old(self).app_settings
                    &&& effect == Effect::Nothing
                },
                Message::ScaleChanged(scale) => {
                    &&& final(self).selected_employee_id == old(self).selected_employee_id
                    &&& final(self).grid_state == old(self).grid_state
                    &&& final(self).view_scale@ == scale@
                    &&& final(self).app_settings.view_scale matches Some(kept) && kept@ == scale@
                    &&& final(self).app_settings.theme_preference
                        == old(self).app_settings.theme_preference
                    &&& final(self).app_settings.department_colors
                        == old(self).app_settings.department_colors
                    &&& final(self).app_settings.auto_save_enabled
                        == old(self).app_settings.auto_save_enabled
                    &&& effect == Effect::SaveSettings
                },
            },
    {
        match message {
            Message::EmployeeSelected(id) => {
                self.selected_employee_id = Some(id);
                Effect::Nothing
            },
            Message::BoxClicked(cell) => {
                match self.selected_employee_id.take() {
                    Some(id) => {
                        self.grid_state.assign(id.as_str(), cell.as_str());
                    },
                    None => {},
                }
                Effect::Nothing
            },
            Message::ScaleChanged(scale) => {
                self.app_settings.view_scale = Some(scale.clone());
                self.view_scale = scale;
                Effect::SaveSettings
            },
        }
    }
}

} // verus!
