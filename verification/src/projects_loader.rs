//! The project record and its binding to columns.

use crate::csv_deserialize::StructInfo;
use crate::date::{Date, spec_parse_date};
use crate::error::FieldError;
use crate::number::{parse_u32, spec_parse_u32};
use vstd::prelude::*;
use vstd::string::StringExecFns;

verus! {

/// How far a project has come.
#[derive(Clone, Copy, Debug, PartialEq, Eq, Structural)]
pub enum Status {
    Active,
    Planning,
}

impl Status {
    /// The status that the word `s` names.
    pub open spec fn spec_parse(s: Seq<char>) -> Result<Status, FieldError> {
        if s == "active"@ {
            Ok(Status::Active)
        } else if s == "planning"@ {
            Ok(Status::Planning)
        } else {
            Err(FieldError::UnknownValue)
        }
    }

    /// Parses `s` and stores the status in `self`. An unknown word leaves
    /// `self` as it was.
    pub fn csv_parse(&mut self, s: &str) -> (r: Result<(), FieldError>)
        ensures
            match Status::spec_parse(s@) {
                Ok(status) => r is Ok && *final(self) == status,
                Err(e) => r == Err::<(), FieldError>(e) && *final(self) == *old(self),
            },
    {
        let word = s.to_owned();
        if word == String::from_str("active") {
            *self = Status::Active;
            Ok(())
        } else if word == String::from_str("planning") {
            *self = Status::Planning;
            Ok(())
        } else {
            Err(FieldError::UnknownValue)
        }
    }

    /// The status in writing.
    pub fn name(&self) -> (r: &'static str)
        ensures
            r@ == match *self {
                Status::Active => "Active"@,
                Status::Planning => "Planning"@,
            },
    {
        match self {
            Status::Active => "Active",
            Status::Planning => "Planning",
        }
    }
}

impl Default for Status {
    fn default() -> (r: Status)
        ensures
            r == Status::Planning,
    {
        Status::Planning
    }
}

/// One project, as a row describes it.
#[derive(Clone, Debug)]
pub struct Project {
    /// Column `ID`.
    pub id: u32,
    /// Column `Status`.
    pub status: Status,
    /// Column `Abbreviation`.
    pub name: String,
    /// Column `Description`.
    pub description: String,
    /// Column `Start date`.
    pub start_date: Date,
}

/// Mathematical value of a [`Project`].
pub struct ProjectView {
    pub id: u32,
    pub status: Status,
    pub name: Seq<char>,
    pub description: Seq<char>,
    pub start_date: Date,
}

impl View for Project {
    type V = ProjectView;

    open spec fn view(&self) -> ProjectView {
        ProjectView {
            id: self.id,
            status: self.status,
            name: self.name@,
            description: self.description@,
            start_date: self.start_date,
        }
    }
}

impl Default for Project {
    fn default() -> (r: Project)
        ensures
            r@ == <Project as StructInfo>::spec_default(),
    {
        Project {
            id: 0,
            status: Status::default(),
            name: String::new(),
            description: String::new(),
            start_date: Date::default(),
        }
    }
}

impl StructInfo for Project {
    const NUM_FIELDS: usize = 5;

    type Model = ProjectView;

    open spec fn model(&self) -> ProjectView {
        self@
    }

    open spec fn spec_default() -> ProjectView {
        ProjectView {
            id: 0,
            status: Status::Planning,
            name: Seq::empty(),
            description: Seq::empty(),
            start_date: Date::spec_default(),
        }
    }

    open spec fn spec_field_name(index: int) -> Seq<char> {
        if index == 0 {
            "ID"@
        } else if index == 1 {
            "Status"@
        } else if index == 2 {
            "Abbreviation"@
        } else if index == 3 {
            "Description"@
        } else {
            "Start date"@
        }
    }

    open spec fn spec_parse_field(record: ProjectView, index: int, raw: Seq<char>) -> Result<
        ProjectView,
        FieldError,
    > {
        if index == 0 {
            match spec_parse_u32(raw) {
                Some(id) => Ok(ProjectView { id, ..record }),
                None => Err(FieldError::InvalidInteger),
            }
        } else if index == 1 {
            match Status::spec_parse(raw) {
                Ok(status) => Ok(ProjectView { status, ..record }),
                Err(e) => Err(e),
            }
        } else if index == 2 {
            Ok(ProjectView { name: raw, ..record })
        } else if index == 3 {
            Ok(ProjectView { description: raw, ..record })
        } else {
            match spec_parse_date(raw) {
                Ok(start_date) => Ok(ProjectView { start_date, ..record }),
                Err(e) => Err(e),
            }
        }
    }

    fn default_record() -> (record: Project) {
        Project::default()
    }

    fn get_field_name(index: usize) -> (name: &'static str) {
        if index == 0 {
            "ID"
        } else if index == 1 {
            "Status"
        } else if index == 2 {
            "Abbreviation"
        } else if index == 3 {
            "Description"
        } else {
            "Start date"
        }
    }

    fn parse_field(&mut self, index: usize, s: &str) -> (r: Result<(), FieldError>) {
        if index == 0 {
            match parse_u32(s) {
                Some(id) => {
                    self.id = id;
                    Ok(())
                },
                None => Err(FieldError::InvalidInteger),
            }
        } else if index == 1 {
            self.status.csv_parse(s)
        } else if index == 2 {
            self.name = s.to_owned();
            Ok(())
        } else if index == 3 {
            self.description = s.to_owned();
            Ok(())
        } else {
            self.start_date.csv_parse(s)
        }
    }
}

} // verus!
