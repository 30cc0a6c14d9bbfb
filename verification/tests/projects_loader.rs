use zep_clockify::csv_deserialize::{deserialize_csv, StructInfo};
use zep_clockify::date::Date;
use zep_clockify::error::{CsvError, FieldError};
use zep_clockify::projects_loader::{Project, Status};

#[test]
fn status_from_its_word() {
    let mut status = Status::default();
    assert_eq!(status, Status::Planning);
    assert_eq!(status.csv_parse("active"), Ok(()));
    assert_eq!(status, Status::Active);
    assert_eq!(status.csv_parse("planning"), Ok(()));
    assert_eq!(status, Status::Planning);
}

#[test]
fn status_from_an_unknown_word() {
    let mut status = Status::Active;
    assert_eq!(status.csv_parse("Active"), Err(FieldError::UnknownValue));
    assert_eq!(status.csv_parse(""), Err(FieldError::UnknownValue));
    assert_eq!(status, Status::Active);
}

#[test]
fn status_in_writing() {
    assert_eq!(Status::Active.name(), "Active");
    assert_eq!(Status::Planning.name(), "Planning");
}

#[test]
fn date_from_day_month_year() {
    let mut date = Date::default();
    assert_eq!(date, Date { year: 1970, month: 1, day: 1 });
    assert_eq!(date.csv_parse("17.05.2014"), Ok(()));
    assert_eq!(date, Date { year: 2014, month: 5, day: 17 });
    assert_eq!(date.csv_parse("1.2.2003"), Ok(()));
    assert_eq!(date, Date { year: 2003, month: 2, day: 1 });
}

#[test]
fn date_that_is_none() {
    let mut date = Date { year: 2000, month: 2, day: 29 };
    assert_eq!(date.csv_parse("30.02.2014"), Err(FieldError::InvalidDate));
    assert_eq!(date.csv_parse("2014-05-17"), Err(FieldError::InvalidDate));
    assert_eq!(date.csv_parse(""), Err(FieldError::InvalidDate));
    assert_eq!(date, Date { year: 2000, month: 2, day: 29 });
    assert_eq!(Date::from_parsed(None), Err(FieldError::InvalidDate));
    assert_eq!(Date::from_parsed(Some((1999, 12, 31))), Ok(Date { year: 1999, month: 12, day: 31 }));
}

#[test]
fn project_binding() {
    assert_eq!(Project::NUM_FIELDS, 5);
    assert_eq!(Project::get_field_name(0), "ID");
    assert_eq!(Project::get_field_name(1), "Status");
    assert_eq!(Project::get_field_name(2), "Abbreviation");
    assert_eq!(Project::get_field_name(3), "Description");
    assert_eq!(Project::get_field_name(4), "Start date");

    let mut p = Project::default_record();
    assert_eq!(p.id, 0);
    assert_eq!(p.status, Status::Planning);
    assert_eq!(p.name, "");
    assert_eq!(p.description, "");
    assert_eq!(p.start_date, Date { year: 1970, month: 1, day: 1 });

    p.parse_field(0, "5").unwrap();
    p.parse_field(1, "active").unwrap();
    p.parse_field(2, "abc").unwrap();
    p.parse_field(3, "a project").unwrap();
    p.parse_field(4, "24.12.2022").unwrap();
    assert_eq!(p.id, 5);
    assert_eq!(p.status, Status::Active);
    assert_eq!(p.name, "abc");
    assert_eq!(p.description, "a project");
    assert_eq!(p.start_date, Date { year: 2022, month: 12, day: 24 });

    assert_eq!(p.parse_field(0, "five"), Err(FieldError::InvalidInteger));
    assert_eq!(p.parse_field(1, "done"), Err(FieldError::UnknownValue));
    assert_eq!(p.parse_field(4, "yesterday"), Err(FieldError::InvalidDate));
    assert_eq!(p.id, 5);
}

#[test]
fn projects_of_a_text() {
    let input = "Start date;Abbreviation;ID;Comment;Status;Description\n\
                 01.02.2020;abc;1;none;active;\"first\nproject\"\n\
                 31.12.2021;def;2;;planning;second\n";
    let projects: Vec<Project> = deserialize_csv(input).unwrap();
    assert_eq!(projects.len(), 2);
    assert_eq!(projects[0].id, 1);
    assert_eq!(projects[0].status, Status::Active);
    assert_eq!(projects[0].name, "abc");
    assert_eq!(projects[0].description, "first\nproject");
    assert_eq!(projects[0].start_date, Date { year: 2020, month: 2, day: 1 });
    assert_eq!(projects[1].id, 2);
    assert_eq!(projects[1].status, Status::Planning);
    assert_eq!(projects[1].name, "def");
    assert_eq!(projects[1].description, "second");
    assert_eq!(projects[1].start_date, Date { year: 2021, month: 12, day: 31 });
}

#[test]
fn project_with_an_unreadable_column() {
    let header = "ID;Status;Abbreviation;Description;Start date\n";
    let r: Result<Vec<Project>, CsvError> =
        deserialize_csv(&format!("{}1;active;a;b;01.01.2020\n2;paused;c;d;02.01.2020\n", header));
    assert_eq!(
        r.err(),
        Some(CsvError::FieldParse {
            index: 1,
            name: "Status".to_string(),
            raw: "paused".to_string(),
            reason: FieldError::UnknownValue
        })
    );
    let r: Result<Vec<Project>, CsvError> =
        deserialize_csv(&format!("{}1;active;a;b;2020-01-01\n", header));
    assert_eq!(
        r.err(),
        Some(CsvError::FieldParse {
            index: 4,
            name: "Start date".to_string(),
            raw: "2020-01-01".to_string(),
            reason: FieldError::InvalidDate
        })
    );
}

#[test]
fn project_without_its_status_column() {
    let r: Result<Vec<Project>, CsvError> =
        deserialize_csv("ID;Abbreviation;Description;Start date\n1;a;b;01.01.2020\n");
    assert_eq!(r.err(), Some(CsvError::MissingField { name: "Status".to_string() }));
}
