use zep_clockify::options::{Operation, Options, OptionsError};

fn args(words: &[&str]) -> Vec<String> {
    words.iter().map(|w| w.to_string()).collect()
}

#[test]
fn operation_from_its_name() {
    assert_eq!(Operation::from_str("PROJECTS"), Ok(Operation::Projects));
    assert_eq!(Operation::Projects.name(), "PROJECTS");
    assert_eq!(Operation::from_str(Operation::Projects.name()), Ok(Operation::Projects));
}

#[test]
fn unknown_operation() {
    assert_eq!(
        Operation::from_str("projects"),
        Err(OptionsError::UnknownOperation { name: "projects".to_string() })
    );
    assert_eq!(
        Operation::from_str(""),
        Err(OptionsError::UnknownOperation { name: String::new() })
    );
}

#[test]
fn options_of_three_words() {
    let options = Options::parse_options(&args(&["zep_clockify", "PROJECTS", "in/put.csv"])).unwrap();
    assert_eq!(options.operation, Operation::Projects);
    assert_eq!(options.csv_path, "in/put.csv");
}

#[test]
fn options_of_another_number_of_words() {
    assert_eq!(Options::parse_options(&args(&[])).err(), Some(OptionsError::InvalidArguments));
    assert_eq!(
        Options::parse_options(&args(&["zep_clockify", "PROJECTS"])).err(),
        Some(OptionsError::InvalidArguments)
    );
    assert_eq!(
        Options::parse_options(&args(&["zep_clockify", "NOTHING", "a", "b"])).err(),
        Some(OptionsError::InvalidArguments)
    );
}

#[test]
fn options_with_an_unknown_operation() {
    assert_eq!(
        Options::parse_options(&args(&["zep_clockify", "TASKS", "a.csv"])).err(),
        Some(OptionsError::UnknownOperation { name: "TASKS".to_string() })
    );
}

#[test]
fn options_in_the_log() {
    let options = Options { operation: Operation::Projects, csv_path: "data/p.csv".to_string() };
    assert_eq!(options.dump_to_log(), vec!["Operation: PROJECTS", "CSV Input: data/p.csv"]);
}
