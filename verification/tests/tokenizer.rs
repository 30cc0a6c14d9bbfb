use zep_clockify::csv_parser::CSVParser;

#[test]
fn csv_parser_test_tokenizer_simple1() {
    let s = "Abbreviation;;\"\";Description";
    let mut csv_reader = CSVParser::new(s);

    {
        let t0 = csv_reader.read_token().get_data().unwrap().clone();
        assert!(t0.further_tokens);
        assert_eq!(t0.value, "Abbreviation");

        let t1 = csv_reader.read_token().get_data().unwrap().clone();
        assert!(t1.further_tokens);
        assert_eq!(t1.value, "");

        let t2 = csv_reader.read_token().get_data().unwrap().clone();
        assert!(t2.further_tokens);
        assert_eq!(t2.value, "");

        let t3 = csv_reader.read_token().get_data().unwrap().clone();
        assert!(!t3.further_tokens);
        assert_eq!(t3.value, "Description");

        assert!(csv_reader.read_token().get_data().is_none());
    }
}

#[test]
fn csv_parser_test_tokenizer_simple2() {
    let s = "Abbreviation;Description;;\"ID:\n123\"";
    let mut csv_reader = CSVParser::new(s);

    {
        let t0 = csv_reader.read_token().get_data().unwrap().clone();
        assert!(t0.further_tokens);
        assert_eq!(t0.value, "Abbreviation");

        let t1 = csv_reader.read_token().get_data().unwrap().clone();
        assert!(t1.further_tokens);
        assert_eq!(t1.value, "Description");

        let t2 = csv_reader.read_token().get_data().unwrap().clone();
        assert!(t2.further_tokens);
        assert_eq!(t2.value, "");

        let t3 = csv_reader.read_token().get_data().unwrap().clone();
        assert!(!t3.further_tokens);
        assert_eq!(t3.value, "ID:\n123");
    }
}

#[test]
fn csv_parser_test_tokenizer_complex() {
    let s = "Abbreviation;\"Project\nName\";ID\nproj1;Foobar;123";
    let mut csv_reader = CSVParser::new(s);

    {
        let t0 = csv_reader.read_token().get_data().unwrap().clone();
        assert!(t0.further_tokens);
        assert_eq!(t0.value, "Abbreviation");

        let t1 = csv_reader.read_token().get_data().unwrap().clone();
        assert!(t1.further_tokens);
        assert_eq!(t1.value, "Project\nName");

        let t2 = csv_reader.read_token().get_data().unwrap().clone();
        assert!(!t2.further_tokens);
        assert_eq!(t2.value, "ID");

        let t3 = csv_reader.read_token().get_data().unwrap().clone();
        assert!(t3.further_tokens);
        assert_eq!(t3.value, "proj1");

        let t4 = csv_reader.read_token().get_data().unwrap().clone();
        assert!(t4.further_tokens);
        assert_eq!(t4.value, "Foobar");

        let t5 = csv_reader.read_token().get_data().unwrap().clone();
        assert!(!t5.further_tokens);
        assert_eq!(t5.value, "123");
    }
}
