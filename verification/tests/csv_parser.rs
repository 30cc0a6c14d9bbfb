use zep_clockify::csv_parser::{CSVParser, ReaderResult};
use zep_clockify::error::{ColumnMismatch, RecordError};

#[test]
fn test_tokenizer_simple1() {
    let s = "Abbreviation;;\"\";Description";
    let mut csv_reader = CSVParser::new(s);

    {
        let t0 = csv_reader.read_token().get_data().unwrap().clone();
        assert!(t0.further_tokens);
        assert_eq!(t0.value, "Abbreviation");

        let t1 = csv_reader.read_token().get_data().unwrap().clone();
        assert!(t1.further_tokens);
        assert_eq!(t1.value, "");

        let t2 = csv_reader.read_token().get_data().unwrap().clone();
        assert!(t2.further_tokens);
        assert_eq!(t2.value, "");

        let t3 = csv_reader.read_token().get_data().unwrap().clone();
        assert!(!t3.further_tokens);
        assert_eq!(t3.value, "Description");

        assert!(csv_reader.read_token().get_data().is_none());
    }
}

#[test]
fn test_tokenizer_simple2() {
    let s = "Abbreviation;Description;;\"ID:\n123\"";
    let mut csv_reader = CSVParser::new(s);

    {
        let t0 = csv_reader.read_token().get_data().unwrap().clone();
        assert!(t0.further_tokens);
        assert_eq!(t0.value, "Abbreviation");

        let t1 = csv_reader.read_token().get_data().unwrap().clone();
        assert!(t1.further_tokens);
        assert_eq!(t1.value, "Description");

        let t2 = csv_reader.read_token().get_data().unwrap().clone();
        assert!(t2.further_tokens);
        assert_eq!(t2.value, "");

        let t3 = csv_reader.read_token().get_data().unwrap().clone();
        assert!(!t3.further_tokens);
        assert_eq!(t3.value, "ID:\n123");
    }
}

#[test]
fn test_tokenizer_complex() {
    let s = "Abbreviation;\"Project\nName\";ID\nproj1;Foobar;123";
    let mut csv_reader = CSVParser::new(s);

    {
        let t0 = csv_reader.read_token().get_data().unwrap().clone();
        assert!(t0.further_tokens);
        assert_eq!(t0.value, "Abbreviation");

        let t1 = csv_reader.read_token().get_data().unwrap().clone();
        assert!(t1.further_tokens);
        assert_eq!(t1.value, "Project\nName");

        let t2 = csv_reader.read_token().get_data().unwrap().clone();
        assert!(!t2.further_tokens);
        assert_eq!(t2.value, "ID");

        let t3 = csv_reader.read_token().get_data().unwrap().clone();
        assert!(t3.further_tokens);
        assert_eq!(t3.value, "proj1");

        let t4 = csv_reader.read_token().get_data().unwrap().clone();
        assert!(t4.further_tokens);
        assert_eq!(t4.value, "Foobar");

        let t5 = csv_reader.read_token().get_data().unwrap().clone();
        assert!(!t5.further_tokens);
        assert_eq!(t5.value, "123");
    }
}

fn token(parser: &mut CSVParser) -> Option<(String, bool)> {
    match parser.read_token() {
        ReaderResult::Data(t) => Some((t.value, t.further_tokens)),
        ReaderResult::Eof => None,
    }
}

fn field(value: &str, further_tokens: bool) -> Option<(String, bool)> {
    Some((value.to_string(), further_tokens))
}

#[test]
fn get_data_of_both_variants() {
    let data: ReaderResult<u8> = ReaderResult::Data(7);
    assert_eq!(data.get_data(), Some(&7));
    let eof: ReaderResult<u8> = ReaderResult::Eof;
    assert_eq!(eof.get_data(), None);
}

#[test]
fn empty_input_is_the_end() {
    let mut parser = CSVParser::new("");
    assert_eq!(token(&mut parser), None);
    assert_eq!(token(&mut parser), None);
}

#[test]
fn reads_past_the_end_stay_at_the_end() {
    let mut parser = CSVParser::new("a;b\n");
    assert_eq!(token(&mut parser), field("a", true));
    assert_eq!(token(&mut parser), field("b", false));
    assert_eq!(token(&mut parser), None);
    assert_eq!(token(&mut parser), None);
    assert_eq!(token(&mut parser), None);
}

#[test]
fn two_adjacent_semicolons_hold_an_empty_field() {
    let mut parser = CSVParser::new("a;;b");
    assert_eq!(token(&mut parser), field("a", true));
    assert_eq!(token(&mut parser), field("", true));
    assert_eq!(token(&mut parser), field("b", false));
    assert_eq!(token(&mut parser), None);
}

#[test]
fn semicolon_at_the_line_end_is_an_empty_last_field() {
    let mut parser = CSVParser::new("a;;\nb");
    assert_eq!(token(&mut parser), field("a", true));
    assert_eq!(token(&mut parser), field("", false));
    assert_eq!(token(&mut parser), field("b", false));
    assert_eq!(token(&mut parser), None);
}

#[test]
fn field_of_one_character_ends_with_its_line() {
    let mut parser = CSVParser::new("x\ny;z");
    assert_eq!(token(&mut parser), field("x", false));
    assert_eq!(token(&mut parser), field("y", true));
    assert_eq!(token(&mut parser), field("z", false));
    assert_eq!(token(&mut parser), None);
}

#[test]
fn empty_line_is_one_empty_field() {
    let mut parser = CSVParser::new("a\n\nb\n");
    assert_eq!(token(&mut parser), field("a", false));
    assert_eq!(token(&mut parser), field("", false));
    assert_eq!(token(&mut parser), field("b", false));
    assert_eq!(token(&mut parser), None);
}

#[test]
fn quoted_field_keeps_semicolons_and_line_breaks() {
    let mut parser = CSVParser::new("\"a;b\n\nc\";d");
    assert_eq!(token(&mut parser), field("a;b\n\nc", true));
    assert_eq!(token(&mut parser), field("d", false));
    assert_eq!(token(&mut parser), None);
}

#[test]
fn quote_that_opens_at_the_line_end() {
    let mut parser = CSVParser::new("\"\nabc\"");
    assert_eq!(token(&mut parser), field("\nabc", false));
    assert_eq!(token(&mut parser), None);
}

#[test]
fn text_behind_the_closing_quote_is_skipped() {
    let mut parser = CSVParser::new("\"a\"junk;b\n\"c\"junk");
    assert_eq!(token(&mut parser), field("a", true));
    assert_eq!(token(&mut parser), field("b", false));
    assert_eq!(token(&mut parser), field("c", false));
    assert_eq!(token(&mut parser), None);
}

#[test]
fn unterminated_quote_reads_as_the_end() {
    let mut parser = CSVParser::new("a;\"bc\nde");
    assert_eq!(token(&mut parser), field("a", true));
    assert_eq!(token(&mut parser), None);
    assert_eq!(token(&mut parser), None);
}

#[test]
fn carriage_return_stays_in_the_field() {
    let mut parser = CSVParser::new("a;b\r\nc");
    assert_eq!(token(&mut parser), field("a", true));
    assert_eq!(token(&mut parser), field("b\r", false));
    assert_eq!(token(&mut parser), field("c", false));
}

#[test]
fn characters_beyond_ascii() {
    let mut parser = CSVParser::new("Größe;\"Maß;\nnahme\";€");
    assert_eq!(token(&mut parser), field("Größe", true));
    assert_eq!(token(&mut parser), field("Maß;\nnahme", true));
    assert_eq!(token(&mut parser), field("€", false));
}

#[test]
fn header_and_rows_of_a_text_with_a_quoted_line_break() {
    let s = "Abbreviation;\"Project\nName\";ID\nproj1;Foobar;123";
    let mut parser = CSVParser::new(s);
    let header = parser.read_header_record().unwrap();
    assert_eq!(header, vec!["Abbreviation", "Project\nName", "ID"]);

    let mut record = vec![String::new(); header.len()];
    assert!(matches!(parser.read_record(&mut record), Ok(ReaderResult::Data(()))));
    assert_eq!(record, vec!["proj1", "Foobar", "123"]);
    assert!(matches!(parser.read_record(&mut record), Ok(ReaderResult::Eof)));
    // The buffer is left alone by a read that meets the end.
    assert_eq!(record, vec!["proj1", "Foobar", "123"]);
    assert!(matches!(parser.read_record(&mut record), Ok(ReaderResult::Eof)));
}

#[test]
fn header_of_an_empty_text_is_truncated() {
    let mut parser = CSVParser::new("");
    assert_eq!(parser.read_header_record(), Err(RecordError::UnexpectedEnd { line: 1 }));
}

#[test]
fn header_that_ends_with_a_semicolon_runs_into_the_next_line() {
    let mut parser = CSVParser::new("a;b;\nc;d\n");
    assert_eq!(parser.read_header_record().unwrap(), vec!["a", "b", "c", "d"]);

    let mut parser = CSVParser::new("a;b;");
    assert_eq!(parser.read_header_record(), Err(RecordError::UnexpectedEnd { line: 2 }));
}

#[test]
fn row_with_too_few_columns() {
    let mut parser = CSVParser::new("a;b;c\n1;2;3\n4;5\n6;7;8\n");
    parser.read_header_record().unwrap();
    let mut record = vec![String::new(); 3];
    assert!(matches!(parser.read_record(&mut record), Ok(ReaderResult::Data(()))));
    assert_eq!(
        parser.read_record(&mut record).err(),
        Some(RecordError::ColumnCountMismatch { line: 3, kind: ColumnMismatch::TooFew })
    );
    // The columns up to the offending one have been written.
    assert_eq!(record, vec!["4", "5", "3"]);
}

#[test]
fn row_with_too_many_columns() {
    let mut parser = CSVParser::new("a;b\n1;2;3\n");
    parser.read_header_record().unwrap();
    let mut record = vec![String::new(); 2];
    assert_eq!(
        parser.read_record(&mut record).err(),
        Some(RecordError::ColumnCountMismatch { line: 2, kind: ColumnMismatch::TooMany })
    );
}

#[test]
fn mismatch_behind_a_quoted_line_break_bears_the_later_line() {
    let mut parser = CSVParser::new("a;b;c\n\"1\n2\n3\";x\n");
    parser.read_header_record().unwrap();
    let mut record = vec![String::new(); 3];
    assert_eq!(
        parser.read_record(&mut record).err(),
        Some(RecordError::ColumnCountMismatch { line: 4, kind: ColumnMismatch::TooFew })
    );
}

#[test]
fn end_of_input_inside_a_row_is_an_error() {
    let mut parser = CSVParser::new("a;b\n1;");
    parser.read_header_record().unwrap();
    let mut record = vec![String::new(); 2];
    assert_eq!(
        parser.read_record(&mut record).err(),
        Some(RecordError::UnexpectedEnd { line: 3 })
    );
}

#[test]
fn end_of_input_before_a_row_is_no_error() {
    let mut parser = CSVParser::new("a;b\n1;2\n");
    parser.read_header_record().unwrap();
    let mut record = vec![String::new(); 2];
    assert!(matches!(parser.read_record(&mut record), Ok(ReaderResult::Data(()))));
    assert!(matches!(parser.read_record(&mut record), Ok(ReaderResult::Eof)));
}

#[test]
fn two_parsers_on_one_text_read_the_same() {
    let s = "a;\"b\nc\";;d\n1;2;3;4\n;;;\n";
    let mut first = CSVParser::new(s);
    let mut second = CSVParser::new(s);
    loop {
        let a = token(&mut first);
        let b = token(&mut second);
        assert_eq!(a, b);
        if a.is_none() {
            break;
        }
    }
}
