use zep_clockify::csv_parser::{CSVParser, ReaderResult};

/// A field as it is written: its content, and whether it stands between quotes.
struct Field(&'static str, bool);

fn write_record(fields: &[Field]) -> String {
    let mut text = String::new();
    for (i, f) in fields.iter().enumerate() {
        if i > 0 {
            text.push(';');
        }
        if f.1 {
            text.push('"');
            text.push_str(f.0);
            text.push('"');
        } else {
            text.push_str(f.0);
        }
    }
    text.push('\n');
    text
}

fn tables() -> Vec<Vec<Vec<Field>>> {
    vec![
        vec![vec![Field("a", false)]],
        vec![vec![Field("", false)], vec![Field("x", false)], vec![Field("", false)]],
        vec![vec![Field("", true)], vec![Field("", true)]],
        vec![
            vec![Field("ID", false), Field("Name", false), Field("Note", true)],
            vec![Field("1", false), Field("", false), Field("a;b", true)],
            vec![Field("", false), Field("", false), Field("", true)],
            vec![Field("\n", true), Field("x\"y", false), Field("\n\nz\n", true)],
            vec![Field(" 2 ", false), Field("ä;ö\nü", true), Field("last", false)],
        ],
        vec![
            vec![Field("a", false), Field("b", false)],
            vec![Field("", false), Field("c", false)],
            vec![Field("multi\nline", true), Field(";", true)],
        ],
    ]
}

#[test]
fn tokens_of_well_formed_records() {
    for table in tables() {
        let text: String = table.iter().map(|r| write_record(r)).collect();
        let mut parser = CSVParser::new(&text);
        for record in table.iter() {
            for (i, field) in record.iter().enumerate() {
                match parser.read_token() {
                    ReaderResult::Data(t) => {
                        assert_eq!(t.value, field.0);
                        assert_eq!(t.further_tokens, i + 1 < record.len());
                    }
                    ReaderResult::Eof => panic!("the text ended before its last field"),
                }
            }
        }
        assert!(matches!(parser.read_token(), ReaderResult::Eof));
    }
}

#[test]
fn records_of_well_formed_tables() {
    for table in tables() {
        let text: String = table.iter().map(|r| write_record(r)).collect();
        let mut parser = CSVParser::new(&text);
        let header = parser.read_header_record().unwrap();
        let expected: Vec<&str> = table[0].iter().map(|f| f.0).collect();
        assert_eq!(header, expected);
        let mut row = vec![String::new(); header.len()];
        for record in table.iter().skip(1) {
            assert!(matches!(parser.read_record(&mut row), Ok(ReaderResult::Data(()))));
            let expected: Vec<&str> = record.iter().map(|f| f.0).collect();
            assert_eq!(row, expected);
        }
        assert!(matches!(parser.read_record(&mut row), Ok(ReaderResult::Eof)));
    }
}

#[test]
fn final_line_break_makes_no_difference() {
    for table in tables() {
        let text: String = table.iter().map(|r| write_record(r)).collect();
        let cut = &text[..text.len() - 1];
        if cut.is_empty() || cut.ends_with('\n') {
            continue;
        }
        let mut whole = CSVParser::new(&text);
        let mut short = CSVParser::new(cut);
        loop {
            let a = match whole.read_token() {
                ReaderResult::Data(t) => Some((t.value, t.further_tokens)),
                ReaderResult::Eof => None,
            };
            let b = match short.read_token() {
                ReaderResult::Data(t) => Some((t.value, t.further_tokens)),
                ReaderResult::Eof => None,
            };
            assert_eq!(a, b);
            if a.is_none() {
                break;
            }
        }
    }
}

#[test]
fn line_numbers_count_physical_lines() {
    // The second row stands on the fourth physical line and is one column short.
    let text = "a;b;c\n1;\"x\ny\";3\n4;5\n";
    let mut parser = CSVParser::new(text);
    parser.read_header_record().unwrap();
    let mut row = vec![String::new(); 3];
    assert!(matches!(parser.read_record(&mut row), Ok(ReaderResult::Data(()))));
    match parser.read_record(&mut row) {
        Err(zep_clockify::error::RecordError::ColumnCountMismatch { line, .. }) => {
            assert_eq!(line, 4)
        }
        _ => panic!("the short row was not noticed"),
    }
    // The end of the text is met one line behind its last line.
    let mut parser = CSVParser::new("a;b\n1;\n");
    parser.read_header_record().unwrap();
    let mut row = vec![String::new(); 2];
    assert_eq!(
        parser.read_record(&mut row).err(),
        Some(zep_clockify::error::RecordError::UnexpectedEnd { line: 3 })
    );
}
