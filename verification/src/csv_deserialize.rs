//! Header-driven mapping of rows onto typed records.

use crate::csv_model::{lemma_read_record_progress, ParserState, spec_read_header, spec_read_record};
use crate::csv_parser::{CSVParser, lemma_views_push, ReaderResult, views};
use crate::error::{CsvError, CsvErrorView, FieldError};
use crate::text::{find_from, lemma_find_from};
use vstd::prelude::*;

verus! {

/// What a record type has to offer so that rows can be read into it: how
/// many fields it has, under which column name each field is found, and how
/// the raw text of a column becomes the field's value.
///
/// The contracts of the deserializer speak of records through their
/// mathematical value, `Model`, and of the binding through the `spec_`
/// functions. A record type whose binding is to be verified defines all of
/// them; the bodies that stand here say nothing, and hold for a type that is
/// bound without a proof.
pub trait StructInfo: Clone + Default {
    /// The number of fields.
    const NUM_FIELDS: usize;

    /// The mathematical value of a record.
    type Model;

    /// The mathematical value of `self`.
    open spec fn model(&self) -> Self::Model {
        arbitrary()
    }

    /// The value of a record that no field has been parsed into yet.
    open spec fn spec_default() -> Self::Model {
        arbitrary()
    }

    /// The column name of the field at `index`.
    open spec fn spec_field_name(index: int) -> Seq<char> {
        arbitrary()
    }

    /// The record after `raw` was parsed into the field at `index`, or why
    /// `raw` was rejected.
    open spec fn spec_parse_field(record: Self::Model, index: int, raw: Seq<char>) -> Result<
        Self::Model,
        FieldError,
    > {
        arbitrary()
    }

    /// Creates the record that a row's columns are parsed into.
    fn default_record() -> (record: Self)
        ensures
            record.model() == Self::spec_default(),
    ;

    /// Returns the column name of the field at `index`.
    fn get_field_name(index: usize) -> (name: &'static str)
        requires
            index < Self::NUM_FIELDS,
        ensures
            name@ == Self::spec_field_name(index as int),
    ;

    /// Parses `s` and stores the value into the field at `index`.
    fn parse_field(&mut self, index: usize, s: &str) -> (r: Result<(), FieldError>)
        requires
            index < Self::NUM_FIELDS,
        ensures
            match Self::spec_parse_field(old(self).model(), index as int, s@) {
                Ok(record) => r is Ok && final(self).model() == record,
                Err(e) => r == Err::<(), FieldError>(e),
            },
    ;
}

/// The first field at or after `from` whose name is no column of `header`.
pub open spec fn first_missing<Record: StructInfo>(header: Seq<Seq<char>>, from: int) -> Option<
    int,
>
    decreases Record::NUM_FIELDS - from,
{
    if from < 0 || from >= Record::NUM_FIELDS {
        None
    } else if find_from(header, Record::spec_field_name(from), 0) is None {
        Some(from)
    } else {
        first_missing::<Record>(header, from + 1)
    }
}

/// For each field, the first column of `header` that bears the field's name.
pub open spec fn spec_index_map<Record: StructInfo>(header: Seq<Seq<char>>) -> Seq<int> {
    Seq::new(
        Record::NUM_FIELDS as nat,
        |i: int| find_from(header, Record::spec_field_name(i), 0).unwrap(),
    )
}

/// `first_missing` returns the least field without a column: all fields
/// before it have one, and `None` means that every field from `from` on has
/// one.
pub proof fn lemma_first_missing<Record: StructInfo>(header: Seq<Seq<char>>, from: int)
    requires
        0 <= from,
    ensures
        match first_missing::<Record>(header, from) {
            Some(i) => from <= i < Record::NUM_FIELDS && find_from(
                header,
                Record::spec_field_name(i),
                0,
            ) is None && forall|j: int|
                from <= j < i ==> find_from(header, Record::spec_field_name(j), 0) is Some,
            None => forall|j: int|
                from <= j < Record::NUM_FIELDS ==> find_from(
                    header,
                    Record::spec_field_name(j),
                    0,
                ) is Some,
        },
    decreases Record::NUM_FIELDS - from,
{
    if from < Record::NUM_FIELDS && find_from(header, Record::spec_field_name(from), 0) is Some {
        lemma_first_missing::<Record>(header, from + 1);
    }
}

/// Finds the first element of `header` that equals `name`.
fn find_column(header: &[String], name: &str) -> (r: Option<usize>)
    ensures
        match r {
            Some(k) => k < header.len() && find_from(views(header@), name@, 0) == Some(k as int),
            None => find_from(views(header@), name@, 0) is None,
        },
{
    let wanted = name.to_owned();
    let mut i: usize = 0;
    while i < header.len()
        invariant
            i <= header.len(),
            wanted@ == name@,
            find_from(views(header@), name@, 0) == find_from(views(header@), name@, i as int),
        decreases header.len() - i,
    {
        if header[i] == wanted {
            return Some(i);
        }
        i += 1;
    }
    None
}

/// Creates the map from the record's field indices to the column indices.
///
/// Fields are bound by name alone, each to the first column of its name;
/// the first field without a column fails the call.
pub fn create_index_map<Record: StructInfo>(header: &[String]) -> (r: Result<
    Vec<usize>,
    CsvError,
>)
    ensures
        match first_missing::<Record>(views(header@), 0) {
            Some(i) => r is Err && r->Err_0@ == (CsvErrorView::MissingField {
                name: Record::spec_field_name(i),
            }),
            None => r is Ok && r->Ok_0@.map_values(|k: usize| k as int) == spec_index_map::<
                Record,
            >(views(header@)),
        },
        r matches Ok(m) ==> m.len() == Record::NUM_FIELDS && forall|i: int|
            0 <= i < m.len() ==> m[i] < header.len(),
{
    let mut m: Vec<usize> = Vec::new();
    let mut i: usize = 0;
    while i < Record::NUM_FIELDS
        invariant
            i <= Record::NUM_FIELDS,
            m.len() == i,
            first_missing::<Record>(views(header@), 0) == first_missing::<Record>(
                views(header@),
                i as int,
            ),
            forall|j: int| 0 <= j < i ==> m[j] < header.len(),
            forall|j: int|
                0 <= j < i ==> find_from(views(header@), Record::spec_field_name(j), 0) == Some(
                    #[trigger] m[j] as int,
                ),
        decreases Record::NUM_FIELDS - i,
    {
        let name = Record::get_field_name(i);
        match find_column(header, name) {
            Some(index) => {
                m.push(index);
            },
            None => {
                return Err(CsvError::MissingField { name: name.to_owned() });
            },
        }
        i += 1;
    }
    Ok(m)
}

/// The mathematical values of a sequence of records.
pub open spec fn models<Record: StructInfo>(records: Seq<Record>) -> Seq<Record::Model> {
    records.map_values(|r: Record| r.model())
}

/// One row: the fields from `from` on are parsed in order, each from the
/// column that `map` binds it to. The first rejected column fails the row.
pub open spec fn spec_parse_row<Record: StructInfo>(
    record: Record::Model,
    row: Seq<Seq<char>>,
    map: Seq<int>,
    from: int,
) -> Result<Record::Model, CsvErrorView>
    decreases Record::NUM_FIELDS - from,
{
    if from < 0 || from >= Record::NUM_FIELDS {
        Ok(record)
    } else {
        let raw = row[map[from]];
        match Record::spec_parse_field(record, from, raw) {
            Ok(next) => spec_parse_row::<Record>(next, row, map, from + 1),
            Err(reason) => Err(
                CsvErrorView::FieldParse {
                    index: from as usize,
                    name: Record::spec_field_name(from),
                    raw,
                    reason,
                },
            ),
        }
    }
}

/// All rows: records are read and parsed until the clean end of the input,
/// and appended to `acc` in input order. The first fault, of a row's
/// structure or of a column's text, is the result.
pub open spec fn spec_parse_rows<Record: StructInfo>(
    s: ParserState,
    buf: Seq<Seq<char>>,
    map: Seq<int>,
    acc: Seq<Record::Model>,
) -> Result<Seq<Record::Model>, CsvErrorView>
    decreases s.unread(),
    when s.wf() && s.num_columns > 0 && buf.len() == s.num_columns
{
    let (r, s1, row) = spec_read_record(s, buf, 0);
    match r {
        Err(e) => Err(CsvErrorView::Record(e)),
        Ok(ReaderResult::Eof) => Ok(acc),
        Ok(ReaderResult::Data(_)) => match spec_parse_row::<Record>(
            Record::spec_default(),
            row,
            map,
            0,
        ) {
            Err(e) => Err(e),
            Ok(record) => {
                proof {
                    lemma_read_record_progress(s, buf, 0);
                }
                spec_parse_rows::<Record>(s1, row, map, acc.push(record))
            },
        },
    }
}

/// A whole text: the header is read, every field is bound to a column, and
/// then all rows are parsed. A field without a column fails the call before
/// any row is looked at.
pub open spec fn spec_deserialize<Record: StructInfo>(text: Seq<char>) -> Result<
    Seq<Record::Model>,
    CsvErrorView,
> {
    let (h, s1) = spec_read_header(ParserState::start(text), Seq::empty());
    match h {
        Err(e) => Err(CsvErrorView::Record(e)),
        Ok(header) => match first_missing::<Record>(header, 0) {
            Some(i) => Err(CsvErrorView::MissingField { name: Record::spec_field_name(i) }),
            None => spec_parse_rows::<Record>(
                s1,
                Seq::new(header.len(), |i: int| Seq::<char>::empty()),
                spec_index_map::<Record>(header),
                Seq::empty(),
            ),
        },
    }
}

/// Parses one row that has been read into `row`.
fn parse_row<Record: StructInfo>(row: &Vec<String>, field_map: &Vec<usize>) -> (r: Result<
    Record,
    CsvError,
>)
    requires
        field_map.len() == Record::NUM_FIELDS,
        forall|i: int| 0 <= i < field_map.len() ==> field_map[i] < row.len(),
    ensures
        match spec_parse_row::<Record>(
            Record::spec_default(),
            views(row@),
            field_map@.map_values(|k: usize| k as int),
            0,
        ) {
            Ok(record) => r is Ok && r->Ok_0.model() == record,
            Err(e) => r is Err && r->Err_0@ == e,
        },
{
    let mut record = Record::default_record();
    let ghost map = field_map@.map_values(|k: usize| k as int);
    let mut field_index: usize = 0;
    while field_index < field_map.len()
        invariant
            field_index <= field_map.len(),
            field_map.len() == Record::NUM_FIELDS,
            forall|i: int| 0 <= i < field_map.len() ==> field_map[i] < row.len(),
            map == field_map@.map_values(|k: usize| k as int),
            spec_parse_row::<Record>(record.model(), views(row@), map, field_index as int)
                == spec_parse_row::<Record>(Record::spec_default(), views(row@), map, 0),
        decreases field_map.len() - field_index,
    {
        let record_index = field_map[field_index];
        let raw = row[record_index].as_str();
        match record.parse_field(field_index, raw) {
            Ok(()) => {},
            Err(reason) => {
                return Err(
                    CsvError::FieldParse {
                        index: field_index,
                        name: Record::get_field_name(field_index).to_owned(),
                        raw: raw.to_owned(),
                        reason,
                    },
                );
            },
        }
        field_index += 1;
    }
    Ok(record)
}

/// Reads `input` as a header row followed by data rows, and turns each row
/// into a record.
pub fn deserialize_csv<Record: StructInfo>(input: &str) -> (r: Result<Vec<Record>, CsvError>)
    ensures
        match spec_deserialize::<Record>(input@) {
            Ok(records) => r is Ok && models(r->Ok_0@) == records,
            Err(e) => r is Err && r->Err_0@ == e,
        },
{
    let mut parser = CSVParser::new(input);
    let header = match parser.read_header_record() {
        Ok(header) => header,
        Err(e) => {
            return Err(CsvError::Record(e));
        },
    };
    proof {
        lemma_first_missing::<Record>(views(header@), 0);
    }
    let field_map = match create_index_map::<Record>(header.as_slice()) {
        Ok(field_map) => field_map,
        Err(e) => {
            return Err(e);
        },
    };
    let ghost map = field_map@.map_values(|k: usize| k as int);

    let mut record_raw: Vec<String> = Vec::new();
    let mut i: usize = 0;
    while i < header.len()
        invariant
            i <= header.len(),
            views(record_raw@) == Seq::new(i as nat, |i: int| Seq::<char>::empty()),
        decreases header.len() - i,
    {
        let empty = String::new();
        proof {
            lemma_views_push(record_raw@, empty);
        }
        record_raw.push(empty);
        i += 1;
    }

    let mut records: Vec<Record> = Vec::new();
    assert(models(records@) == Seq::<Record::Model>::empty());
    loop
        invariant
            parser.wf(),
            parser@.wf(),
            parser@.num_columns > 0,
            record_raw.len() == parser@.num_columns,
            record_raw.len() == header.len(),
            field_map.len() == Record::NUM_FIELDS,
            forall|i: int| 0 <= i < field_map.len() ==> field_map[i] < header.len(),
            map == field_map@.map_values(|k: usize| k as int),
            spec_parse_rows::<Record>(parser@, views(record_raw@), map, models(records@))
                == spec_deserialize::<Record>(input@),
        decreases parser@.unread(),
    {
        proof {
            lemma_read_record_progress(parser@, views(record_raw@), 0);
        }
        let ghost before = models(records@);
        match parser.read_record(record_raw.as_mut_slice()) {
            Err(e) => {
                return Err(CsvError::Record(e));
            },
            Ok(ReaderResult::Eof) => {
                return Ok(records);
            },
            Ok(ReaderResult::Data(_)) => {
                match parse_row::<Record>(&record_raw, &field_map) {
                    Ok(record) => {
                        records.push(record);
                        assert(models(records@) == before.push(record.model()));
                    },
                    Err(e) => {
                        return Err(e);
                    },
                }
            },
        }
    }
}

} // verus!
