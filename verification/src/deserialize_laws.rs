//! What the deserializer guarantees, said without its loops.

use crate::csv_deserialize::{
    first_missing, lemma_first_missing, models, spec_deserialize, spec_index_map, spec_parse_row,
    spec_parse_rows, StructInfo,
};
use crate::csv_model::{ParserState, spec_read_header, spec_read_record};
use crate::error::{CsvError, CsvErrorView};
use crate::well_formed::{
    at_record_start, contents, Field, law_end_of_a_well_formed_text,
    law_header_of_a_well_formed_text, law_row_of_a_well_formed_text, record_ok, record_text,
};
use crate::text::{find_from, lemma_find_from};
use vstd::prelude::*;

verus! {

/// `r` is what `deserialize_csv` may return for `text`.
pub open spec fn is_outcome<Record: StructInfo>(
    text: Seq<char>,
    r: Result<Vec<Record>, CsvError>,
) -> bool {
    match spec_deserialize::<Record>(text) {
        Ok(records) => r is Ok && models(r->Ok_0@) == records,
        Err(e) => r is Err && r->Err_0@ == e,
    }
}

/// Fields are bound to columns by name alone. The binding succeeds exactly
/// if every field's name is among the header's columns, in whatever order
/// the fields are declared and the columns stand; each field is then bound
/// to the first column of its name. Where it fails, the field that is
/// reported is the first one whose name the header lacks.
pub proof fn law_binding_is_by_name<Record: StructInfo>(header: Seq<Seq<char>>)
    ensures
        first_missing::<Record>(header, 0) is None <==> forall|i: int|
            0 <= i < Record::NUM_FIELDS ==> header.contains(#[trigger] Record::spec_field_name(i)),
        first_missing::<Record>(header, 0) is None ==> forall|i: int|
            #![trigger spec_index_map::<Record>(header)[i]]
            0 <= i < Record::NUM_FIELDS ==> {
                let column = spec_index_map::<Record>(header)[i];
                &&& 0 <= column < header.len()
                &&& header[column] == Record::spec_field_name(i)
                &&& forall|j: int| 0 <= j < column ==> header[j] != Record::spec_field_name(i)
            },
        first_missing::<Record>(header, 0) matches Some(i) ==> !header.contains(
            Record::spec_field_name(i),
        ) && forall|j: int| 0 <= j < i ==> header.contains(#[trigger] Record::spec_field_name(j)),
{
    lemma_first_missing::<Record>(header, 0);
    assert forall|i: int| 0 <= i < Record::NUM_FIELDS implies (find_from(
        header,
        #[trigger] Record::spec_field_name(i),
        0,
    ) is Some <==> header.contains(Record::spec_field_name(i))) by {
        lemma_find_from(header, Record::spec_field_name(i), 0);
    }
    if first_missing::<Record>(header, 0) is None {
        assert forall|i: int|
            #![trigger spec_index_map::<Record>(header)[i]]
            0 <= i < Record::NUM_FIELDS implies {
            let column = spec_index_map::<Record>(header)[i];
            &&& 0 <= column < header.len()
            &&& header[column] == Record::spec_field_name(i)
            &&& forall|j: int| 0 <= j < column ==> header[j] != Record::spec_field_name(i)
        } by {
            lemma_find_from(header, Record::spec_field_name(i), 0);
        }
    }
}

/// Parsing is a function of the text: two runs over the same text, each
/// with a parser of its own, end alike. Both fail with the same error, or
/// both give the same records in the same order.
pub proof fn law_same_input_same_output<Record: StructInfo>(
    first_text: Seq<char>,
    second_text: Seq<char>,
    first: Result<Vec<Record>, CsvError>,
    second: Result<Vec<Record>, CsvError>,
)
    requires
        first_text == second_text,
        is_outcome(first_text, first),
        is_outcome(second_text, second),
    ensures
        first is Ok <==> second is Ok,
        first is Ok ==> models(first->Ok_0@) == models(second->Ok_0@),
        first is Err ==> first->Err_0@ == second->Err_0@,
{
}

/// The records of a table from `from` on in writing, one behind the other.
pub open spec fn table_text(records: Seq<Seq<Field>>, from: int) -> Seq<char>
    decreases records.len() - from,
{
    if from < 0 || from >= records.len() {
        Seq::empty()
    } else {
        record_text(records[from], 0) + table_text(records, from + 1)
    }
}

/// The rows of a table from `from` on, each parsed into a record of its
/// own and appended to `acc` in their order; the first column that a field
/// rejects is the result.
pub open spec fn spec_parse_table<Record: StructInfo>(
    rows: Seq<Seq<Field>>,
    from: int,
    map: Seq<int>,
    acc: Seq<Record::Model>,
) -> Result<Seq<Record::Model>, CsvErrorView>
    decreases rows.len() - from,
{
    if from < 0 || from >= rows.len() {
        Ok(acc)
    } else {
        match spec_parse_row::<Record>(Record::spec_default(), contents(rows[from]), map, 0) {
            Err(e) => Err(e),
            Ok(record) => spec_parse_table::<Record>(rows, from + 1, map, acc.push(record)),
        }
    }
}

/// A table can be written as one: header and rows are well-formed records
/// of one length.
pub open spec fn table_ok(header: Seq<Field>, rows: Seq<Seq<Field>>) -> bool {
    &&& record_ok(header)
    &&& forall|i: int|
        0 <= i < rows.len() ==> record_ok(#[trigger] rows[i]) && rows[i].len() == header.len()
}

/// The rows of a well-formed table from `from` on, read from their text:
/// the result is that of parsing the contents of each row in its turn.
pub proof fn lemma_rows_of_a_well_formed_table<Record: StructInfo>(
    s: ParserState,
    buf: Seq<Seq<char>>,
    header: Seq<Field>,
    rows: Seq<Seq<Field>>,
    from: int,
    map: Seq<int>,
    acc: Seq<Record::Model>,
)
    requires
        table_ok(header, rows),
        0 <= from <= rows.len(),
        at_record_start(s),
        s.rest == table_text(rows, from),
        s.num_columns == header.len(),
        buf.len() == header.len(),
    ensures
        spec_parse_rows::<Record>(s, buf, map, acc) == spec_parse_table::<Record>(
            rows,
            from,
            map,
            acc,
        ),
    decreases rows.len() - from,
{
    if from == rows.len() {
        law_end_of_a_well_formed_text(s, buf);
    } else {
        let row = rows[from];
        let rest = table_text(rows, from + 1);
        law_row_of_a_well_formed_text(s, row, rest, buf);
        let (r, s1, filled) = spec_read_record(s, buf, 0);
        match spec_parse_row::<Record>(Record::spec_default(), contents(row), map, 0) {
            Err(e) => {},
            Ok(record) => {
                lemma_rows_of_a_well_formed_table::<Record>(
                    s1,
                    filled,
                    header,
                    rows,
                    from + 1,
                    map,
                    acc.push(record),
                );
            },
        }
    }
}

/// Deserializing the text of a well-formed table: where the header lacks
/// the column of a field, that is the error, whatever the rows hold; else
/// the result is that of parsing the contents of each row in its turn, so
/// that the records come out in the order of the rows.
pub proof fn law_deserialize_a_well_formed_table<Record: StructInfo>(
    header: Seq<Field>,
    rows: Seq<Seq<Field>>,
)
    requires
        table_ok(header, rows),
    ensures
        spec_deserialize::<Record>(record_text(header, 0) + table_text(rows, 0))
            == match first_missing::<Record>(contents(header), 0) {
            Some(i) => Err(CsvErrorView::MissingField { name: Record::spec_field_name(i) }),
            None => spec_parse_table::<Record>(
                rows,
                0,
                spec_index_map::<Record>(contents(header)),
                Seq::empty(),
            ),
        },
{
    let text = record_text(header, 0) + table_text(rows, 0);
    let s = ParserState::start(text);
    law_header_of_a_well_formed_text(s, header, table_text(rows, 0));
    let (h, s1) = spec_read_header(s, Seq::empty());
    if first_missing::<Record>(contents(header), 0) is None {
        let buf = Seq::new(contents(header).len(), |i: int| Seq::<char>::empty());
        lemma_rows_of_a_well_formed_table::<Record>(
            s1,
            buf,
            header,
            rows,
            0,
            spec_index_map::<Record>(contents(header)),
            Seq::empty(),
        );
    }
}

} // verus!
