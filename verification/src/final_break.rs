//! The line break at the very end of a text makes no difference.

use crate::csv_deserialize::{
    first_missing, spec_deserialize, spec_index_map, spec_parse_row, spec_parse_rows, StructInfo,
};
use crate::csv_model::{
    lemma_read_header_progress, lemma_read_record_progress, lemma_read_token_progress, ParserState,
    spec_check_line_buffer, spec_read_header, spec_read_quoted, spec_read_record, spec_read_token,
    spec_update_line,
};
use crate::csv_parser::{ReaderResult};
use crate::record_laws::{after_tokens, nth_token};
use crate::text::{find_from, lemma_find_from, lemma_find_from_is};
use vstd::prelude::*;

verus! {

/// `b` is `a`, but for a line break that `b` may have at the very end of
/// its text where the last line of `a` has none.
pub open spec fn alike(a: ParserState, b: ParserState) -> bool {
    &&& a.line == b.line
    &&& a.cursor == b.cursor
    &&& a.line_index == b.line_index
    &&& a.num_columns == b.num_columns
    &&& a.rest == b.rest || (a.rest.len() > 0 && a.rest.last() != '\n' && b.rest == a.rest.push(
        '\n',
    ))
}

/// The line buffer takes the same line from both.
pub proof fn lemma_update_line_alike(a: ParserState, b: ParserState)
    requires
        alike(a, b),
    ensures
        spec_update_line(a).0 == spec_update_line(b).0,
        alike(spec_update_line(a).1, spec_update_line(b).1),
{
    if a.rest != b.rest {
        let text = a.rest;
        let longer = text.push('\n');
        let n = text.len() as int;
        lemma_find_from(text, '\n', 0);
        match find_from(text, '\n', 0) {
            Some(k) => {
                assert forall|i: int| 0 <= i < k implies longer[i] != '\n' by {
                    assert(longer[i] == text[i]);
                }
                lemma_find_from_is(longer, '\n', 0, k);
                assert(longer.take(k) == text.take(k));
                assert(longer.skip(k + 1) == text.skip(k + 1).push('\n'));
            },
            None => {
                assert forall|i: int| 0 <= i < n implies longer[i] != '\n' by {
                    assert(longer[i] == text[i]);
                }
                lemma_find_from_is(longer, '\n', 0, n);
                assert(longer.take(n) == text);
                assert(longer.skip(n + 1) == Seq::<char>::empty());
            },
        }
    }
}

/// A quoted field reads the same from both.
pub proof fn lemma_read_quoted_alike(a: ParserState, b: ParserState, acc: Seq<char>)
    requires
        alike(a, b),
    ensures
        spec_read_quoted(a, acc).0 == spec_read_quoted(b, acc).0,
        alike(spec_read_quoted(a, acc).1, spec_read_quoted(b, acc).1),
    decreases a.rest.len(),
{
    if find_from(a.line, '"', a.cursor) is None {
        lemma_update_line_alike(a, b);
        let (r, a1) = spec_update_line(a);
        let (_, b1) = spec_update_line(b);
        if r is Data {
            lemma_find_from(a.rest, '\n', 0);
            lemma_read_quoted_alike(a1, b1, acc + a.line.skip(a.cursor) + seq!['\n']);
        }
    }
}

/// A token reads the same from both.
pub proof fn lemma_read_token_alike(a: ParserState, b: ParserState)
    requires
        alike(a, b),
    ensures
        spec_read_token(a).0 == spec_read_token(b).0,
        alike(spec_read_token(a).1, spec_read_token(b).1),
{
    if a.cursor == a.line.len() {
        lemma_update_line_alike(a, b);
    }
    let (r, a1) = spec_check_line_buffer(a);
    let (_, b1) = spec_check_line_buffer(b);
    if r is Data && a1.cursor < a1.line.len() && a1.line[a1.cursor] == '"' {
        lemma_read_quoted_alike(
            ParserState { cursor: a1.cursor + 1, ..a1 },
            ParserState { cursor: b1.cursor + 1, ..b1 },
            Seq::empty(),
        );
    }
}

/// Every token reads the same from both.
pub proof fn lemma_tokens_alike(a: ParserState, b: ParserState, k: nat)
    requires
        alike(a, b),
    ensures
        alike(after_tokens(a, k), after_tokens(b, k)),
        nth_token(a, k) == nth_token(b, k),
    decreases k,
{
    lemma_read_token_alike(a, b);
    if k > 0 {
        lemma_tokens_alike(spec_read_token(a).1, spec_read_token(b).1, (k - 1) as nat);
    }
    lemma_read_token_alike(after_tokens(a, k), after_tokens(b, k));
}

/// The header reads the same from both.
pub proof fn lemma_read_header_alike(a: ParserState, b: ParserState, acc: Seq<Seq<char>>)
    requires
        alike(a, b),
        a.wf(),
    ensures
        spec_read_header(a, acc).0 == spec_read_header(b, acc).0,
        alike(spec_read_header(a, acc).1, spec_read_header(b, acc).1),
    decreases a.unread(),
{
    lemma_read_token_alike(a, b);
    lemma_read_token_progress(a);
    let (r, a1) = spec_read_token(a);
    let (_, b1) = spec_read_token(b);
    if let ReaderResult::Data(t) = r {
        if t.further_tokens {
            lemma_read_header_alike(a1, b1, acc.push(t.value));
        }
    }
}

/// A row reads the same from both.
pub proof fn lemma_read_record_alike(a: ParserState, b: ParserState, buf: Seq<Seq<char>>, i: int)
    requires
        alike(a, b),
    ensures
        spec_read_record(a, buf, i).0 == spec_read_record(b, buf, i).0,
        alike(spec_read_record(a, buf, i).1, spec_read_record(b, buf, i).1),
        spec_read_record(a, buf, i).2 == spec_read_record(b, buf, i).2,
    decreases buf.len() - i,
{
    if 0 <= i < buf.len() {
        lemma_read_token_alike(a, b);
        let (r, a1) = spec_read_token(a);
        let (_, b1) = spec_read_token(b);
        if let ReaderResult::Data(t) = r {
            lemma_read_record_alike(a1, b1, buf.update(i, t.value), i + 1);
        }
    }
}

/// The rows parse the same from both.
pub proof fn lemma_parse_rows_alike<Record: StructInfo>(
    a: ParserState,
    b: ParserState,
    buf: Seq<Seq<char>>,
    map: Seq<int>,
    acc: Seq<Record::Model>,
)
    requires
        alike(a, b),
        a.wf(),
        a.num_columns > 0,
        buf.len() == a.num_columns,
    ensures
        spec_parse_rows::<Record>(a, buf, map, acc) == spec_parse_rows::<Record>(b, buf, map, acc),
    decreases a.unread(),
{
    lemma_read_record_alike(a, b, buf, 0);
    lemma_read_record_progress(a, buf, 0);
    let (r, a1, row) = spec_read_record(a, buf, 0);
    let (_, b1, _) = spec_read_record(b, buf, 0);
    if r is Ok && r->Ok_0 is Data {
        if let Ok(record) = spec_parse_row::<Record>(Record::spec_default(), row, map, 0) {
            lemma_parse_rows_alike::<Record>(a1, b1, row, map, acc.push(record));
        }
    }
}

/// A text whose last line lacks its line break reads as the text with that
/// line break: token by token, and as a whole.
pub proof fn law_final_line_break_is_optional<Record: StructInfo>(text: Seq<char>)
    requires
        text.len() > 0,
        text.last() != '\n',
    ensures
        forall|k: nat|
            nth_token(ParserState::start(text), k) == #[trigger] nth_token(
                ParserState::start(text.push('\n')),
                k,
            ),
        spec_deserialize::<Record>(text) == spec_deserialize::<Record>(text.push('\n')),
{
    let a = ParserState::start(text);
    let b = ParserState::start(text.push('\n'));
    assert forall|k: nat| nth_token(a, k) == #[trigger] nth_token(b, k) by {
        lemma_tokens_alike(a, b, k);
    }
    lemma_read_header_alike(a, b, Seq::empty());
    lemma_read_header_progress(a, Seq::empty());
    let (h, a1) = spec_read_header(a, Seq::empty());
    let (_, b1) = spec_read_header(b, Seq::empty());
    if let Ok(header) = h {
        if first_missing::<Record>(header, 0) is None {
            lemma_parse_rows_alike::<Record>(
                a1,
                b1,
                Seq::new(header.len(), |i: int| Seq::<char>::empty()),
                spec_index_map::<Record>(header),
                Seq::empty(),
            );
        }
    }
}

} // verus!
