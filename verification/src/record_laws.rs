//! What the record reader does, said over the tokens that it reads.

use crate::csv_model::{
    lemma_read_token_progress, next_line_index, ParserState, spec_check_line_buffer,
    spec_read_header, spec_read_quoted, spec_read_record, spec_read_token, spec_update_line,
};
use crate::csv_parser::{ReaderResult, TokenView};
use crate::error::{ColumnMismatch, RecordError};
use crate::text::{find_from, lemma_find_from};
use vstd::prelude::*;

verus! {

/// The state after `k` tokens have been read from `s`.
pub open spec fn after_tokens(s: ParserState, k: nat) -> ParserState
    decreases k,
{
    if k == 0 {
        s
    } else {
        after_tokens(spec_read_token(s).1, (k - 1) as nat)
    }
}

/// What the read of token number `k`, counted from 0, gives from `s`.
pub open spec fn nth_token(s: ParserState, k: nat) -> ReaderResult<TokenView> {
    spec_read_token(after_tokens(s, k)).0
}

/// Token number `k` is a field, and it is the last of its record exactly if
/// `last` says so.
pub open spec fn is_field(s: ParserState, k: nat, last: bool) -> bool {
    nth_token(s, k) is Data && nth_token(s, k)->Data_0.further_tokens == !last
}

/// How many of the first `n` tokens, from the first one on without a gap,
/// are fields that a further field follows.
pub open spec fn leading_fields(s: ParserState, n: nat) -> nat
    decreases n,
{
    if n > 0 && is_field(s, 0, false) {
        1 + leading_fields(spec_read_token(s).1, (n - 1) as nat)
    } else {
        0
    }
}

/// How many tokens the reading of a row of `n` columns takes from `s`: it
/// stops behind the first token that is no field with a further field
/// behind it, and at the latest behind token `n`.
pub open spec fn tokens_taken(s: ParserState, n: nat) -> nat {
    let k = leading_fields(s, n);
    if k == n {
        n
    } else {
        k + 1
    }
}

/// How the reading of a row of `n` columns ends, `started` telling whether
/// columns of the row have been read before `s`.
pub open spec fn record_outcome(s: ParserState, n: nat, started: bool) -> Result<
    ReaderResult<()>,
    RecordError,
> {
    let k = leading_fields(s, n);
    let line = after_tokens(s, tokens_taken(s, n)).line_index;
    if n == 0 {
        Ok(ReaderResult::Data(()))
    } else if k == n {
        Err(RecordError::ColumnCountMismatch { line, kind: ColumnMismatch::TooMany })
    } else if nth_token(s, k) is Eof {
        if k == 0 && !started {
            Ok(ReaderResult::Eof)
        } else {
            Err(RecordError::UnexpectedEnd { line })
        }
    } else if k + 1 == n {
        Ok(ReaderResult::Data(()))
    } else {
        Err(RecordError::ColumnCountMismatch { line, kind: ColumnMismatch::TooFew })
    }
}

/// `leading_fields` counts a run of fields with a further field behind
/// each, and the token behind the run, if it is among the first `n`, is none.
pub proof fn lemma_leading_fields(s: ParserState, n: nat)
    ensures
        leading_fields(s, n) <= n,
        forall|j: nat| j < leading_fields(s, n) ==> is_field(s, j, false),
        leading_fields(s, n) < n ==> !is_field(s, leading_fields(s, n), false),
    decreases n,
{
    if n > 0 && is_field(s, 0, false) {
        let s1 = spec_read_token(s).1;
        lemma_leading_fields(s1, (n - 1) as nat);
        assert forall|j: nat| j < leading_fields(s, n) implies is_field(s, j, false) by {
            if j > 0 {
                assert(is_field(s1, (j - 1) as nat, false));
            }
        }
        let k = leading_fields(s1, (n - 1) as nat);
        assert(after_tokens(s, k + 1) == after_tokens(s1, k));
    }
}

/// The reading of a row from column `i` on, said over the tokens: how it
/// ends, where it leaves the parser and what it leaves in the buffer.
pub proof fn lemma_read_record_from(s: ParserState, buf: Seq<Seq<char>>, i: int)
    requires
        s.wf(),
        0 <= i <= buf.len(),
        buf.len() == s.num_columns,
    ensures
        ({
            let n = (buf.len() - i) as nat;
            let taken = tokens_taken(s, n);
            let out = spec_read_record(s, buf, i);
            &&& out.0 == record_outcome(s, n, i > 0)
            &&& out.1 == after_tokens(s, taken)
            &&& out.2.len() == buf.len()
            &&& taken <= n
            &&& forall|j: int| 0 <= j < i || i + taken <= j < buf.len() ==> out.2[j] == buf[j]
            &&& forall|k: nat|
                k < taken && (#[trigger] nth_token(s, k)) is Data ==> out.2[i + k] == nth_token(
                    s,
                    k,
                )->Data_0.value
        }),
    decreases buf.len() - i,
{
    let n = (buf.len() - i) as nat;
    let out = spec_read_record(s, buf, i);
    if n > 0 {
        lemma_read_token_progress(s);
        let (r, s1) = spec_read_token(s);
        if let ReaderResult::Data(t) = r {
            let filled = buf.update(i, t.value);
            let is_last = i + 1 == s.num_columns;
            if t.further_tokens && !is_last {
                let m = (n - 1) as nat;
                lemma_read_record_from(s1, filled, i + 1);
                let k1 = leading_fields(s1, m);
                let taken1 = tokens_taken(s1, m);
                assert(nth_token(s, k1 + 1) == nth_token(s1, k1));
                assert forall|k: nat|
                    k < taken1 + 1 && (#[trigger] nth_token(s, k)) is Data implies out.2[i + k]
                    == nth_token(s, k)->Data_0.value by {
                    if k == 0 {
                        assert(out.2[i] == filled[i]);
                    } else {
                        let k0 = (k - 1) as nat;
                        assert(out.2[i + 1 + k0] == nth_token(s1, k0)->Data_0.value);
                    }
                }
                assert forall|j: int|
                    0 <= j < i || i + taken1 + 1 <= j < buf.len() implies out.2[j] == buf[j] by {
                    assert(out.2[j] == filled[j]);
                }
            } else if !t.further_tokens && is_last {
                assert(out == spec_read_record(s1, filled, i + 1));
                let done = Ok::<ReaderResult<()>, RecordError>(ReaderResult::Data(()));
                assert(out == (done, s1, filled));
            } else if t.further_tokens {
                assert(leading_fields(s, n) == 1);
            } else {
                assert(leading_fields(s, n) == 0);
            }
        } else {
            assert(leading_fields(s, n) == 0);
        }
    }
}

/// The values of the first `n` tokens read from `s`.
pub open spec fn token_values(s: ParserState, n: nat) -> Seq<Seq<char>> {
    Seq::new(n, |j: int| nth_token(s, j as nat)->Data_0.value)
}

/// The header is the run of fields up to and including the first one that
/// is the last of its record: where the first `n` tokens are fields with a
/// further field behind each and token `n` is a field without, the header
/// holds the values of these `n + 1` tokens, appended to `acc`, and their
/// count becomes the column count. Where the input ends at token `n`
/// instead, the header is truncated, which is an error that bears the line
/// index at which the parser then stands.
pub proof fn law_header_is_fields_up_to_the_last(s: ParserState, acc: Seq<Seq<char>>, n: nat)
    requires
        s.wf(),
        forall|j: nat| j < n ==> is_field(s, j, false),
        !is_field(s, n, false),
    ensures
        ({
            let end = after_tokens(s, n + 1);
            let fields = acc + token_values(s, n + 1);
            if nth_token(s, n) is Data {
                spec_read_header(s, acc) == (
                    Ok::<Seq<Seq<char>>, RecordError>(fields),
                    ParserState { num_columns: fields.len(), ..end },
                )
            } else {
                spec_read_header(s, acc) == (
                    Err::<Seq<Seq<char>>, RecordError>(
                        RecordError::UnexpectedEnd { line: end.line_index },
                    ),
                    end,
                )
            }
        }),
    decreases n,
{
    let (r, s1) = spec_read_token(s);
    assert(after_tokens(s, 1) == after_tokens(s1, 0));
    if n == 0 {
        if let ReaderResult::Data(t) = r {
            assert(acc.push(t.value) == acc + token_values(s, 1));
        }
    } else {
        assert(is_field(s, 0, false));
        let m = (n - 1) as nat;
        assert forall|j: nat| j < m implies is_field(s1, j, false) by {
            assert(is_field(s, j + 1, false));
        }
        lemma_read_token_progress(s);
        let value = r->Data_0.value;
        law_header_is_fields_up_to_the_last(s1, acc.push(value), m);
        let left = acc.push(value) + token_values(s1, m + 1);
        let right = acc + token_values(s, n + 1);
        assert forall|j: int| 0 <= j < left.len() implies left[j] == right[j] by {
            if j > acc.len() {
                let k = (j - acc.len()) as nat;
                assert(after_tokens(s, k) == after_tokens(s1, (k - 1) as nat));
            }
        }
        assert(left == right);
    }
}

/// A row of `n` columns is read in full exactly if the next `n` tokens are
/// fields of which the last one, and no other, is the last of its record.
/// The buffer then holds the values of these tokens in their order, and the
/// parser stands behind them.
pub proof fn law_record_is_fields_up_to_the_last(s: ParserState, buf: Seq<Seq<char>>)
    requires
        s.wf(),
        s.num_columns > 0,
        buf.len() == s.num_columns,
    ensures
        ({
            let n = buf.len();
            let out = spec_read_record(s, buf, 0);
            &&& (out.0 is Ok && out.0->Ok_0 is Data) <==> (forall|j: nat|
                j < n ==> (#[trigger] nth_token(s, j)) is Data && nth_token(
                    s,
                    j,
                )->Data_0.further_tokens == (j + 1 < n))
            &&& (out.0 is Ok && out.0->Ok_0 is Data) ==> out.1 == after_tokens(s, n)
                && out.2.len() == n && forall|j: nat|
                j < n ==> out.2[j as int] == nth_token(s, j)->Data_0.value
        }),
{
    let n = buf.len();
    let out = spec_read_record(s, buf, 0);
    let k = leading_fields(s, n);
    lemma_read_record_from(s, buf, 0);
    lemma_leading_fields(s, n);
    if out.0 is Ok && out.0->Ok_0 is Data {
        assert forall|j: nat| j < n implies (#[trigger] nth_token(s, j)) is Data && nth_token(
            s,
            j,
        )->Data_0.further_tokens == (j + 1 < n) && out.2[j as int] == nth_token(
            s,
            j,
        )->Data_0.value by {
            if j < k {
                assert(is_field(s, j, false));
            }
        }
    }
    if forall|j: nat|
        j < n ==> (#[trigger] nth_token(s, j)) is Data && nth_token(
            s,
            j,
        )->Data_0.further_tokens == (j + 1 < n) {
        if k < n {
            assert(nth_token(s, k) is Data);
        } else {
            assert(is_field(s, (n - 1) as nat, false));
        }
    }
}

/// A row fails with too few columns exactly if one of its fields before the
/// last column is the last of its record, all fields before that one having
/// a further field behind them. A row fails with too many columns exactly if
/// all its fields, the one of the last column too, have a further field
/// behind them. In both cases the error bears the line index at which the
/// parser stands behind the offending field.
pub proof fn law_column_count_mismatch(s: ParserState, buf: Seq<Seq<char>>)
    requires
        s.wf(),
        s.num_columns > 0,
        buf.len() == s.num_columns,
    ensures
        ({
            let n = buf.len();
            let k = leading_fields(s, n);
            let out = spec_read_record(s, buf, 0);
            &&& k + 1 < n && is_field(s, k, true) <==> out.0 == Err::<
                ReaderResult<()>,
                RecordError,
            >(
                RecordError::ColumnCountMismatch {
                    line: after_tokens(s, k + 1).line_index,
                    kind: ColumnMismatch::TooFew,
                },
            )
            &&& k == n <==> out.0 == Err::<ReaderResult<()>, RecordError>(
                RecordError::ColumnCountMismatch {
                    line: after_tokens(s, n).line_index,
                    kind: ColumnMismatch::TooMany,
                },
            )
            &&& out.0 matches Err(RecordError::ColumnCountMismatch { line, kind })
                ==> out.1.line_index == line
        }),
{
    lemma_read_record_from(s, buf, 0);
    lemma_leading_fields(s, buf.len());
}

/// Where the input ends before the first column of a row, the row reader
/// reports the clean end of the input and no error. Where it ends behind
/// one or more fields that each have a further field behind them, the row
/// is truncated, which is an error.
pub proof fn law_end_of_input(s: ParserState, buf: Seq<Seq<char>>)
    requires
        s.wf(),
        s.num_columns > 0,
        buf.len() == s.num_columns,
    ensures
        ({
            let n = buf.len();
            let k = leading_fields(s, n);
            let out = spec_read_record(s, buf, 0);
            &&& nth_token(s, 0) is Eof <==> out.0 == Ok::<ReaderResult<()>, RecordError>(
                ReaderResult::Eof,
            )
            &&& 0 < k < n && nth_token(s, k) is Eof <==> out.0 == Err::<
                ReaderResult<()>,
                RecordError,
            >(RecordError::UnexpectedEnd { line: after_tokens(s, k + 1).line_index })
        }),
{
    lemma_read_record_from(s, buf, 0);
    lemma_leading_fields(s, buf.len());
}

/// The parser has met the end of the text: its buffer is empty and no text
/// is left.
pub open spec fn at_end(s: ParserState) -> bool {
    s.line.len() == 0 && s.cursor == 0 && s.rest.len() == 0
}

/// A quoted field that meets the end of the text leaves the parser at the end.
pub proof fn lemma_quoted_at_end(s: ParserState, acc: Seq<char>)
    ensures
        spec_read_quoted(s, acc).0 is Eof ==> at_end(spec_read_quoted(s, acc).1),
    decreases s.rest.len(),
{
    if find_from(s.line, '"', s.cursor) is None {
        let (r, s1) = spec_update_line(s);
        if r is Data {
            lemma_find_from(s.rest, '\n', 0);
            lemma_quoted_at_end(s1, acc + s.line.skip(s.cursor) + seq!['\n']);
        }
    }
}

/// The end of the input is final: a read that has met it leaves the parser
/// at the end, and every later read meets it again and changes nothing but
/// the line counter.
pub proof fn law_end_of_input_is_final(s: ParserState)
    requires
        s.wf(),
        spec_read_token(s).0 is Eof,
    ensures
        at_end(spec_read_token(s).1),
        spec_read_token(spec_read_token(s).1) == (
            ReaderResult::<TokenView>::Eof,
            ParserState {
                line_index: next_line_index(spec_read_token(s).1.line_index),
                ..spec_read_token(s).1
            },
        ),
{
    let (r, s1) = spec_check_line_buffer(s);
    if r is Data && s1.cursor < s1.line.len() && s1.line[s1.cursor] == '"' {
        lemma_quoted_at_end(ParserState { cursor: s1.cursor + 1, ..s1 }, Seq::empty());
    }
    let end = spec_read_token(s).1;
    assert(end.line == Seq::<char>::empty());
}

} // verus!
