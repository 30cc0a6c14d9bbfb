//! The reader as mathematics: the state of a parser, and what a read makes
//! of a state.

use crate::csv_parser::{ReaderResult, TokenView};
use crate::error::{ColumnMismatch, RecordError};
use crate::text::{find_from, lemma_find_from};
use vstd::prelude::*;

verus! {

/// What a parser holds, as mathematics: the physical line in the buffer, the
/// cursor into it, the text that no line has been taken from yet, the number
/// of line reads so far, and the column count that the header fixed (0 before).
pub struct ParserState {
    pub line: Seq<char>,
    pub cursor: int,
    pub rest: Seq<char>,
    pub line_index: usize,
    pub num_columns: nat,
}

impl ParserState {
    /// The cursor lies within the line.
    pub open spec fn wf(self) -> bool {
        0 <= self.cursor <= self.line.len()
    }

    /// Number of characters that are still to be scanned.
    pub open spec fn unread(self) -> int {
        self.rest.len() + self.line.len() - self.cursor
    }

    /// The state before anything of `text` has been read.
    pub open spec fn start(text: Seq<char>) -> ParserState {
        ParserState {
            line: Seq::empty(),
            cursor: 0,
            rest: text,
            line_index: 0,
            num_columns: 0,
        }
    }
}

/// The line counter after one more line read; it stops at `usize::MAX`.
pub open spec fn next_line_index(n: usize) -> usize {
    if n < usize::MAX {
        (n + 1) as usize
    } else {
        n
    }
}

/// Line buffer: takes the next physical line off `rest`, without its
/// terminating `'\n'`. At the end of the text the buffer is left empty.
pub open spec fn spec_update_line(s: ParserState) -> (ReaderResult<()>, ParserState) {
    let line_index = next_line_index(s.line_index);
    if s.rest.len() == 0 {
        (ReaderResult::Eof, ParserState { line: Seq::empty(), cursor: 0, line_index, ..s })
    } else {
        match find_from(s.rest, '\n', 0) {
            Some(k) => (
                ReaderResult::Data(()),
                ParserState {
                    line: s.rest.take(k),
                    cursor: 0,
                    rest: s.rest.skip(k + 1),
                    line_index,
                    ..s
                },
            ),
            None => (
                ReaderResult::Data(()),
                ParserState { line: s.rest, cursor: 0, rest: Seq::empty(), line_index, ..s },
            ),
        }
    }
}

/// Line buffer: refills the buffer if the cursor has reached the line's end.
pub open spec fn spec_check_line_buffer(s: ParserState) -> (ReaderResult<()>, ParserState) {
    if s.cursor == s.line.len() {
        spec_update_line(s)
    } else {
        (ReaderResult::Data(()), s)
    }
}

/// Tokenizer, unquoted field: the content runs from the cursor to the next
/// `';'`, behind which a further field is owed, or to the end of the line
/// where there is none. A `';'` at the very end of a line owes a field too:
/// the next read takes it from the next line.
pub open spec fn spec_read_unquoted(s: ParserState) -> (ReaderResult<TokenView>, ParserState) {
    match find_from(s.line, ';', s.cursor) {
        Some(k) => (
            ReaderResult::Data(
                TokenView { value: s.line.subrange(s.cursor, k), further_tokens: true },
            ),
            ParserState { cursor: k + 1, ..s },
        ),
        None => (
            ReaderResult::Data(
                TokenView { value: s.line.skip(s.cursor), further_tokens: false },
            ),
            ParserState { cursor: s.line.len() as int, ..s },
        ),
    }
}

/// Tokenizer, quoted field, with the cursor behind the opening quote and
/// `acc` holding what earlier lines gave: the content runs to the next `'"'`.
/// A line without one is taken whole, followed by `'\n'`, and the search
/// goes on in the next line; if there is no next line the result is `Eof`.
/// Behind the closing quote the rest of the line is skipped up to and
/// including the next `';'`.
pub open spec fn spec_read_quoted(s: ParserState, acc: Seq<char>) -> (
    ReaderResult<TokenView>,
    ParserState,
)
    decreases s.rest.len(),
{
    match find_from(s.line, '"', s.cursor) {
        Some(k) => {
            let value = acc + s.line.subrange(s.cursor, k);
            match find_from(s.line, ';', k + 1) {
                Some(j) => (
                    ReaderResult::Data(TokenView { value, further_tokens: true }),
                    ParserState { cursor: j + 1, ..s },
                ),
                None => (
                    ReaderResult::Data(TokenView { value, further_tokens: false }),
                    ParserState { cursor: s.line.len() as int, ..s },
                ),
            }
        },
        None => {
            let (r, s1) = spec_update_line(s);
            if r is Data {
                proof {
                    lemma_find_from(s.rest, '\n', 0);
                }
                spec_read_quoted(s1, acc + s.line.skip(s.cursor) + seq!['\n'])
            } else {
                (ReaderResult::Eof, s1)
            }
        },
    }
}

/// Tokenizer: one field per call.
///
/// The field starts at the cursor, or on the next line if the buffer is used
/// up; with no next line the result is `Eof`. A field that starts with `'"'`
/// is quoted. A field that starts with `';'` is empty, and is the last of
/// its record exactly if the line ends behind that `';'`. Any other field,
/// the empty field of an empty line included, is unquoted.
pub open spec fn spec_read_token(s: ParserState) -> (ReaderResult<TokenView>, ParserState) {
    let (r, s1) = spec_check_line_buffer(s);
    if r is Eof {
        (ReaderResult::Eof, s1)
    } else if s1.cursor < s1.line.len() && s1.line[s1.cursor] == '"' {
        spec_read_quoted(ParserState { cursor: s1.cursor + 1, ..s1 }, Seq::empty())
    } else if s1.cursor < s1.line.len() && s1.line[s1.cursor] == ';' {
        (
            ReaderResult::Data(
                TokenView { value: Seq::empty(), further_tokens: s1.cursor + 1 < s1.line.len() },
            ),
            ParserState { cursor: s1.cursor + 1, ..s1 },
        )
    } else {
        spec_read_unquoted(s1)
    }
}

/// The line buffer keeps the state well-formed and never adds unread characters.
pub proof fn lemma_update_line_progress(s: ParserState)
    requires
        s.wf(),
        s.cursor == s.line.len(),
    ensures
        spec_update_line(s).1.wf(),
        spec_update_line(s).1.unread() <= s.unread(),
        spec_update_line(s).1.rest.len() <= s.rest.len(),
        spec_update_line(s).0 is Data ==> spec_update_line(s).1.rest.len() < s.rest.len()
            || spec_update_line(s).1.line.len() > 0,
{
    lemma_find_from(s.rest, '\n', 0);
}

/// A quoted field keeps the state well-formed and never adds unread characters.
pub proof fn lemma_read_quoted_progress(s: ParserState, acc: Seq<char>)
    requires
        s.wf(),
    ensures
        spec_read_quoted(s, acc).1.wf(),
        spec_read_quoted(s, acc).1.unread() <= s.unread(),
    decreases s.rest.len(),
{
    lemma_find_from(s.line, '"', s.cursor);
    match find_from(s.line, '"', s.cursor) {
        Some(k) => {
            lemma_find_from(s.line, ';', k + 1);
        },
        None => {
            let whole = ParserState { cursor: s.line.len() as int, ..s };
            lemma_update_line_progress(whole);
            let (r, s1) = spec_update_line(s);
            if r is Data {
                lemma_find_from(s.rest, '\n', 0);
                lemma_read_quoted_progress(s1, acc + s.line.skip(s.cursor) + seq!['\n']);
            }
        },
    }
}

/// Reading a token keeps the state well-formed, and a token that was read
/// has used up at least one unread character.
pub proof fn lemma_read_token_progress(s: ParserState)
    requires
        s.wf(),
    ensures
        spec_read_token(s).1.wf(),
        spec_read_token(s).1.unread() <= s.unread(),
        spec_read_token(s).0 is Data ==> spec_read_token(s).1.unread() < s.unread(),
        spec_read_token(s).1.num_columns == s.num_columns,
{
    let (r, s1) = spec_check_line_buffer(s);
    if s.cursor == s.line.len() {
        lemma_update_line_progress(s);
    }
    if r is Data {
        if s1.cursor < s1.line.len() && s1.line[s1.cursor] == '"' {
            let s2 = ParserState { cursor: s1.cursor + 1, ..s1 };
            lemma_read_quoted_progress(s2, Seq::empty());
            lemma_read_quoted_columns(s2, Seq::empty());
        } else if s1.cursor < s1.line.len() && s1.line[s1.cursor] == ';' {
        } else {
            lemma_find_from(s1.line, ';', s1.cursor);
        }
    }
}

/// A quoted field leaves the column count alone.
pub proof fn lemma_read_quoted_columns(s: ParserState, acc: Seq<char>)
    ensures
        spec_read_quoted(s, acc).1.num_columns == s.num_columns,
    decreases s.rest.len(),
{
    if find_from(s.line, '"', s.cursor) is None {
        let (r, s1) = spec_update_line(s);
        if r is Data {
            lemma_find_from(s.rest, '\n', 0);
            lemma_read_quoted_columns(s1, acc + s.line.skip(s.cursor) + seq!['\n']);
        }
    }
}

/// Record reader, header: the values of the tokens up to and including the
/// first one that no further token follows, appended to `acc`. The count of
/// those values becomes the column count. If the text ends first, the header
/// is truncated.
pub open spec fn spec_read_header(s: ParserState, acc: Seq<Seq<char>>) -> (
    Result<Seq<Seq<char>>, RecordError>,
    ParserState,
)
    decreases s.unread(),
    when s.wf()
{
    let (r, s1) = spec_read_token(s);
    match r {
        ReaderResult::Eof => (Err(RecordError::UnexpectedEnd { line: s1.line_index }), s1),
        ReaderResult::Data(t) => {
            let fields = acc.push(t.value);
            if t.further_tokens {
                proof {
                    lemma_read_token_progress(s);
                }
                spec_read_header(s1, fields)
            } else {
                (Ok(fields), ParserState { num_columns: fields.len(), ..s1 })
            }
        },
    }
}

/// Record reader, data row: fills `buf` from position `i` on with one token
/// per column. The token of the last column must be the last of its record
/// and no other may be. The end of the text before the first column is the
/// clean end of the input; later it truncates the row.
pub open spec fn spec_read_record(s: ParserState, buf: Seq<Seq<char>>, i: int) -> (
    Result<ReaderResult<()>, RecordError>,
    ParserState,
    Seq<Seq<char>>,
)
    decreases buf.len() - i,
{
    if i < 0 || i >= buf.len() {
        (Ok(ReaderResult::Data(())), s, buf)
    } else {
        let (r, s1) = spec_read_token(s);
        match r {
            ReaderResult::Eof => if i == 0 {
                (Ok(ReaderResult::Eof), s1, buf)
            } else {
                (Err(RecordError::UnexpectedEnd { line: s1.line_index }), s1, buf)
            },
            ReaderResult::Data(t) => {
                let filled = buf.update(i, t.value);
                let is_last = i + 1 == s.num_columns;
                if t.further_tokens && is_last {
                    (
                        Err(
                            RecordError::ColumnCountMismatch {
                                line: s1.line_index,
                                kind: ColumnMismatch::TooMany,
                            },
                        ),
                        s1,
                        filled,
                    )
                } else if !t.further_tokens && !is_last {
                    (
                        Err(
                            RecordError::ColumnCountMismatch {
                                line: s1.line_index,
                                kind: ColumnMismatch::TooFew,
                            },
                        ),
                        s1,
                        filled,
                    )
                } else {
                    spec_read_record(s1, filled, i + 1)
                }
            },
        }
    }
}

/// Reading a row keeps the state well-formed, the column count and the
/// buffer's length, and a row that was read has used up unread characters.
pub proof fn lemma_read_record_progress(s: ParserState, buf: Seq<Seq<char>>, i: int)
    requires
        s.wf(),
        0 <= i <= buf.len(),
    ensures
        spec_read_record(s, buf, i).1.wf(),
        spec_read_record(s, buf, i).1.num_columns == s.num_columns,
        spec_read_record(s, buf, i).2.len() == buf.len(),
        spec_read_record(s, buf, i).1.unread() <= s.unread(),
        i < buf.len() && spec_read_record(s, buf, i).0 is Ok && spec_read_record(
            s,
            buf,
            i,
        ).0->Ok_0 is Data ==> spec_read_record(s, buf, i).1.unread() < s.unread(),
    decreases buf.len() - i,
{
    if i < buf.len() {
        lemma_read_token_progress(s);
        let (r, s1) = spec_read_token(s);
        if let ReaderResult::Data(t) = r {
            lemma_read_record_progress(s1, buf.update(i, t.value), i + 1);
        }
    }
}

/// Reading the header keeps the state well-formed. A header that was read
/// has at least one column, and its length is the new column count.
pub proof fn lemma_read_header_progress(s: ParserState, acc: Seq<Seq<char>>)
    requires
        s.wf(),
    ensures
        spec_read_header(s, acc).1.wf(),
        spec_read_header(s, acc).0 matches Ok(fields) ==> fields.len() > acc.len()
            && spec_read_header(s, acc).1.num_columns == fields.len(),
        spec_read_header(s, acc).0 is Err ==> spec_read_header(s, acc).1.num_columns
            == s.num_columns,
    decreases s.unread(),
{
    lemma_read_token_progress(s);
    let (r, s1) = spec_read_token(s);
    if let ReaderResult::Data(t) = r {
        if t.further_tokens {
            lemma_read_header_progress(s1, acc.push(t.value));
        }
    }
}

} // verus!
