//! Line buffer, tokenizer and record reader.

use crate::csv_model::{
    lemma_read_header_progress, lemma_read_record_progress, lemma_read_token_progress,
    next_line_index, ParserState, spec_check_line_buffer, spec_read_header, spec_read_quoted,
    spec_read_record, spec_read_token, spec_update_line,
};
use crate::error::{ColumnMismatch, RecordError};
use crate::text::{append_range, find_char, lemma_find_from, lemma_find_from_skip, to_chars};
use vstd::prelude::*;

verus! {

/// One decoded field.
#[derive(Clone, Debug)]
pub struct Token {
    /// The field's content, quotes removed.
    pub value: String,
    /// Whether another field follows in the same record.
    pub further_tokens: bool,
}

/// Mathematical value of a [`Token`].
pub struct TokenView {
    pub value: Seq<char>,
    pub further_tokens: bool,
}

impl View for Token {
    type V = TokenView;

    open spec fn view(&self) -> TokenView {
        TokenView { value: self.value@, further_tokens: self.further_tokens }
    }
}

/// Outcome of a read: a value, or the clean end of the input.
pub enum ReaderResult<T = ()> {
    /// The reader read more data.
    Data(T),
    /// The reader reached the end of the input.
    Eof,
}

impl<T> ReaderResult<T> {
    /// Borrows the payload, if there is one.
    pub fn get_data(&self) -> (r: Option<&T>)
        ensures
            r == match *self {
                ReaderResult::Data(d) => Some(&d),
                ReaderResult::Eof => None,
            },
    {
        match self {
            ReaderResult::Data(d) => Some(d),
            ReaderResult::Eof => None,
        }
    }
}

impl<T: View> View for ReaderResult<T> {
    type V = ReaderResult<T::V>;

    open spec fn view(&self) -> ReaderResult<T::V> {
        match *self {
            ReaderResult::Data(d) => ReaderResult::Data(d@),
            ReaderResult::Eof => ReaderResult::Eof,
        }
    }
}

/// The character sequences that a sequence of strings stands for.
pub open spec fn views(strings: Seq<String>) -> Seq<Seq<char>> {
    strings.map_values(|s: String| s@)
}

/// `views` goes through `push`.
pub proof fn lemma_views_push(strings: Seq<String>, last: String)
    ensures
        views(strings.push(last)) == views(strings).push(last@),
{
}

/// A sequential reader of semicolon-separated records over one text.
pub struct CSVParser {
    /// The whole text.
    input: Vec<char>,
    /// Where in `input` the next physical line starts.
    input_pos: usize,
    /// The number of columns; 0 until the header has been read.
    num_columns: usize,
    /// The characters of the current line.
    cur_line: Vec<char>,
    /// The cursor position in the current line.
    cur_line_cursor: usize,
    /// How many lines have been asked for.
    line_index: usize,
}

impl View for CSVParser {
    type V = ParserState;

    closed spec fn view(&self) -> ParserState {
        ParserState {
            line: self.cur_line@,
            cursor: self.cur_line_cursor as int,
            rest: self.input@.skip(self.input_pos as int),
            line_index: self.line_index,
            num_columns: self.num_columns as nat,
        }
    }
}

impl CSVParser {
    /// The representation invariant.
    pub closed spec fn wf(&self) -> bool {
        &&& self.input_pos <= self.input.len()
        &&& self.cur_line_cursor <= self.cur_line.len()
    }

    /// A well-formed parser has a well-formed state.
    pub proof fn lemma_wf(&self)
        requires
            self.wf(),
        ensures
            self@.wf(),
    {
    }

    /// Creates a parser that stands before the first line of `input`.
    pub fn new(input: &str) -> (parser: CSVParser)
        ensures
            parser.wf(),
            parser@ == ParserState::start(input@),
    {
        let parser = CSVParser {
            input: to_chars(input),
            input_pos: 0,
            num_columns: 0,
            cur_line: Vec::new(),
            cur_line_cursor: 0,
            line_index: 0,
        };
        assert(parser.input@.skip(0) == input@);
        parser
    }

    /// Reads the next physical line into the buffer.
    fn update_line(&mut self) -> (r: ReaderResult<()>)
        requires
            old(self).wf(),
        ensures
            final(self).wf(),
            (r, final(self)@) == spec_update_line(old(self)@),
    {
        if self.line_index < usize::MAX {
            self.line_index += 1;
        }
        self.cur_line.clear();
        self.cur_line_cursor = 0;
        let len = self.input.len();
        let start = self.input_pos;
        if start == len {
            return ReaderResult::Eof;
        }
        proof {
            lemma_find_from_skip(self.input@, '\n', start as int, 0);
        }
        let found = find_char(&self.input, start, '\n');
        let end = match found {
            Some(k) => k,
            None => len,
        };
        proof {
            lemma_find_from(self.input@, '\n', start as int);
        }
        let mut i: usize = start;
        while i < end
            invariant
                start <= i <= end <= self.input.len(),
                self.cur_line@ == self.input@.subrange(start as int, i as int),
                self.input == old(self).input,
                self.input_pos == start,
                self.num_columns == old(self).num_columns,
                self.line_index == next_line_index(old(self).line_index),
                self.cur_line_cursor == 0,
            decreases end - i,
        {
            self.cur_line.push(self.input[i]);
            i += 1;
        }
        self.input_pos = if end < len {
            end + 1
        } else {
            len
        };
        proof {
            let rest = old(self)@.rest;
            match found {
                Some(k) => {
                    assert(self.cur_line@ == rest.take(k - start));
                    assert(self.input@.skip(self.input_pos as int) == rest.skip(k - start + 1));
                },
                None => {
                    assert(self.input@.skip(self.input_pos as int) == Seq::<char>::empty());
                },
            }
        }
        ReaderResult::Data(())
    }

    /// Reads a quoted field whose opening quote the cursor has passed.
    fn read_quoted(&mut self) -> (r: ReaderResult<Token>)
        requires
            old(self).wf(),
        ensures
            final(self).wf(),
            (r@, final(self)@) == spec_read_quoted(old(self)@, Seq::empty()),
    {
        let mut value = String::new();
        loop
            invariant
                self.wf(),
                spec_read_quoted(self@, value@) == spec_read_quoted(old(self)@, Seq::empty()),
            decreases self@.rest.len(),
        {
            let from = self.cur_line_cursor;
            let len = self.cur_line.len();
            let ghost before = self@;
            let ghost acc = value@;
            match find_char(&self.cur_line, from, '"') {
                Some(k) => {
                    append_range(&mut value, &self.cur_line, from, k);
                    let further_tokens = match find_char(&self.cur_line, k + 1, ';') {
                        Some(j) => {
                            self.cur_line_cursor = j + 1;
                            true
                        },
                        None => {
                            self.cur_line_cursor = len;
                            false
                        },
                    };
                    return ReaderResult::Data(Token { value, further_tokens });
                },
                None => {
                    append_range(&mut value, &self.cur_line, from, len);
                    value.push('\n');
                    assert(value@ == acc + before.line.skip(before.cursor) + seq!['\n']);
                    proof {
                        lemma_find_from(before.rest, '\n', 0);
                    }
                    match self.update_line() {
                        ReaderResult::Eof => {
                            return ReaderResult::Eof;
                        },
                        ReaderResult::Data(_) => {},
                    }
                },
            }
        }
    }

    /// Reads the next field.
    pub fn read_token(&mut self) -> (r: ReaderResult<Token>)
        requires
            old(self).wf(),
        ensures
            final(self).wf(),
            (r@, final(self)@) == spec_read_token(old(self)@),
            final(self)@.wf(),
            final(self)@.num_columns == old(self)@.num_columns,
    {
        proof {
            self.lemma_wf();
            lemma_read_token_progress(self@);
        }
        match self.check_line_buffer() {
            ReaderResult::Eof => {
                return ReaderResult::Eof;
            },
            ReaderResult::Data(_) => {},
        }
        let start = self.cur_line_cursor;
        let len = self.cur_line.len();
        if start < len && self.cur_line[start] == '"' {
            self.cur_line_cursor = start + 1;
            return self.read_quoted();
        }
        if start < len && self.cur_line[start] == ';' {
            self.cur_line_cursor = start + 1;
            return ReaderResult::Data(
                Token { value: String::new(), further_tokens: start + 1 < len },
            );
        }
        let mut value = String::new();
        match find_char(&self.cur_line, start, ';') {
            Some(k) => {
                append_range(&mut value, &self.cur_line, start, k);
                self.cur_line_cursor = k + 1;
                ReaderResult::Data(Token { value, further_tokens: true })
            },
            None => {
                append_range(&mut value, &self.cur_line, start, len);
                self.cur_line_cursor = len;
                ReaderResult::Data(Token { value, further_tokens: false })
            },
        }
    }

    /// Reads the header record and fixes the column count.
    #[verifier::loop_isolation(false)]
    pub fn read_header_record(&mut self) -> (r: Result<Vec<String>, RecordError>)
        requires
            old(self).wf(),
            old(self)@.num_columns == 0,
        ensures
            final(self).wf(),
            final(self)@ == spec_read_header(old(self)@, Seq::empty()).1,
            match spec_read_header(old(self)@, Seq::empty()).0 {
                Ok(fields) => r is Ok && views(r->Ok_0@) == fields,
                Err(e) => r == Err::<Vec<String>, RecordError>(e),
            },
            final(self)@.wf(),
            match r {
                Ok(header) => header.len() > 0 && final(self)@.num_columns == header.len(),
                Err(_) => final(self)@.num_columns == 0,
            },
    {
        proof {
            self.lemma_wf();
            lemma_read_header_progress(self@, Seq::empty());
        }
        let mut result: Vec<String> = Vec::new();
        assert(views(result@) == Seq::<Seq<char>>::empty());
        loop
            invariant
                self.wf(),
                spec_read_header(self@, views(result@)) == spec_read_header(
                    old(self)@,
                    Seq::empty(),
                ),
            decreases self@.unread(),
        {
            proof {
                self.lemma_wf();
                lemma_read_token_progress(self@);
            }
            let ghost fields = views(result@);
            match self.read_token() {
                ReaderResult::Data(token) => {
                    let further_tokens = token.further_tokens;
                    result.push(token.value);
                    assert(views(result@) == fields.push(token.value@));
                    if !further_tokens {
                        self.num_columns = result.len();
                        return Ok(result);
                    }
                },
                ReaderResult::Eof => {
                    return Err(RecordError::UnexpectedEnd { line: self.line_index });
                },
            }
        }
    }

    /// Reads one data row into `record`, one column per element.
    #[verifier::loop_isolation(false)]
    pub fn read_record(&mut self, record: &mut [String]) -> (r: Result<
        ReaderResult<()>,
        RecordError,
    >)
        requires
            old(self).wf(),
            old(self)@.num_columns > 0,
            old(record)@.len() == old(self)@.num_columns,
        ensures
            final(self).wf(),
            (r, final(self)@, views(final(record)@)) == spec_read_record(
                old(self)@,
                views(old(record)@),
                0,
            ),
            final(self)@.wf(),
            final(self)@.num_columns == old(self)@.num_columns,
            final(record)@.len() == old(record)@.len(),
    {
        proof {
            self.lemma_wf();
            lemma_read_record_progress(self@, views(record@), 0);
        }
        let mut index: usize = 0;
        while index < record.len()
            invariant
                self.wf(),
                index <= record@.len(),
                record@.len() == old(record)@.len(),
                spec_read_record(self@, views(record@), index as int) == spec_read_record(
                    old(self)@,
                    views(old(record)@),
                    0,
                ),
            decreases record@.len() - index,
        {
            let ghost buf = views(record@);
            proof {
                lemma_read_token_progress(self@);
            }
            match self.read_token() {
                ReaderResult::Data(t) => {
                    let further_tokens = t.further_tokens;
                    record[index] = t.value;
                    assert(views(record@) == buf.update(index as int, t.value@));
                    let is_last = index + 1 == self.num_columns;
                    if further_tokens && is_last {
                        return Err(
                            RecordError::ColumnCountMismatch {
                                line: self.line_index,
                                kind: ColumnMismatch::TooMany,
                            },
                        );
                    } else if !further_tokens && !is_last {
                        return Err(
                            RecordError::ColumnCountMismatch {
                                line: self.line_index,
                                kind: ColumnMismatch::TooFew,
                            },
                        );
                    }
                },
                ReaderResult::Eof => {
                    if index == 0 {
                        return Ok(ReaderResult::Eof);
                    } else {
                        return Err(RecordError::UnexpectedEnd { line: self.line_index });
                    }
                },
            }
            index += 1;
        }
        Ok(ReaderResult::Data(()))
    }

    /// Makes sure that the buffer holds unread characters, if any are left.
    fn check_line_buffer(&mut self) -> (r: ReaderResult<()>)
        requires
            old(self).wf(),
        ensures
            final(self).wf(),
            (r, final(self)@) == spec_check_line_buffer(old(self)@),
    {
        if self.cur_line.len() == self.cur_line_cursor {
            self.update_line()
        } else {
            ReaderResult::Data(())
        }
    }
}

} // verus!
