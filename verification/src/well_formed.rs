//! Well-formed records, and what the tokenizer reads from their text.

use crate::csv_model::{
    ParserState, spec_check_line_buffer, spec_read_header, spec_read_quoted, spec_read_record,
    spec_read_token, spec_read_unquoted, spec_update_line,
};
use crate::csv_parser::{ReaderResult, TokenView};
use crate::error::RecordError;
use crate::record_laws::{
    after_tokens, is_field, law_header_is_fields_up_to_the_last,
    law_record_is_fields_up_to_the_last, lemma_read_record_from, nth_token, token_values,
};
use crate::text::{find_from, lemma_find_from, lemma_find_from_is, lemma_find_from_none};
use vstd::prelude::*;

verus! {

/// A field as it stands in a text: its content, and whether it is written
/// between quotes.
pub struct Field {
    pub text: Seq<char>,
    pub quoted: bool,
}

/// `text` holds no line break.
pub open spec fn no_newline(text: Seq<char>) -> bool {
    forall|i: int| 0 <= i < text.len() ==> text[i] != '\n'
}

/// The content of a field can be written as the field says: between quotes
/// anything but a quote; without quotes neither a semicolon nor a line
/// break, and no quote in the first place.
pub open spec fn field_ok(f: Field) -> bool {
    if f.quoted {
        forall|i: int| 0 <= i < f.text.len() ==> f.text[i] != '"'
    } else {
        &&& forall|i: int| 0 <= i < f.text.len() ==> f.text[i] != ';' && f.text[i] != '\n'
        &&& f.text.len() > 0 ==> f.text[0] != '"'
    }
}

/// A record can be written as one: it has a field, each field can be
/// written, and where it has several fields, the last one is not an empty
/// field without quotes.
pub open spec fn record_ok(r: Seq<Field>) -> bool {
    &&& r.len() > 0
    &&& forall|i: int| 0 <= i < r.len() ==> field_ok(#[trigger] r[i])
    &&& r.len() > 1 ==> r.last().quoted || r.last().text.len() > 0
}

/// A field in writing.
pub open spec fn field_text(f: Field) -> Seq<char> {
    if f.quoted {
        seq!['"'] + f.text + seq!['"']
    } else {
        f.text
    }
}

/// The fields of a record from `from` on in writing: a semicolon behind
/// each field but the last, a line break behind the last.
pub open spec fn record_text(r: Seq<Field>, from: int) -> Seq<char>
    decreases r.len() - from,
{
    if from < 0 || from >= r.len() {
        Seq::empty()
    } else if from == r.len() - 1 {
        field_text(r[from]) + seq!['\n']
    } else {
        field_text(r[from]) + seq![';'] + record_text(r, from + 1)
    }
}

impl ParserState {
    /// The text that the parser has before it: the rest of the line in the
    /// buffer with its line break, then the later lines; or the later lines
    /// alone where the line in the buffer is used up.
    pub open spec fn pending(self) -> Seq<char> {
        if self.cursor == self.line.len() {
            self.rest
        } else {
            self.line.skip(self.cursor) + seq!['\n'] + self.rest
        }
    }
}

/// Where a line, its line break and what follows begin with a text without
/// line break, the text lies within the line, and the rest of the line, the
/// line break and what follows are what follows the text.
pub proof fn lemma_prefix_in_line(
    line: Seq<char>,
    rest: Seq<char>,
    front: Seq<char>,
    back: Seq<char>,
)
    requires
        no_newline(front),
        line + seq!['\n'] + rest == front + back,
    ensures
        front.len() <= line.len(),
        line.take(front.len() as int) == front,
        line.skip(front.len() as int) + seq!['\n'] + rest == back,
{
    let whole = line + seq!['\n'] + rest;
    if front.len() > line.len() {
        assert((front + back)[line.len() as int] == front[line.len() as int]);
    }
    assert forall|i: int| 0 <= i < front.len() implies line[i] == front[i] by {
        assert((front + back)[i] == front[i]);
    }
    let tail = line.skip(front.len() as int) + seq!['\n'] + rest;
    assert(tail.len() == back.len()) by {
        assert(whole.len() == (front + back).len());
    }
    assert forall|i: int| 0 <= i < tail.len() implies tail[i] == back[i] by {
        if i < line.len() - front.len() {
            assert(whole[front.len() + i] == line[front.len() + i]);
        } else if i == line.len() - front.len() {
            assert(whole[front.len() + i] == '\n');
        } else {
            assert(whole[front.len() + i] == rest[front.len() + i - line.len() - 1]);
        }
    }
}

/// Where a line without line break, its line break and what follows are a
/// text without line break, a line break and more, the line is the text and
/// what follows is the same on both sides.
pub proof fn lemma_same_line(line: Seq<char>, rest: Seq<char>, front: Seq<char>, back: Seq<char>)
    requires
        no_newline(line),
        no_newline(front),
        line + seq!['\n'] + rest == front + seq!['\n'] + back,
    ensures
        line == front,
        rest == back,
{
    assert(front + seq!['\n'] + back == front + (seq!['\n'] + back));
    lemma_prefix_in_line(line, rest, front, seq!['\n'] + back);
    let after = line.skip(front.len() as int) + seq!['\n'] + rest;
    if front.len() < line.len() {
        assert((seq!['\n'] + back)[0] == '\n');
    }
    assert(after == seq!['\n'] + rest);
    assert(back == (seq!['\n'] + back).skip(1));
}

/// Where the text that the parser has before it holds a line break, the
/// line buffer has a line to offer: a line without line break, which with
/// its line break and the later lines is the text that the parser had
/// before it.
pub proof fn lemma_line_at_hand(s: ParserState)
    requires
        s.wf(),
        s.cursor < s.line.len() ==> no_newline(s.line),
        s.cursor == s.line.len() ==> find_from(s.rest, '\n', 0) is Some,
    ensures
        ({
            let s1 = spec_check_line_buffer(s).1;
            &&& spec_check_line_buffer(s).0 is Data
            &&& s1.wf()
            &&& no_newline(s1.line)
            &&& s1.line.skip(s1.cursor) + seq!['\n'] + s1.rest == s.pending()
            &&& s1.num_columns == s.num_columns
        }),
{
    if s.cursor == s.line.len() {
        lemma_find_from(s.rest, '\n', 0);
        let k = find_from(s.rest, '\n', 0)->Some_0;
        let s1 = spec_update_line(s).1;
        assert(s1.line == s.rest.take(k));
    }
}

/// What stands behind a field: a line break behind the last field of a
/// record, a semicolon behind any other.
pub open spec fn separator(last: bool) -> Seq<char> {
    if last {
        seq!['\n']
    } else {
        seq![';']
    }
}

/// What may follow a field in a well-formed text: behind the last field of
/// a record anything; behind any other field a text that holds a line break
/// and does not begin with one.
pub open spec fn follows(last: bool, tail: Seq<char>) -> bool {
    !last ==> tail.len() > 0 && tail[0] != '\n' && find_from(tail, '\n', 0) is Some
}

/// Where the parser is left behind a field of a well-formed text: still
/// well-formed, with a line in the buffer that holds no line break, with
/// `tail` before it, and with the line used up exactly behind the last
/// field of a record.
pub open spec fn stands_before(
    s: ParserState,
    before: ParserState,
    last: bool,
    tail: Seq<char>,
) -> bool {
    &&& s.wf()
    &&& no_newline(s.line)
    &&& s.pending() == tail
    &&& last <==> s.cursor == s.line.len()
    &&& s.num_columns == before.num_columns
}

/// A text with a line break in it is one in which `find_from` finds it.
pub proof fn lemma_has_newline(text: Seq<char>, at: int)
    requires
        0 <= at < text.len(),
        text[at] == '\n',
    ensures
        find_from(text, '\n', 0) is Some,
{
    lemma_find_from(text, '\n', 0);
}

/// The body of a quoted field: with the cursor behind the opening quote
/// and the content, the closing quote, the separator and `tail` before the
/// parser, the tokenizer gives the content, appended to `acc`.
pub proof fn lemma_quoted_body(
    s: ParserState,
    acc: Seq<char>,
    content: Seq<char>,
    last: bool,
    tail: Seq<char>,
)
    requires
        s.wf(),
        no_newline(s.line),
        s.line.skip(s.cursor) + seq!['\n'] + s.rest == content + seq!['"'] + separator(last)
            + tail,
        forall|i: int| 0 <= i < content.len() ==> content[i] != '"',
        follows(last, tail),
    ensures
        spec_read_quoted(s, acc).0 == ReaderResult::Data(
            TokenView { value: acc + content, further_tokens: !last },
        ),
        stands_before(spec_read_quoted(s, acc).1, s, last, tail),
    decreases content.len(),
{
    let here = s.line.skip(s.cursor);
    let whole = content + seq!['"'] + separator(last) + tail;
    let n = content.len() as int;
    match find_from(content, '\n', 0) {
        None => {
            lemma_find_from(content, '\n', 0);
            let front = content + seq!['"'];
            assert(whole == front + (separator(last) + tail));
            lemma_prefix_in_line(here, s.rest, front, separator(last) + tail);
            let k = s.cursor + n;
            assert(here[n] == front[n]);
            assert forall|i: int| s.cursor <= i < k implies s.line[i] != '"' by {
                assert(here[i - s.cursor] == front[i - s.cursor]);
            }
            lemma_find_from_is(s.line, '"', s.cursor, k);
            assert(s.line.subrange(s.cursor, k) == content) by {
                assert forall|i: int| 0 <= i < n implies s.line.subrange(s.cursor, k)[i]
                    == content[i] by {
                    assert(here[i] == front[i]);
                }
            }
            let after = here.skip(n + 1);
            if last {
                assert(no_newline(after)) by {
                    assert forall|i: int| 0 <= i < after.len() implies after[i] != '\n' by {
                        assert(after[i] == s.line[k + 1 + i]);
                    }
                }
                lemma_same_line(after, s.rest, Seq::empty(), tail);
                lemma_find_from_none(s.line, ';', k + 1);
            } else {
                lemma_prefix_in_line(after, s.rest, seq![';'], tail);
                assert(after.take(1)[0] == ';');
                lemma_find_from_is(s.line, ';', k + 1, k + 1);
                let behind = after.skip(1);
                assert(behind == s.line.skip(k + 2));
                if behind.len() == 0 {
                    assert((behind + seq!['\n'] + s.rest)[0] == '\n');
                }
            }
        },
        Some(p) => {
            lemma_find_from(content, '\n', 0);
            let first = content.take(p);
            let more = content.skip(p + 1);
            let m = more.len() as int;
            let back = more + seq!['"'] + separator(last) + tail;
            assert(whole == first + seq!['\n'] + back) by {
                assert(content == first + seq!['\n'] + more);
            }
            assert(no_newline(here)) by {
                assert forall|i: int| 0 <= i < here.len() implies here[i] != '\n' by {
                    assert(here[i] == s.line[s.cursor + i]);
                }
            }
            lemma_same_line(here, s.rest, first, back);
            assert forall|i: int| s.cursor <= i < s.line.len() implies s.line[i] != '"' by {
                assert(first[i - s.cursor] == content[i - s.cursor]);
            }
            lemma_find_from_none(s.line, '"', s.cursor);
            if last {
                lemma_has_newline(back, m + 1);
            } else {
                lemma_find_from(tail, '\n', 0);
                let j = find_from(tail, '\n', 0)->Some_0;
                lemma_has_newline(back, m + 2 + j);
            }
            let used = ParserState { cursor: s.line.len() as int, ..s };
            lemma_line_at_hand(used);
            let s1 = spec_update_line(s).1;
            let grown = acc + s.line.skip(s.cursor) + seq!['\n'];
            lemma_quoted_body(s1, grown, more, last, tail);
            assert(grown + more == acc + content);
        },
    }
}

/// One field of a well-formed text: with the field in writing, the
/// separator and `tail` before the parser, the tokenizer gives the field's
/// content, says whether a further field follows, and leaves the parser
/// before `tail`.
pub proof fn lemma_field(s: ParserState, f: Field, last: bool, tail: Seq<char>)
    requires
        s.wf(),
        s.cursor < s.line.len() ==> no_newline(s.line),
        s.pending() == field_text(f) + separator(last) + tail,
        field_ok(f),
        follows(last, tail),
    ensures
        spec_read_token(s).0 == ReaderResult::Data(
            TokenView { value: f.text, further_tokens: !last },
        ),
        stands_before(spec_read_token(s).1, s, last, tail),
{
    let whole = field_text(f) + separator(last) + tail;
    let w = field_text(f).len() as int;
    if s.cursor == s.line.len() {
        if last {
            lemma_has_newline(whole, w);
        } else {
            lemma_find_from(tail, '\n', 0);
            let j = find_from(tail, '\n', 0)->Some_0;
            lemma_has_newline(whole, w + 1 + j);
        }
    }
    lemma_line_at_hand(s);
    let s1 = spec_check_line_buffer(s).1;
    let here = s1.line.skip(s1.cursor);
    let n = f.text.len() as int;
    assert(no_newline(here)) by {
        assert forall|i: int| 0 <= i < here.len() implies here[i] != '\n' by {
            assert(here[i] == s1.line[s1.cursor + i]);
        }
    }
    if f.quoted {
        let back = f.text + seq!['"'] + separator(last) + tail;
        assert(whole == seq!['"'] + back);
        lemma_prefix_in_line(here, s1.rest, seq!['"'], back);
        let s2 = ParserState { cursor: s1.cursor + 1, ..s1 };
        assert(s2.line.skip(s2.cursor) == here.skip(1));
        lemma_quoted_body(s2, Seq::empty(), f.text, last, tail);
    } else if last {
        lemma_same_line(here, s1.rest, f.text, tail);
        if n > 0 {
            assert(s1.line[s1.cursor] == here[0]);
        }
        assert forall|i: int| s1.cursor <= i < s1.line.len() implies s1.line[i] != ';' by {
            assert(s1.line[i] == here[i - s1.cursor]);
        }
        lemma_find_from_none(s1.line, ';', s1.cursor);
    } else {
        let front = f.text + seq![';'];
        assert(whole == front + tail);
        lemma_prefix_in_line(here, s1.rest, front, tail);
        let k = s1.cursor + n;
        assert(here[n] == front[n]);
        let behind = here.skip(n + 1);
        assert(behind == s1.line.skip(k + 1));
        if behind.len() == 0 {
            assert((behind + seq!['\n'] + s1.rest)[0] == '\n');
        }
        if n == 0 {
            assert(f.text == Seq::<char>::empty());
            assert(s1.line[s1.cursor] == ';');
        }
        if n > 0 {
            assert forall|i: int| s1.cursor <= i < k implies s1.line[i] != ';' by {
                assert(here[i - s1.cursor] == front[i - s1.cursor]);
            }
            lemma_find_from_is(s1.line, ';', s1.cursor, k);
            assert(s1.line.subrange(s1.cursor, k) == f.text) by {
                assert forall|i: int| 0 <= i < n implies s1.line.subrange(s1.cursor, k)[i]
                    == f.text[i] by {
                    assert(here[i] == front[i]);
                }
            }
        }
    }
}

/// The text of a well-formed record from one of its fields on holds a line
/// break, and it begins with one only where the record is a single empty
/// field without quotes.
pub proof fn lemma_record_text(r: Seq<Field>, from: int)
    requires
        record_ok(r),
        0 <= from < r.len(),
    ensures
        record_text(r, from).len() > 0,
        find_from(record_text(r, from), '\n', 0) is Some,
        r.len() > 1 ==> record_text(r, from)[0] != '\n',
    decreases r.len() - from,
{
    let f = r[from];
    let written = field_text(f);
    let w = written.len() as int;
    let whole = record_text(r, from);
    if from == r.len() - 1 {
        lemma_has_newline(whole, w);
        if r.len() > 1 {
            assert(whole[0] == written[0]);
        }
    } else {
        lemma_record_text(r, from + 1);
        let more = record_text(r, from + 1);
        lemma_find_from(more, '\n', 0);
        let j = find_from(more, '\n', 0)->Some_0;
        lemma_has_newline(whole, w + 1 + j);
        if w > 0 {
            assert(whole[0] == written[0]);
        } else {
            assert(whole[0] == ';');
        }
    }
}

/// The fields of a well-formed record from `from` on: with their text and
/// `rest` before the parser, the tokenizer gives the content of one field
/// after the other, each with a further field behind it but the last, and
/// leaves the parser before `rest` with its line used up.
pub proof fn lemma_fields_from(s: ParserState, r: Seq<Field>, from: int, rest: Seq<char>)
    requires
        s.wf(),
        s.cursor < s.line.len() ==> no_newline(s.line),
        record_ok(r),
        0 <= from < r.len(),
        s.pending() == record_text(r, from) + rest,
    ensures
        forall|j: nat|
            j < r.len() - from ==> #[trigger] nth_token(s, j) == ReaderResult::Data(
                TokenView { value: r[from + j].text, further_tokens: from + j + 1 < r.len() },
            ),
        stands_before(after_tokens(s, (r.len() - from) as nat), s, true, rest),
    decreases r.len() - from,
{
    let f = r[from];
    let last = from == r.len() - 1;
    let tail = if last {
        rest
    } else {
        record_text(r, from + 1) + rest
    };
    assert(s.pending() == field_text(f) + separator(last) + tail);
    if !last {
        lemma_record_text(r, from + 1);
        let more = record_text(r, from + 1);
        lemma_find_from(more, '\n', 0);
        let j = find_from(more, '\n', 0)->Some_0;
        lemma_has_newline(tail, j);
    }
    lemma_field(s, f, last, tail);
    let s1 = spec_read_token(s).1;
    assert(after_tokens(s, 1) == after_tokens(s1, 0));
    if !last {
        lemma_fields_from(s1, r, from + 1, rest);
        let m = (r.len() - from - 1) as nat;
        assert(after_tokens(s, m + 1) == after_tokens(s1, m));
        assert forall|j: nat| j < r.len() - from implies #[trigger] nth_token(s, j)
            == ReaderResult::Data(
            TokenView { value: r[from + j].text, further_tokens: from + j + 1 < r.len() },
        ) by {
            if j > 0 {
                let j1 = (j - 1) as nat;
                assert(nth_token(s1, j1) == ReaderResult::Data(
                    TokenView {
                        value: r[from + 1 + j1].text,
                        further_tokens: from + 1 + j1 + 1 < r.len(),
                    },
                ));
            }
        }
    }
}

/// The contents of the fields of a record.
pub open spec fn contents(r: Seq<Field>) -> Seq<Seq<char>> {
    Seq::new(r.len(), |i: int| r[i].text)
}

/// The parser stands between two records: the line in its buffer is used up.
pub open spec fn at_record_start(s: ParserState) -> bool {
    s.wf() && s.cursor == s.line.len()
}

/// From the text of a well-formed record the tokenizer reads the record's
/// fields: one token for each field, in their order, with the field's
/// content as its value; `further_tokens` is true for every field except
/// the last field of the record, and false on the last. The parser is left
/// between two records, before the text that followed the record.
pub proof fn law_tokens_of_a_well_formed_record(s: ParserState, r: Seq<Field>, rest: Seq<char>)
    requires
        at_record_start(s),
        record_ok(r),
        s.rest == record_text(r, 0) + rest,
    ensures
        forall|j: nat|
            j < r.len() ==> #[trigger] nth_token(s, j) == ReaderResult::Data(
                TokenView { value: r[j as int].text, further_tokens: j + 1 < r.len() },
            ),
        at_record_start(after_tokens(s, r.len())),
        after_tokens(s, r.len()).rest == rest,
        after_tokens(s, r.len()).num_columns == s.num_columns,
{
    lemma_fields_from(s, r, 0, rest);
}

/// A text that begins with a well-formed record has that record for its
/// header: the header's columns are the contents of the record's fields,
/// their number is the column count, and the parser is left between two
/// records, before the text that followed the record.
pub proof fn law_header_of_a_well_formed_text(s: ParserState, r: Seq<Field>, rest: Seq<char>)
    requires
        at_record_start(s),
        record_ok(r),
        s.rest == record_text(r, 0) + rest,
    ensures
        spec_read_header(s, Seq::empty()).0 == Ok::<Seq<Seq<char>>, RecordError>(contents(r)),
        at_record_start(spec_read_header(s, Seq::empty()).1),
        spec_read_header(s, Seq::empty()).1.rest == rest,
        spec_read_header(s, Seq::empty()).1.num_columns == r.len(),
{
    law_tokens_of_a_well_formed_record(s, r, rest);
    let n = (r.len() - 1) as nat;
    assert forall|j: nat| j < n implies is_field(s, j, false) by {
        assert(nth_token(s, j) is Data);
    }
    law_header_is_fields_up_to_the_last(s, Seq::empty(), n);
    let fields = Seq::<Seq<char>>::empty() + token_values(s, n + 1);
    assert(fields == contents(r)) by {
        assert forall|j: int| 0 <= j < r.len() implies fields[j] == contents(r)[j] by {
            assert(nth_token(s, j as nat) is Data);
        }
    }
}

/// A row that is a well-formed record of as many fields as the header has
/// columns is read in full: the buffer then holds the contents of the
/// record's fields, and the parser is left between two records, before the
/// text that followed the record.
pub proof fn law_row_of_a_well_formed_text(
    s: ParserState,
    r: Seq<Field>,
    rest: Seq<char>,
    buf: Seq<Seq<char>>,
)
    requires
        at_record_start(s),
        record_ok(r),
        s.rest == record_text(r, 0) + rest,
        r.len() == s.num_columns,
        buf.len() == s.num_columns,
    ensures
        spec_read_record(s, buf, 0).0 == Ok::<ReaderResult<()>, RecordError>(
            ReaderResult::Data(()),
        ),
        at_record_start(spec_read_record(s, buf, 0).1),
        spec_read_record(s, buf, 0).1.rest == rest,
        spec_read_record(s, buf, 0).1.num_columns == s.num_columns,
        spec_read_record(s, buf, 0).2 == contents(r),
{
    law_tokens_of_a_well_formed_record(s, r, rest);
    law_record_is_fields_up_to_the_last(s, buf);
    lemma_read_record_from(s, buf, 0);
    let out = spec_read_record(s, buf, 0);
    assert forall|j: nat| j < buf.len() implies (#[trigger] nth_token(s, j)) is Data && nth_token(
        s,
        j,
    )->Data_0.further_tokens == (j + 1 < buf.len()) by {
        assert(nth_token(s, j) == ReaderResult::Data(
            TokenView { value: r[j as int].text, further_tokens: j + 1 < r.len() },
        ));
    }
    assert(out.2 == contents(r)) by {
        assert forall|j: int| 0 <= j < r.len() implies out.2[j] == contents(r)[j] by {
            assert(out.2[j] == nth_token(s, j as nat)->Data_0.value);
        }
    }
}

/// Where the parser stands between two records and no text is left, the
/// row reader reports the clean end of the input.
pub proof fn law_end_of_a_well_formed_text(s: ParserState, buf: Seq<Seq<char>>)
    requires
        at_record_start(s),
        s.rest.len() == 0,
        s.num_columns > 0,
        buf.len() == s.num_columns,
    ensures
        spec_read_record(s, buf, 0).0 == Ok::<ReaderResult<()>, RecordError>(ReaderResult::Eof),
{
}

} // verus!
