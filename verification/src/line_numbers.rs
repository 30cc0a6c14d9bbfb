//! The line counter counts physical lines.

use crate::csv_model::{
    ParserState, spec_check_line_buffer, spec_read_quoted, spec_read_token, spec_update_line,
};
use crate::record_laws::{after_tokens, nth_token};
use crate::text::{find_from, lemma_find_from};
use vstd::prelude::*;

verus! {

/// The number of line breaks in `text`.
pub open spec fn count_breaks(text: Seq<char>) -> nat
    decreases text.len(),
{
    if text.len() == 0 {
        0
    } else if text.last() == '\n' {
        count_breaks(text.drop_last()) + 1
    } else {
        count_breaks(text.drop_last())
    }
}

/// The number of physical lines of `text`: one for each line break, and one
/// more for a last line that lacks its line break.
pub open spec fn lines_in(text: Seq<char>) -> nat {
    if text.len() > 0 && text.last() != '\n' {
        count_breaks(text) + 1
    } else {
        count_breaks(text)
    }
}

/// The part of `text` that lines have been taken from, where the state
/// still has `s.rest` to take lines from.
pub open spec fn taken(text: Seq<char>, s: ParserState) -> Seq<char> {
    text.take(text.len() - s.rest.len())
}

/// The state `s` of a parser over `text` keeps count: what it has left to
/// take lines from is the end of `text`, all lines before that are taken
/// whole, and their number is the line counter.
pub open spec fn keeps_count(text: Seq<char>, s: ParserState) -> bool {
    &&& s.rest.len() <= text.len()
    &&& s.rest == text.skip(text.len() - s.rest.len())
    &&& s.rest.len() > 0 ==> taken(text, s).len() == 0 || taken(text, s).last() == '\n'
    &&& s.line_index == lines_in(taken(text, s))
}

/// Line breaks add up over two texts, one behind the other.
pub proof fn lemma_count_breaks_add(a: Seq<char>, b: Seq<char>)
    ensures
        count_breaks(a + b) == count_breaks(a) + count_breaks(b),
    decreases b.len(),
{
    if b.len() == 0 {
        assert(a + b == a);
    } else {
        assert((a + b).drop_last() == a + b.drop_last());
        lemma_count_breaks_add(a, b.drop_last());
    }
}

/// A text without line break counts none.
pub proof fn lemma_count_breaks_none(a: Seq<char>)
    requires
        forall|i: int| 0 <= i < a.len() ==> a[i] != '\n',
    ensures
        count_breaks(a) == 0,
    decreases a.len(),
{
    if a.len() > 0 {
        lemma_count_breaks_none(a.drop_last());
    }
}

/// The beginning of a text has no more lines than the text.
pub proof fn lemma_lines_in_grow(text: Seq<char>, n: int)
    requires
        0 <= n <= text.len(),
    ensures
        lines_in(text.take(n)) <= lines_in(text),
{
    let front = text.take(n);
    let back = text.skip(n);
    assert(text == front + back);
    lemma_count_breaks_add(front, back);
    if n < text.len() {
        if text.last() == '\n' {
            assert(count_breaks(back) >= 1);
        }
    } else {
        assert(front == text);
    }
}

/// A line that the line buffer takes off the text is counted.
pub proof fn lemma_update_line_keeps_count(text: Seq<char>, s: ParserState)
    requires
        keeps_count(text, s),
        lines_in(text) < usize::MAX,
    ensures
        spec_update_line(s).0 is Data ==> keeps_count(text, spec_update_line(s).1),
        spec_update_line(s).0 is Eof ==> spec_update_line(s).1.line_index == lines_in(text) + 1,
{
    let before = taken(text, s);
    let n = before.len() as int;
    lemma_lines_in_grow(text, n);
    if s.rest.len() == 0 {
        assert(before == text);
    } else {
        lemma_find_from(s.rest, '\n', 0);
        let s1 = spec_update_line(s).1;
        let after = taken(text, s1);
        match find_from(s.rest, '\n', 0) {
            Some(k) => {
                let line = s.rest.take(k);
                assert(after == before + line + seq!['\n']) by {
                    assert forall|i: int| 0 <= i < after.len() implies after[i] == (before + line
                        + seq!['\n'])[i] by {
                        if i >= n {
                            assert(text[i] == s.rest[i - n]);
                        }
                    }
                }
                assert(s1.rest == text.skip(text.len() - s1.rest.len())) by {
                    assert forall|i: int| 0 <= i < s1.rest.len() implies s1.rest[i] == text.skip(
                        text.len() - s1.rest.len(),
                    )[i] by {
                        assert(s1.rest[i] == s.rest[k + 1 + i]);
                    }
                }
                assert(after.drop_last() == before + line);
                lemma_count_breaks_add(before, line);
                lemma_count_breaks_none(line);
            },
            None => {
                assert(after == text);
                assert(text == before + s.rest);
                lemma_count_breaks_add(before, s.rest);
                lemma_count_breaks_none(s.rest);
                assert(s1.rest == text.skip(text.len() - s1.rest.len()));
            },
        }
    }
}

/// The lines that a quoted field runs over are counted.
pub proof fn lemma_read_quoted_keeps_count(text: Seq<char>, s: ParserState, acc: Seq<char>)
    requires
        keeps_count(text, s),
        lines_in(text) < usize::MAX,
    ensures
        spec_read_quoted(s, acc).0 is Data ==> keeps_count(text, spec_read_quoted(s, acc).1),
        spec_read_quoted(s, acc).0 is Eof ==> spec_read_quoted(s, acc).1.line_index == lines_in(
            text,
        ) + 1,
    decreases s.rest.len(),
{
    if find_from(s.line, '"', s.cursor) is None {
        lemma_update_line_keeps_count(text, s);
        let (r, s1) = spec_update_line(s);
        if r is Data {
            lemma_find_from(s.rest, '\n', 0);
            lemma_read_quoted_keeps_count(text, s1, acc + s.line.skip(s.cursor) + seq!['\n']);
        }
    }
}

/// The lines that a token is read from are counted.
pub proof fn lemma_read_token_keeps_count(text: Seq<char>, s: ParserState)
    requires
        keeps_count(text, s),
        lines_in(text) < usize::MAX,
    ensures
        spec_read_token(s).0 is Data ==> keeps_count(text, spec_read_token(s).1),
        spec_read_token(s).0 is Eof ==> spec_read_token(s).1.line_index == lines_in(text) + 1,
{
    if s.cursor == s.line.len() {
        lemma_update_line_keeps_count(text, s);
    }
    let (r, s1) = spec_check_line_buffer(s);
    if r is Data && s1.cursor < s1.line.len() && s1.line[s1.cursor] == '"' {
        let behind = ParserState { cursor: s1.cursor + 1, ..s1 };
        lemma_read_quoted_keeps_count(text, behind, Seq::empty());
    }
}

/// The line counter is the number of the line that the parser has taken
/// last: as long as no read has met the end of the text, the counter is the
/// number of physical lines that have been taken off the text, the first
/// line being line 1. The read that meets the end counts one line more than
/// the text has.
pub proof fn law_line_index_is_the_line_number(text: Seq<char>, k: nat)
    requires
        lines_in(text) < usize::MAX,
        forall|j: nat| j < k ==> (#[trigger] nth_token(ParserState::start(text), j)) is Data,
    ensures
        keeps_count(text, after_tokens(ParserState::start(text), k)),
        after_tokens(ParserState::start(text), k).line_index <= lines_in(text),
        nth_token(ParserState::start(text), k) is Eof ==> after_tokens(
            ParserState::start(text),
            k + 1,
        ).line_index == lines_in(text) + 1,
{
    let s = ParserState::start(text);
    assert(text.skip(0) == text);
    lemma_tokens_keep_count(text, s, k);
    let end = after_tokens(s, k);
    lemma_read_token_keeps_count(text, end);
    lemma_after_one_more(s, k);
    lemma_lines_in_grow(text, text.len() - end.rest.len());
}

/// As long as no read meets the end of the text, the state keeps count.
pub proof fn lemma_tokens_keep_count(text: Seq<char>, s: ParserState, k: nat)
    requires
        keeps_count(text, s),
        lines_in(text) < usize::MAX,
        forall|j: nat| j < k ==> (#[trigger] nth_token(s, j)) is Data,
    ensures
        keeps_count(text, after_tokens(s, k)),
    decreases k,
{
    if k > 0 {
        assert(nth_token(s, 0) is Data);
        lemma_read_token_keeps_count(text, s);
        let s1 = spec_read_token(s).1;
        assert forall|j: nat| j < k - 1 implies (#[trigger] nth_token(s1, j)) is Data by {
            assert(nth_token(s, j + 1) is Data);
        }
        lemma_tokens_keep_count(text, s1, (k - 1) as nat);
    }
}

/// The state after one more token is the state that the read of that token
/// leaves.
pub proof fn lemma_after_one_more(s: ParserState, k: nat)
    ensures
        after_tokens(s, k + 1) == spec_read_token(after_tokens(s, k)).1,
    decreases k,
{
    if k > 0 {
        lemma_after_one_more(spec_read_token(s).1, (k - 1) as nat);
    } else {
        assert(after_tokens(s, 1) == after_tokens(spec_read_token(s).1, 0));
    }
}

} // verus!
