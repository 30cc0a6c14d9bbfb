//! Character-sequence helpers shared by the line buffer and the tokenizer.

use vstd::prelude::*;

verus! {

/// `String::push` appends one character to the end of the string.
pub assume_specification[ String::push ](s: &mut String, c: char)
    ensures
        final(s)@ == old(s)@.push(c),
;

/// Position of the first `c` in `s` at or after `from`, if there is one.
pub open spec fn find_from<T>(s: Seq<T>, c: T, from: int) -> Option<int>
    decreases s.len() - from,
{
    if from < 0 || from >= s.len() {
        None
    } else if s[from] == c {
        Some(from)
    } else {
        find_from(s, c, from + 1)
    }
}

/// `find_from` returns the least matching position: nothing before it matches,
/// and `None` means that nothing from `from` on matches.
pub proof fn lemma_find_from<T>(s: Seq<T>, c: T, from: int)
    requires
        0 <= from <= s.len(),
    ensures
        match find_from(s, c, from) {
            Some(k) => from <= k < s.len() && s[k] == c && forall|i: int|
                from <= i < k ==> s[i] != c,
            None => forall|i: int| from <= i < s.len() ==> s[i] != c,
        },
    decreases s.len() - from,
{
    if from < s.len() && s[from] != c {
        lemma_find_from(s, c, from + 1);
    }
}

/// A position that holds `c`, with no `c` between `from` and it, is what
/// `find_from` returns.
pub proof fn lemma_find_from_is<T>(s: Seq<T>, c: T, from: int, k: int)
    requires
        0 <= from <= k < s.len(),
        s[k] == c,
        forall|i: int| from <= i < k ==> s[i] != c,
    ensures
        find_from(s, c, from) == Some(k),
    decreases k - from,
{
    if from < k {
        lemma_find_from_is(s, c, from + 1, k);
    }
}

/// Where no position from `from` on holds `c`, `find_from` returns `None`.
pub proof fn lemma_find_from_none<T>(s: Seq<T>, c: T, from: int)
    requires
        0 <= from,
        forall|i: int| from <= i < s.len() ==> s[i] != c,
    ensures
        find_from(s, c, from) is None,
    decreases s.len() - from,
{
    if from < s.len() {
        lemma_find_from_none(s, c, from + 1);
    }
}

/// Searching a suffix is searching the whole sequence from the suffix's start.
pub proof fn lemma_find_from_skip<T>(s: Seq<T>, c: T, n: int, from: int)
    requires
        0 <= n <= s.len(),
        0 <= from,
    ensures
        find_from(s.skip(n), c, from) == match find_from(s, c, n + from) {
            Some(k) => Some(k - n),
            None => None,
        },
    decreases s.len() - n - from,
{
    if from < s.len() - n {
        if s[n + from] != c {
            lemma_find_from_skip(s, c, n, from + 1);
        }
    }
}

/// Finds the first `c` in `line` at or after `from`.
pub fn find_char(line: &Vec<char>, from: usize, c: char) -> (r: Option<usize>)
    requires
        from <= line.len(),
    ensures
        match r {
            Some(k) => from <= k < line.len() && find_from(line@, c, from as int) == Some(k as int),
            None => find_from(line@, c, from as int) is None,
        },
{
    let mut i: usize = from;
    while i < line.len()
        invariant
            from <= i <= line.len(),
            find_from(line@, c, from as int) == find_from(line@, c, i as int),
        decreases line.len() - i,
    {
        if line[i] == c {
            return Some(i);
        }
        i += 1;
    }
    None
}

/// Appends the characters `line[from..to]` to `out`.
pub fn append_range(out: &mut String, line: &Vec<char>, from: usize, to: usize)
    requires
        from <= to <= line.len(),
    ensures
        final(out)@ == old(out)@ + line@.subrange(from as int, to as int),
{
    let mut i: usize = from;
    while i < to
        invariant
            from <= i <= to <= line.len(),
            out@ == old(out)@ + line@.subrange(from as int, i as int),
        decreases to - i,
    {
        out.push(line[i]);
        i += 1;
        assert(line@.subrange(from as int, i as int) == line@.subrange(
            from as int,
            i as int - 1,
        ).push(line@[i as int - 1]));
    }
}

/// The characters of `s`, one element per Unicode scalar value.
pub fn to_chars(s: &str) -> (v: Vec<char>)
    ensures
        v@ == s@,
{
    let mut v: Vec<char> = Vec::new();
    for c in it: s.chars()
        invariant
            it.seq() == s@,
            v@ == s@.take(it.index()),
    {
        v.push(c);
    }
    v
}

} // verus!
