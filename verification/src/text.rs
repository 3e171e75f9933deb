//! Text as sequences of characters: prefixes and lines.
//!
//! The head of a note file is read line by line. A line ends at a line feed,
//! and a carriage return directly before that line feed belongs to the line
//! ending. The last line needs no line feed; without one it is kept as it
//! stands.

use vstd::prelude::*;

verus! {

/// `String::push` of the standard library. Assumed: the character is
/// appended to the end of the string.
pub assume_specification[ String::push ](s: &mut String, c: char)
    ensures
        final(s)@ == old(s)@.push(c),
;

/// `pattern` stands at the start of `s`.
pub open spec fn is_prefix(pattern: Seq<char>, s: Seq<char>) -> bool {
    pattern.len() <= s.len() && s.subrange(0, pattern.len() as int) == pattern
}

/// `pattern` stands at the end of `s`.
pub open spec fn is_suffix(pattern: Seq<char>, s: Seq<char>) -> bool {
    pattern.len() <= s.len() && s.subrange(s.len() - pattern.len(), s.len() as int) == pattern
}

/// The index of the first line feed in `s`, or the length of `s` where it
/// holds none.
pub open spec fn line_end(s: Seq<char>) -> int
    decreases s.len(),
{
    if s.len() == 0 || s[0] == '\n' {
        0
    } else {
        1 + line_end(s.drop_first())
    }
}

/// `line` without the carriage return at its end, if it has one.
pub open spec fn strip_return(line: Seq<char>) -> Seq<char> {
    if line.len() > 0 && line.last() == '\r' {
        line.drop_last()
    } else {
        line
    }
}

/// The lines of `s`, without their line endings.
pub open spec fn lines_of(s: Seq<char>) -> Seq<Seq<char>>
    decreases s.len(),
{
    let end = line_end(s);
    if s.len() == 0 {
        Seq::empty()
    } else if end < 0 || end >= s.len() {
        seq![s]
    } else {
        seq![strip_return(s.subrange(0, end))] + lines_of(s.subrange(end + 1, s.len() as int))
    }
}

/// Where the text after the first line of `s` starts: after its first line
/// feed, or at the end of `s` where it holds none.
pub open spec fn after_first_line(s: Seq<char>) -> int {
    if line_end(s) < s.len() {
        line_end(s) + 1
    } else {
        s.len() as int
    }
}

/// `line_end` stays within the text, no line feed stands before it, and one
/// stands at it unless it is the end of the text.
pub proof fn lemma_line_end(s: Seq<char>)
    ensures
        0 <= line_end(s) <= s.len(),
        forall|k: int| 0 <= k < line_end(s) ==> s[k] != '\n',
        line_end(s) < s.len() ==> s[line_end(s)] == '\n',
    decreases s.len(),
{
    if s.len() == 0 || s[0] == '\n' {
    } else {
        let rest = s.drop_first();
        lemma_line_end(rest);
        assert forall|k: int| 0 <= k < line_end(s) implies s[k] != '\n' by {
            if k > 0 {
                assert(s[k] == rest[k - 1]);
            }
        }
        if line_end(s) < s.len() {
            assert(s[line_end(s)] == rest[line_end(rest)]);
        }
    }
}

/// An index with no line feed before it, and one at it or the end of the
/// text there, is `line_end`.
pub proof fn lemma_line_end_is(s: Seq<char>, i: int)
    requires
        0 <= i <= s.len(),
        forall|k: int| 0 <= k < i ==> s[k] != '\n',
        i < s.len() ==> s[i] == '\n',
    ensures
        line_end(s) == i,
{
    lemma_line_end(s);
}

/// A text that starts with a line and its line feed splits into that line
/// and the lines of what follows.
pub proof fn lemma_lines_of_first(line: Seq<char>, rest: Seq<char>)
    requires
        !line.contains('\n'),
    ensures
        lines_of(line + seq!['\n'] + rest) == seq![strip_return(line)] + lines_of(rest),
{
    let s = line + seq!['\n'] + rest;
    assert forall|k: int| 0 <= k < line.len() implies s[k] != '\n' by {
        assert(s[k] == line[k]);
        assert(line.contains(line[k]));
    }
    lemma_line_end_is(s, line.len() as int);
    assert(s.subrange(0, line.len() as int) =~= line);
    assert(s.subrange(line.len() as int + 1, s.len() as int) =~= rest);
}

/// Copies the characters of `s` into a vector.
pub fn chars_of(s: &str) -> (out: Vec<char>)
    ensures
        out@ == s@,
{
    let mut out: Vec<char> = Vec::new();
    for c in it: s.chars()
        invariant
            it.seq() == s@,
            out@ == it.seq().take(it.index() as int),
    {
        out.push(c);
    }
    out
}

/// Appends the characters `chars[from..to]` to `out`.
pub fn push_chars(out: &mut String, chars: &Vec<char>, from: usize, to: usize)
    requires
        from <= to <= chars.len(),
    ensures
        final(out)@ == old(out)@ + chars@.subrange(from as int, to as int),
{
    let mut i: usize = from;
    while i < to
        invariant
            from <= i <= to <= chars.len(),
            out@ == old(out)@ + chars@.subrange(from as int, i as int),
        decreases to - i,
    {
        out.push(chars[i]);
        assert(chars@.subrange(from as int, i + 1) =~= chars@.subrange(from as int, i as int).push(
            chars@[i as int],
        ));
        i += 1;
    }
}

/// Builds a string from the characters `chars[from..to]`.
pub fn string_of(chars: &Vec<char>, from: usize, to: usize) -> (out: String)
    requires
        from <= to <= chars.len(),
    ensures
        out@ == chars@.subrange(from as int, to as int),
{
    let mut out = String::new();
    push_chars(&mut out, chars, from, to);
    out
}

/// Whether `pattern` stands at the start of `chars[from..to]`.
pub fn starts_with(chars: &Vec<char>, from: usize, to: usize, pattern: &Vec<char>) -> (found: bool)
    requires
        from <= to <= chars.len(),
    ensures
        found == is_prefix(pattern@, chars@.subrange(from as int, to as int)),
{
    let ghost part = chars@.subrange(from as int, to as int);
    let n = pattern.len();
    if n > to - from {
        return false;
    }
    let mut i: usize = 0;
    while i < n
        invariant
            from <= to <= chars.len(),
            n == pattern.len(),
            n <= to - from,
            i <= n,
            part == chars@.subrange(from as int, to as int),
            forall|k: int| 0 <= k < i ==> part[k] == pattern@[k],
        decreases n - i,
    {
        if chars[from + i] != pattern[i] {
            assert(part.subrange(0, n as int)[i as int] != pattern@[i as int]);
            return false;
        }
        i += 1;
    }
    assert(part.subrange(0, n as int) =~= pattern@);
    true
}

/// Whether `pattern` stands at the end of `chars[from..to]`.
pub fn ends_with(chars: &Vec<char>, from: usize, to: usize, pattern: &Vec<char>) -> (found: bool)
    requires
        from <= to <= chars.len(),
    ensures
        found == is_suffix(pattern@, chars@.subrange(from as int, to as int)),
{
    let ghost part = chars@.subrange(from as int, to as int);
    let n = pattern.len();
    if n > to - from {
        return false;
    }
    let start: usize = to - n;
    let mut i: usize = 0;
    while i < n
        invariant
            from <= start,
            start + n == to,
            to <= chars.len(),
            n == pattern.len(),
            i <= n,
            part == chars@.subrange(from as int, to as int),
            forall|k: int| 0 <= k < i ==> part[part.len() - n + k] == pattern@[k],
        decreases n - i,
    {
        if chars[start + i] != pattern[i] {
            assert(part.subrange(part.len() - n, part.len() as int)[i as int]
                != pattern@[i as int]);
            return false;
        }
        i += 1;
    }
    assert(part.subrange(part.len() - n, part.len() as int) =~= pattern@);
    true
}

/// Reads the line that starts at `from`. The line is `chars[from..stop]`,
/// and the text after its line ending starts at `next`.
pub fn next_line(chars: &Vec<char>, from: usize) -> (span: (usize, usize))
    requires
        from < chars.len(),
    ensures
        from <= span.0 <= span.1 <= chars.len(),
        from < span.1,
        span.1 == from + after_first_line(chars@.subrange(from as int, chars.len() as int)),
        chars@.subrange(from as int, span.0 as int) == lines_of(
            chars@.subrange(from as int, chars.len() as int),
        )[0],
        lines_of(chars@.subrange(from as int, chars.len() as int)) == seq![
            chars@.subrange(from as int, span.0 as int),
        ] + lines_of(chars@.subrange(span.1 as int, chars.len() as int)),
{
    let n = chars.len();
    let ghost tail = chars@.subrange(from as int, n as int);
    let mut end: usize = from;
    while end < n && chars[end] != '\n'
        invariant
            from <= end <= n,
            n == chars.len(),
            tail == chars@.subrange(from as int, n as int),
            forall|k: int| 0 <= k < end - from ==> tail[k] != '\n',
        decreases n - end,
    {
        end += 1;
    }
    proof {
        lemma_line_end_is(tail, end - from);
    }
    if end == n {
        assert(chars@.subrange(n as int, n as int) =~= Seq::<char>::empty());
        assert(seq![tail] + lines_of(Seq::<char>::empty()) =~= seq![tail]);
        (n, n)
    } else {
        let stop: usize = if end > from && chars[end - 1] == '\r' {
            (end - 1) as usize
        } else {
            end
        };
        proof {
            let line = tail.subrange(0, end - from);
            assert(line =~= chars@.subrange(from as int, end as int));
            assert(strip_return(line) =~= chars@.subrange(from as int, stop as int));
            assert(tail.subrange(end - from + 1, tail.len() as int) =~= chars@.subrange(
                end + 1,
                n as int,
            ));
        }
        (stop, end + 1)
    }
}

/// The index of the first line feed in `chars`, or their number where there
/// is none.
pub fn first_line_end(chars: &Vec<char>) -> (end: usize)
    ensures
        end == line_end(chars@),
{
    let mut end: usize = 0;
    while end < chars.len() && chars[end] != '\n'
        invariant
            end <= chars.len(),
            forall|k: int| 0 <= k < end ==> chars@[k] != '\n',
        decreases chars.len() - end,
    {
        end += 1;
    }
    proof {
        lemma_line_end_is(chars@, end as int);
    }
    end
}

} // verus!
