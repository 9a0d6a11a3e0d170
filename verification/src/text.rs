//! Character sequences: the conversions between strings and vectors of
//! characters, and the searches, line splitting, replacement, joining and
//! reading of numbers that the rest of the library is built on.
//!
//! Every contract is stated over `Seq<char>`, the view of a string.

use vstd::prelude::*;

verus! {

/// `String::push` appends one character to the end of the string.
pub assume_specification[ String::push ](s: &mut String, ch: char)
    ensures
        final(s)@ == old(s)@.push(ch),
;

/// Position of the first `c` in `s`, or the length of `s` where `c` does not
/// occur in it.
pub open spec fn first_index_of(s: Seq<char>, c: char) -> int
    decreases s.len(),
{
    if s.len() == 0 || s[0] == c {
        0
    } else {
        1 + first_index_of(s.skip(1), c)
    }
}

/// `first_index_of` is in range, points at `c` unless it is the length, and
/// nothing before it is `c`.
pub proof fn lemma_first_index_of(s: Seq<char>, c: char)
    ensures
        0 <= first_index_of(s, c) <= s.len(),
        first_index_of(s, c) < s.len() ==> s[first_index_of(s, c)] == c,
        forall|j: int| 0 <= j < first_index_of(s, c) ==> s[j] != c,
    decreases s.len(),
{
    if s.len() == 0 || s[0] == c {
    } else {
        let rest = s.skip(1);
        lemma_first_index_of(rest, c);
        assert forall|j: int| 0 <= j < 1 + first_index_of(rest, c) implies s[j] != c by {
            if j > 0 {
                assert(rest[j - 1] == s[j]);
            }
        }
    }
}

/// A position that points at `c` (or is the length) and has no `c` before it
/// is the first index of `c`.
pub proof fn lemma_first_index_is(s: Seq<char>, c: char, i: int)
    requires
        0 <= i <= s.len(),
        i < s.len() ==> s[i] == c,
        forall|j: int| 0 <= j < i ==> s[j] != c,
    ensures
        first_index_of(s, c) == i,
{
    lemma_first_index_of(s, c);
}

/// The text holds `c` exactly when the first index of `c` lies inside it.
pub proof fn lemma_first_index_contains(s: Seq<char>, c: char)
    ensures
        s.contains(c) <==> first_index_of(s, c) < s.len(),
{
    lemma_first_index_of(s, c);
}

/// A line as it stands without the carriage return that ended it, if one did.
pub open spec fn without_carriage_return(line: Seq<char>) -> Seq<char> {
    if line.len() > 0 && line.last() == '\r' {
        line.drop_last()
    } else {
        line
    }
}

/// The lines of a text.  A line ends at a line feed, or at a carriage return
/// directly followed by one; neither belongs to the line.  What follows the
/// last line feed is a line of its own unless it is empty, and it is taken as
/// it stands.
pub open spec fn lines_of(text: Seq<char>) -> Seq<Seq<char>>
    decreases text.len(),
{
    let end = first_index_of(text, '\n');
    if text.len() == 0 {
        Seq::empty()
    } else if 0 <= end < text.len() {
        seq![without_carriage_return(text.take(end))] + lines_of(text.skip(end + 1))
    } else {
        seq![text]
    }
}

/// The texts that a sequence of character vectors stands for.
pub open spec fn texts_of(rows: Seq<Vec<char>>) -> Seq<Seq<char>> {
    Seq::new(rows.len(), |i: int| rows[i]@)
}

/// The texts that a sequence of strings stands for.
pub open spec fn strings_of(rows: Seq<String>) -> Seq<Seq<char>> {
    Seq::new(rows.len(), |i: int| rows[i]@)
}

/// The text in which every occurrence of `pattern` in `text` is replaced by
/// `with`.  Occurrences are found from the left and do not overlap: the search
/// goes on behind a replaced occurrence.  An empty pattern occurs nowhere.
pub open spec fn replace_all(text: Seq<char>, pattern: Seq<char>, with: Seq<char>) -> Seq<char>
    decreases text.len(),
{
    if pattern.len() == 0 || text.len() < pattern.len() {
        text
    } else if text.take(pattern.len() as int) == pattern {
        with + replace_all(text.skip(pattern.len() as int), pattern, with)
    } else {
        seq![text[0]] + replace_all(text.skip(1), pattern, with)
    }
}

/// The parts one after another, with `separator` between each two.
pub open spec fn join_with(parts: Seq<Seq<char>>, separator: Seq<char>) -> Seq<char>
    decreases parts.len(),
{
    if parts.len() == 0 {
        Seq::empty()
    } else if parts.len() == 1 {
        parts[0]
    } else {
        join_with(parts.drop_last(), separator) + separator + parts.last()
    }
}

/// Whether `c` is one of the ten digits.
pub open spec fn is_digit(c: char) -> bool {
    '0' <= c && c <= '9'
}

/// The value of a digit.
pub open spec fn digit_value(c: char) -> int {
    c as int - '0' as int
}

/// Whether the text is made of digits, and of one at least.
pub open spec fn is_number(digits: Seq<char>) -> bool {
    digits.len() > 0 && forall|i: int| 0 <= i < digits.len() ==> is_digit(#[trigger] digits[i])
}

/// The number that the digits write in base ten.
pub open spec fn number_of(digits: Seq<char>) -> int
    decreases digits.len(),
{
    if digits.len() == 0 {
        0
    } else {
        10 * number_of(digits.drop_last()) + digit_value(digits.last())
    }
}

/// The characters of `s`, in order.
pub fn to_chars(s: &str) -> (chars: Vec<char>)
    ensures
        chars@ == s@,
{
    let mut chars: Vec<char> = Vec::new();
    for c in it: s.chars()
        invariant
            chars@ == it.seq().take(it.index() as int),
            it.seq() == s@,
    {
        chars.push(c);
    }
    chars
}

/// The string made of the characters `chars`, in order.
pub fn to_text(chars: &[char]) -> (s: String)
    ensures
        s@ == chars@,
{
    let mut s = String::new();
    let mut i: usize = 0;
    while i < chars.len()
        invariant
            i <= chars.len(),
            s@ == chars@.take(i as int),
        decreases chars.len() - i,
    {
        s.push(chars[i]);
        i += 1;
    }
    s
}

/// A copy of the characters from `from` up to, not including, `to`.
pub(crate) fn copy_range(chars: &[char], from: usize, to: usize) -> (part: Vec<char>)
    requires
        from <= to <= chars.len(),
    ensures
        part@ == chars@.subrange(from as int, to as int),
{
    let mut part: Vec<char> = Vec::new();
    let mut i: usize = from;
    while i < to
        invariant
            from <= i <= to <= chars.len(),
            part@ == chars@.subrange(from as int, i as int),
        decreases to - i,
    {
        part.push(chars[i]);
        i += 1;
    }
    part
}

/// Appends the characters of `tail` to `out`.
pub(crate) fn append_chars(out: &mut Vec<char>, tail: &[char])
    ensures
        final(out)@ == old(out)@ + tail@,
{
    let mut i: usize = 0;
    while i < tail.len()
        invariant
            i <= tail.len(),
            out@ == old(out)@ + tail@.take(i as int),
        decreases tail.len() - i,
    {
        out.push(tail[i]);
        i += 1;
    }
}

/// The position of the first `c` at or behind `from`, or the length of
/// `chars` where there is none.
pub(crate) fn find_char(chars: &[char], from: usize, c: char) -> (pos: usize)
    requires
        from <= chars.len(),
    ensures
        from <= pos <= chars.len(),
        pos == from + first_index_of(chars@.skip(from as int), c),
{
    let mut pos: usize = from;
    while pos < chars.len() && chars[pos] != c
        invariant
            from <= pos <= chars.len(),
            forall|j: int| from <= j < pos ==> chars@[j] != c,
        decreases chars.len() - pos,
    {
        pos += 1;
    }
    proof {
        lemma_first_index_is(chars@.skip(from as int), c, pos - from);
    }
    pos
}

/// The lines of `chars`, each as a vector of its own.
pub fn split_lines(chars: &[char]) -> (lines: Vec<Vec<char>>)
    ensures
        texts_of(lines@) == lines_of(chars@),
{
    let mut lines: Vec<Vec<char>> = Vec::new();
    let mut start: usize = 0;
    assert(chars@.skip(0) == chars@);
    while start < chars.len()
        invariant
            start <= chars.len(),
            texts_of(lines@) + lines_of(chars@.skip(start as int)) == lines_of(chars@),
        decreases chars.len() - start,
    {
        let end = find_char(chars, start, '\n');
        let ghost rest = chars@.skip(start as int);
        if end < chars.len() {
            let stop = if end > start && chars[end - 1] == '\r' {
                end - 1
            } else {
                end
            };
            let line = copy_range(chars, start, stop);
            proof {
                assert(line@ == without_carriage_return(rest.take(end - start)));
                assert(rest.skip(end - start + 1) == chars@.skip(end + 1));
            }
            lines.push(line);
            start = end + 1;
        } else {
            lines.push(copy_range(chars, start, end));
            start = end;
        }
    }
    lines
}

/// Whether `pattern` stands in `text` at position `at`.
pub(crate) fn occurs_at(text: &[char], at: usize, pattern: &[char]) -> (found: bool)
    requires
        at <= text.len(),
    ensures
        found <==> (pattern.len() <= text.len() - at && text@.skip(at as int).take(
            pattern.len() as int,
        ) == pattern@),
{
    if pattern.len() > text.len() - at {
        return false;
    }
    let ghost window = text@.skip(at as int).take(pattern.len() as int);
    let mut i: usize = 0;
    while i < pattern.len()
        invariant
            i <= pattern.len(),
            at + pattern.len() <= text.len(),
            window == text@.skip(at as int).take(pattern.len() as int),
            window.take(i as int) == pattern@.take(i as int),
        decreases pattern.len() - i,
    {
        if text[at + i] != pattern[i] {
            return false;
        }
        i += 1;
    }
    assert(window.take(pattern.len() as int) == window);
    assert(pattern@.take(pattern.len() as int) == pattern@);
    true
}

/// Replaces every occurrence of `pattern` in `text` by `with`.
pub fn replace_chars(text: &[char], pattern: &[char], with: &[char]) -> (out: Vec<char>)
    ensures
        out@ == replace_all(text@, pattern@, with@),
{
    let mut out: Vec<char> = Vec::new();
    if pattern.len() == 0 {
        append_chars(&mut out, text);
        return out;
    }
    let mut at: usize = 0;
    assert(text@.skip(0) == text@);
    while at < text.len()
        invariant
            at <= text.len(),
            pattern.len() > 0,
            out@ + replace_all(text@.skip(at as int), pattern@, with@) == replace_all(
                text@,
                pattern@,
                with@,
            ),
        decreases text.len() - at,
    {
        let ghost rest = text@.skip(at as int);
        if occurs_at(text, at, pattern) {
            append_chars(&mut out, with);
            assert(rest.skip(pattern.len() as int) == text@.skip(at + pattern.len()));
            at += pattern.len();
        } else {
            out.push(text[at]);
            assert(rest.skip(1) == text@.skip(at + 1));
            at += 1;
        }
    }
    out
}

/// The number that a prefix of digits writes is at most the number that all
/// of them write.
pub proof fn lemma_number_of_prefix(digits: Seq<char>, k: int)
    requires
        0 <= k <= digits.len(),
        forall|i: int| 0 <= i < digits.len() ==> is_digit(#[trigger] digits[i]),
    ensures
        0 <= number_of(digits.take(k)) <= number_of(digits),
    decreases digits.len(),
{
    if k == digits.len() {
        assert(digits.take(k) == digits);
        if digits.len() > 0 {
            lemma_number_of_prefix(digits.drop_last(), k - 1);
        }
    } else {
        assert(digits.drop_last().take(k) == digits.take(k));
        lemma_number_of_prefix(digits.drop_last(), k);
    }
}

/// Whether `text` and `pattern` differ at a position that both have.
pub open spec fn differs_from(text: Seq<char>, pattern: Seq<char>) -> bool {
    exists|j: int| 0 <= j < text.len() && j < pattern.len() && #[trigger] text[j] != pattern[j]
}

/// Whether no occurrence of `pattern` can start inside `piece`, whatever
/// stands behind the piece: from each of its positions on, the piece differs
/// from the pattern before either of them ends.
pub open spec fn cannot_start(piece: Seq<char>, pattern: Seq<char>) -> bool {
    forall|i: int| 0 <= i < piece.len() ==> differs_from(#[trigger] piece.skip(i), pattern)
}

/// A pattern at the start of a text is replaced, and the search goes on
/// behind it.
pub proof fn lemma_replace_at_start(pattern: Seq<char>, rest: Seq<char>, with: Seq<char>)
    requires
        pattern.len() > 0,
    ensures
        replace_all(pattern + rest, pattern, with) == with + replace_all(rest, pattern, with),
{
    let text = pattern + rest;
    assert(text.take(pattern.len() as int) == pattern);
    assert(text.skip(pattern.len() as int) == rest);
}

/// A piece in which no occurrence of the pattern can start stays as it is,
/// and the search goes on behind it.
pub proof fn lemma_replace_skips(
    piece: Seq<char>,
    rest: Seq<char>,
    pattern: Seq<char>,
    with: Seq<char>,
)
    requires
        pattern.len() > 0,
        cannot_start(piece, pattern),
    ensures
        replace_all(piece + rest, pattern, with) == piece + replace_all(rest, pattern, with),
    decreases piece.len(),
{
    let text = piece + rest;
    if piece.len() > 0 {
        assert(piece.skip(0) == piece);
        let tail = piece.skip(1);
        assert forall|i: int| 0 <= i < tail.len() implies differs_from(
            #[trigger] tail.skip(i),
            pattern,
        ) by {
            assert(tail.skip(i) == piece.skip(i + 1));
        }
        lemma_replace_skips(tail, rest, pattern, with);
        assert(text.skip(1) == tail + rest);
        assert(seq![text[0]] + (tail + replace_all(rest, pattern, with)) == piece + replace_all(
            rest,
            pattern,
            with,
        ));
    }
}

} // verus!
