//! Titles as character sequences, and the few string operations the crawl
//! needs.

use vstd::prelude::*;
use vstd::string::StringExecFns;
use vstd::string::StrSliceExecFns;
use vstd::utf8::encode_utf8;

verus! {

/// The titles held by a sequence of strings, in the same order.
pub open spec fn titles_of(strings: Seq<String>) -> Seq<Seq<char>> {
    Seq::new(strings.len(), |i: int| strings[i]@)
}

/// The titles held by a sequence of batches.
pub open spec fn batches_of(batches: Seq<Vec<String>>) -> Seq<Seq<Seq<char>>> {
    Seq::new(batches.len(), |i: int| titles_of(batches[i]@))
}

/// The number of bytes a title takes in a request, which is its length in
/// UTF-8.
pub open spec fn byte_len(title: Seq<char>) -> nat {
    encode_utf8(title).len()
}

/// `parts` joined by `separator`.
pub open spec fn joined(parts: Seq<Seq<char>>, separator: Seq<char>) -> Seq<char>
    decreases parts.len(),
{
    if parts.len() == 0 {
        Seq::empty()
    } else if parts.len() == 1 {
        parts[0]
    } else {
        joined(parts.drop_last(), separator) + separator + parts.last()
    }
}

/// What is left of `quoted` without its first and its last character.
pub open spec fn unquoted(quoted: Seq<char>) -> Seq<char> {
    if quoted.len() >= 2 {
        quoted.subrange(1, quoted.len() - 1)
    } else {
        Seq::empty()
    }
}

/// Whether `c` is white space: what `char::is_whitespace` says of it.
pub uninterp spec fn is_whitespace(c: char) -> bool;

/// How many characters of white space `text` begins with.
pub open spec fn leading_space(text: Seq<char>) -> int
    decreases text.len(),
{
    if text.len() == 0 || !is_whitespace(text[0]) {
        0
    } else {
        1 + leading_space(text.drop_first())
    }
}

/// How many characters of white space `text` ends with.
pub open spec fn trailing_space(text: Seq<char>) -> int
    decreases text.len(),
{
    if text.len() == 0 || !is_whitespace(text.last()) {
        0
    } else {
        1 + trailing_space(text.drop_last())
    }
}

/// `text` without the white space at its start and at its end.
pub open spec fn trimmed(text: Seq<char>) -> Seq<char> {
    let rest = text.skip(leading_space(text));
    rest.take(rest.len() - trailing_space(rest))
}

/// The place of the first `c` in `text`, or the length of `text` where
/// there is none.
pub open spec fn index_of(text: Seq<char>, c: char) -> int
    decreases text.len(),
{
    if text.len() == 0 || text[0] == c {
        0
    } else {
        1 + index_of(text.drop_first(), c)
    }
}

/// Two texts written one after the other take the bytes of the one and
/// the bytes of the other.
pub proof fn lemma_byte_len_concat(first: Seq<char>, second: Seq<char>)
    ensures
        byte_len(first + second) == byte_len(first) + byte_len(second),
    decreases first.len(),
{
    if first.len() == 0 {
        assert(first + second =~= second);
    } else {
        assert((first + second).drop_first() =~= first.drop_first() + second);
        assert((first + second)[0] == first[0]);
        lemma_byte_len_concat(first.drop_first(), second);
    }
}

/// `leading_space` is the place of the first character that is no white
/// space.
pub proof fn lemma_leading_space(text: Seq<char>, place: int)
    requires
        0 <= place <= text.len(),
        forall|i: int| 0 <= i < place ==> is_whitespace(#[trigger] text[i]),
        place < text.len() ==> !is_whitespace(text[place]),
    ensures
        leading_space(text) == place,
    decreases text.len(),
{
    if place > 0 {
        let rest = text.drop_first();
        assert(is_whitespace(text[0]));
        assert forall|i: int| 0 <= i < place - 1 implies is_whitespace(#[trigger] rest[i]) by {
            assert(rest[i] == text[i + 1]);
        }
        lemma_leading_space(rest, place - 1);
    }
}

/// `trailing_space` counts back to the last character that is no white
/// space.
pub proof fn lemma_trailing_space(text: Seq<char>, count: int)
    requires
        0 <= count <= text.len(),
        forall|i: int| text.len() - count <= i < text.len() ==> is_whitespace(#[trigger] text[i]),
        count < text.len() ==> !is_whitespace(text[text.len() - count - 1]),
    ensures
        trailing_space(text) == count,
    decreases text.len(),
{
    if count > 0 {
        let rest = text.drop_last();
        assert(is_whitespace(text[text.len() - 1]));
        assert forall|i: int| rest.len() - (count - 1) <= i < rest.len() implies is_whitespace(
            #[trigger] rest[i],
        ) by {
            assert(rest[i] == text[i]);
        }
        lemma_trailing_space(rest, count - 1);
    }
}

/// `index_of` is the first place that holds `c`.
pub proof fn lemma_index_of(text: Seq<char>, c: char, place: int)
    requires
        0 <= place <= text.len(),
        forall|i: int| 0 <= i < place ==> #[trigger] text[i] != c,
        place < text.len() ==> text[place] == c,
    ensures
        index_of(text, c) == place,
    decreases text.len(),
{
    if place > 0 {
        let rest = text.drop_first();
        assert(text[0] != c);
        assert forall|i: int| 0 <= i < place - 1 implies #[trigger] rest[i] != c by {
            assert(rest[i] == text[i + 1]);
        }
        lemma_index_of(rest, c, place - 1);
    }
}

/// `char::is_whitespace`: whether `c` has the Unicode property
/// `White_Space`. The answer depends on `c` alone, and `is_whitespace` is
/// the name for it.
#[verifier::external_body]
fn whitespace(c: char) -> (white: bool)
    ensures
        white == is_whitespace(c),
{
    c.is_whitespace()
}

/// `text` without the white space around it.
pub fn trim(text: &str) -> (inner: &str)
    ensures
        inner@ == trimmed(text@),
{
    let length = text.unicode_len();
    let mut start: usize = 0;
    while start < length && whitespace(text.get_char(start))
        invariant
            start <= length,
            length == text@.len(),
            forall|i: int| 0 <= i < start ==> is_whitespace(#[trigger] text@[i]),
        decreases length - start,
    {
        start = start + 1;
    }
    let ghost rest = text@.skip(start as int);
    let mut end: usize = length;
    while end > start && whitespace(text.get_char(end - 1))
        invariant
            start <= end <= length,
            length == text@.len(),
            forall|i: int| end <= i < length ==> is_whitespace(#[trigger] text@[i]),
        decreases end,
    {
        end = end - 1;
    }
    proof {
        lemma_leading_space(text@, start as int);
        assert forall|i: int| rest.len() - (length - end) <= i < rest.len() implies is_whitespace(
            #[trigger] rest[i],
        ) by {
            assert(rest[i] == text@[i + start]);
        }
        if length - end < rest.len() {
            assert(rest[rest.len() - (length - end) - 1] == text@[end - 1]);
        }
        lemma_trailing_space(rest, length - end);
        assert(text@.subrange(start as int, end as int) =~= rest.take(rest.len() - (length - end)));
    }
    text.substring_char(start, end)
}

/// The place of the first `c` at or after `from`, counted in characters, or
/// the length of `text` where there is none.
pub fn find_char(text: &str, c: char, from: usize) -> (place: usize)
    requires
        from <= text@.len(),
    ensures
        place == from + index_of(text@.skip(from as int), c),
        from <= place <= text@.len(),
{
    let length = text.unicode_len();
    let mut place: usize = from;
    while place < length && text.get_char(place) != c
        invariant
            from <= place <= length,
            length == text@.len(),
            forall|i: int| from <= i < place ==> #[trigger] text@[i] != c,
        decreases length - place,
    {
        place = place + 1;
    }
    proof {
        let rest = text@.skip(from as int);
        assert forall|i: int| 0 <= i < place - from implies #[trigger] rest[i] != c by {
            assert(rest[i] == text@[i + from]);
        }
        lemma_index_of(rest, c, place - from);
    }
    place
}

/// The number of bytes in `s`.
pub fn byte_length(s: &str) -> (n: usize)
    ensures
        n == byte_len(s@),
{
    s.as_bytes().len()
}

/// Removes the first and the last character of `quoted`, whatever they are.
/// A string of fewer than two characters gives the empty string.
pub fn strip_quotes(quoted: &str) -> (stripped: &str)
    ensures
        stripped@ == unquoted(quoted@),
{
    let n = quoted.unicode_len();
    if n >= 2 {
        quoted.substring_char(1, n - 1)
    } else {
        quoted.substring_char(0, 0)
    }
}

/// Joins `parts` with `separator` between each two neighbours.
pub fn join(parts: &Vec<String>, separator: &str) -> (line: String)
    ensures
        line@ == joined(titles_of(parts@), separator@),
{
    let mut line = String::new();
    let mut i: usize = 0;
    while i < parts.len()
        invariant
            i <= parts.len(),
            line@ == joined(titles_of(parts@).take(i as int), separator@),
        decreases parts.len() - i,
    {
        let ghost before = titles_of(parts@).take(i as int);
        let ghost after = titles_of(parts@).take(i + 1);
        assert(after.drop_last() == before);
        assert(after.last() == parts[i as int]@);
        if i > 0 {
            line.append(separator);
        } else {
            assert(joined(before, separator@) == Seq::<char>::empty());
        }
        line.append(parts[i].as_str());
        i = i + 1;
    }
    assert(titles_of(parts@).take(parts.len() as int) == titles_of(parts@));
    line
}

} // verus!
