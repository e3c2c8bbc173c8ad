//! Text as sequences of characters: reading a string's characters, trimming
//! white space and folding ASCII case.

use vstd::prelude::*;
use vstd::slice::slice_subrange;

verus! {

/// White space as Unicode defines it (the `White_Space` property).
pub open spec fn is_space(c: char) -> bool {
    let n = c as u32;
    ||| 0x09 <= n <= 0x0D
    ||| n == 0x20
    ||| n == 0x85
    ||| n == 0xA0
    ||| n == 0x1680
    ||| 0x2000 <= n <= 0x200A
    ||| n == 0x2028
    ||| n == 0x2029
    ||| n == 0x202F
    ||| n == 0x205F
    ||| n == 0x3000
}

/// The number of white-space characters at the front of `s`.
pub open spec fn leading_spaces(s: Seq<char>) -> nat
    decreases s.len(),
{
    if s.len() > 0 && is_space(s[0]) {
        1 + leading_spaces(s.skip(1))
    } else {
        0
    }
}

/// The number of white-space characters at the back of `s`.
pub open spec fn trailing_spaces(s: Seq<char>) -> nat
    decreases s.len(),
{
    if s.len() > 0 && is_space(s.last()) {
        1 + trailing_spaces(s.drop_last())
    } else {
        0
    }
}

/// `s` without the white space at its front and at its back.
pub open spec fn trimmed(s: Seq<char>) -> Seq<char> {
    let rest = s.skip(leading_spaces(s) as int);
    rest.take(rest.len() - trailing_spaces(rest))
}

/// An upper-case ASCII letter becomes its lower-case form; every other
/// character stays as it is.
pub open spec fn lower(c: char) -> char {
    if 'A' <= c <= 'Z' {
        ((c as u8) + 32) as char
    } else {
        c
    }
}

/// `s` with each character folded by [`lower`].
pub open spec fn lowered(s: Seq<char>) -> Seq<char> {
    Seq::new(s.len(), |i: int| lower(s[i]))
}

/// `leading_spaces` counts exactly the white-space prefix.
pub proof fn lemma_leading_spaces(s: Seq<char>, n: int)
    requires
        0 <= n <= s.len(),
        forall|i: int| 0 <= i < n ==> is_space(#[trigger] s[i]),
        n == s.len() || !is_space(s[n]),
    ensures
        leading_spaces(s) == n,
    decreases n,
{
    if n > 0 {
        lemma_leading_spaces(s.skip(1), n - 1);
    }
}

/// `trailing_spaces` counts exactly the white-space suffix.
pub proof fn lemma_trailing_spaces(s: Seq<char>, n: int)
    requires
        0 <= n <= s.len(),
        forall|i: int| s.len() - n <= i < s.len() ==> is_space(#[trigger] s[i]),
        n == s.len() || !is_space(s[s.len() - n - 1]),
    ensures
        trailing_spaces(s) == n,
    decreases n,
{
    if n > 0 {
        lemma_trailing_spaces(s.drop_last(), n - 1);
    }
}

/// What `leading_spaces` counts is white space, and what follows is not.
pub proof fn lemma_leading_spaces_end(s: Seq<char>)
    ensures
        leading_spaces(s) <= s.len(),
        forall|i: int| 0 <= i < leading_spaces(s) ==> is_space(#[trigger] s[i]),
        leading_spaces(s) == s.len() || !is_space(s[leading_spaces(s) as int]),
    decreases s.len(),
{
    if s.len() > 0 && is_space(s[0]) {
        let rest = s.skip(1);
        lemma_leading_spaces_end(rest);
        assert forall|i: int| 0 <= i < leading_spaces(s) implies is_space(#[trigger] s[i]) by {
            if i > 0 {
                assert(s[i] == rest[i - 1]);
            }
        }
        if leading_spaces(rest) < rest.len() {
            assert(rest[leading_spaces(rest) as int] == s[leading_spaces(s) as int]);
        }
    }
}

/// What `trailing_spaces` counts is white space, and what stands before it
/// is not.
pub proof fn lemma_trailing_spaces_end(s: Seq<char>)
    ensures
        trailing_spaces(s) <= s.len(),
        forall|i: int| s.len() - trailing_spaces(s) <= i < s.len() ==> is_space(#[trigger] s[i]),
        trailing_spaces(s) == s.len() || !is_space(s[s.len() - trailing_spaces(s) - 1]),
    decreases s.len(),
{
    if s.len() > 0 && is_space(s.last()) {
        let rest = s.drop_last();
        lemma_trailing_spaces_end(rest);
        assert forall|i: int| s.len() - trailing_spaces(s) <= i < s.len() implies is_space(
            #[trigger] s[i],
        ) by {
            if i < s.len() - 1 {
                assert(s[i] == rest[i]);
            }
        }
        if trailing_spaces(rest) < rest.len() {
            assert(rest[rest.len() - trailing_spaces(rest) - 1] == s[s.len() - trailing_spaces(s)
                - 1]);
        }
    }
}

/// A text trimmed is the part between its white space at the front and its
/// white space at the back, wherever these meet in a text of white space
/// alone.
pub proof fn lemma_trimmed_between(s: Seq<char>, start: int, end: int)
    requires
        0 <= start <= end <= s.len(),
        forall|i: int| 0 <= i < start ==> is_space(#[trigger] s[i]),
        forall|i: int| end <= i < s.len() ==> is_space(#[trigger] s[i]),
        start == end || (!is_space(s[start]) && !is_space(s[end - 1])),
    ensures
        trimmed(s) == s.subrange(start, end),
{
    if start == end {
        lemma_leading_spaces(s, s.len() as int);
        assert(trimmed(s) =~= s.subrange(start, end));
    } else {
        lemma_leading_spaces(s, start);
        let rest = s.skip(start);
        assert forall|i: int| rest.len() - (s.len() - end) <= i < rest.len() implies is_space(
            #[trigger] rest[i],
        ) by {
            assert(rest[i] == s[i + start]);
        }
        assert(rest[rest.len() - (s.len() - end) - 1] == s[end - 1]);
        lemma_trailing_spaces(rest, s.len() - end);
        assert(trimmed(s) =~= s.subrange(start, end));
    }
}

/// Where a text trimmed starts and ends in the text.
pub proof fn lemma_trimmed_bounds(s: Seq<char>) -> (bounds: (int, int))
    ensures
        0 <= bounds.0 <= bounds.1 <= s.len(),
        forall|i: int| 0 <= i < bounds.0 ==> is_space(#[trigger] s[i]),
        forall|i: int| bounds.1 <= i < s.len() ==> is_space(#[trigger] s[i]),
        bounds.0 == bounds.1 || (!is_space(s[bounds.0]) && !is_space(s[bounds.1 - 1])),
        trimmed(s) == s.subrange(bounds.0, bounds.1),
{
    lemma_leading_spaces_end(s);
    let start = leading_spaces(s) as int;
    let rest = s.skip(start);
    lemma_trailing_spaces_end(rest);
    let end = s.len() - trailing_spaces(rest);
    assert forall|i: int| end <= i < s.len() implies is_space(#[trigger] s[i]) by {
        assert(s[i] == rest[i - start]);
    }
    if start < end {
        assert(rest[0] == s[start]);
        assert(rest[rest.len() - trailing_spaces(rest) - 1] == s[end - 1]);
    }
    assert(trimmed(s) =~= s.subrange(start, end));
    (start, end)
}

/// White space put before and after a text is trimmed away with the
/// text's own.
pub proof fn lemma_trimmed_ignores_padding(before: Seq<char>, s: Seq<char>, after: Seq<char>)
    requires
        forall|i: int| 0 <= i < before.len() ==> is_space(#[trigger] before[i]),
        forall|i: int| 0 <= i < after.len() ==> is_space(#[trigger] after[i]),
    ensures
        trimmed(before + s + after) == trimmed(s),
{
    let padded = before + s + after;
    let (start, end) = lemma_trimmed_bounds(s);
    let shift = before.len() as int;
    assert forall|i: int| 0 <= i < padded.len() implies #[trigger] padded[i] == if i < shift {
        before[i]
    } else if i < shift + s.len() {
        s[i - shift]
    } else {
        after[i - shift - s.len()]
    } by {}
    lemma_trimmed_between(padded, start + shift, end + shift);
    assert(padded.subrange(start + shift, end + shift) =~= s.subrange(start, end));
}

/// Texts that differ in the case of ASCII letters alone are the same once
/// trimmed and folded.
pub proof fn lemma_lowered_trimmed_ignores_case(a: Seq<char>, b: Seq<char>)
    requires
        a.len() == b.len(),
        forall|i: int| 0 <= i < a.len() ==> lower(#[trigger] a[i]) == lower(b[i]),
    ensures
        lowered(trimmed(a)) == lowered(trimmed(b)),
{
    let (start, end) = lemma_trimmed_bounds(a);
    assert forall|i: int| 0 <= i < a.len() implies is_space(#[trigger] b[i]) == is_space(a[i]) by {
        assert(lower(a[i]) == lower(b[i]));
    }
    lemma_trimmed_between(b, start, end);
    assert(lowered(a.subrange(start, end)) =~= lowered(b.subrange(start, end))) by {
        assert forall|i: int| 0 <= i < end - start implies lower(
            #[trigger] a.subrange(start, end)[i],
        ) == lower(b.subrange(start, end)[i]) by {
            assert(lower(a[i + start]) == lower(b[i + start]));
        }
    }
}

/// The characters of `s`, in order.
pub fn chars_of(s: &str) -> (out: Vec<char>)
    ensures
        out@ == s@,
{
    let mut out: Vec<char> = Vec::new();
    for c in it: s.chars()
        invariant
            out@ == it.seq().take(it.index() as int),
    {
        out.push(c);
    }
    out
}

/// Whether `c` is white space.
pub fn is_space_char(c: char) -> (b: bool)
    ensures
        b == is_space(c),
{
    let n: u32 = c as u32;
    (0x09 <= n && n <= 0x0D) || n == 0x20 || n == 0x85 || n == 0xA0 || n == 0x1680 || (0x2000 <= n
        && n <= 0x200A) || n == 0x2028 || n == 0x2029 || n == 0x202F || n == 0x205F || n == 0x3000
}

/// Where `text` without the white space around it starts and ends.
pub fn trim_bounds(text: &[char]) -> (out: (usize, usize))
    ensures
        out.0 <= out.1 <= text.len(),
        text@.subrange(out.0 as int, out.1 as int) == trimmed(text@),
{
    let mut start: usize = 0;
    while start < text.len() && is_space_char(text[start])
        invariant
            start <= text.len(),
            forall|i: int| 0 <= i < start ==> is_space(#[trigger] text@[i]),
        decreases text.len() - start,
    {
        start += 1;
    }
    let mut end: usize = text.len();
    while end > start && is_space_char(text[end - 1])
        invariant
            start <= end <= text.len(),
            forall|i: int| end <= i < text.len() ==> is_space(#[trigger] text@[i]),
        decreases end,
    {
        end -= 1;
    }
    proof {
        lemma_leading_spaces(text@, start as int);
        let rest = text@.skip(start as int);
        assert forall|i: int| rest.len() - (text.len() - end) <= i < rest.len() implies is_space(
            #[trigger] rest[i],
        ) by {
            assert(rest[i] == text@[i + start]);
        }
        lemma_trailing_spaces(rest, text.len() - end);
        assert(rest.take(rest.len() - (text.len() - end)) =~= text@.subrange(
            start as int,
            end as int,
        ));
    }
    (start, end)
}

/// The part of `text` between its leading and its trailing white space.
pub fn trim(text: &[char]) -> (out: &[char])
    ensures
        out@ == trimmed(text@),
{
    let (start, end) = trim_bounds(text);
    slice_subrange(text, start, end)
}

/// The lower-case form of `c`, where `c` is an upper-case ASCII letter.
pub fn lower_char(c: char) -> (out: char)
    ensures
        out == lower(c),
{
    if 'A' <= c && c <= 'Z' {
        ((c as u8) + 32) as char
    } else {
        c
    }
}

/// `text` with its upper-case ASCII letters folded to lower case.
pub fn to_lower(text: &[char]) -> (out: Vec<char>)
    ensures
        out@ == lowered(text@),
{
    let mut out: Vec<char> = Vec::new();
    let mut i: usize = 0;
    while i < text.len()
        invariant
            i <= text.len(),
            out@ == lowered(text@.take(i as int)),
        decreases text.len() - i,
    {
        out.push(lower_char(text[i]));
        i += 1;
        assert(out@ =~= lowered(text@.take(i as int)));
    }
    assert(text@.take(text.len() as int) =~= text@);
    out
}

/// Whether `a` and `b` hold the same characters.
pub fn same_chars(a: &[char], b: &[char]) -> (same: bool)
    ensures
        same == (a@ == b@),
{
    if a.len() != b.len() {
        return false;
    }
    let mut i: usize = 0;
    while i < a.len()
        invariant
            i <= a.len(),
            a.len() == b.len(),
            a@.take(i as int) == b@.take(i as int),
        decreases a.len() - i,
    {
        if a[i] != b[i] {
            assert(a@[i as int] != b@[i as int]);
            return false;
        }
        i += 1;
        assert(a@.take(i as int) =~= a@.take(i - 1).push(a@[i - 1]));
        assert(b@.take(i as int) =~= b@.take(i - 1).push(b@[i - 1]));
    }
    assert(a@.take(a.len() as int) =~= a@);
    assert(b@.take(a.len() as int) =~= b@);
    true
}

/// Whether `text` spells `word`.
pub fn spells(text: &[char], word: &str) -> (b: bool)
    ensures
        b == (text@ == word@),
{
    let letters = chars_of(word);
    same_chars(text, letters.as_slice())
}

} // verus!
