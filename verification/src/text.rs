//! Characters of a line: access by position, white space and trimming.

use vstd::prelude::*;
use vstd::string::StrSliceExecFns;

verus! {

/// Copies the characters of `s` into a vector, in order.
pub fn chars_of(s: &str) -> (v: Vec<char>)
    ensures
        v@ == s@,
{
    let mut v: Vec<char> = Vec::new();
    for c in it: s.chars()
        invariant
            it.seq() == s@,
            v@ == it.seq().take(it.index() as int),
    {
        v.push(c);
    }
    v
}

/// The characters that count as white space: those with the Unicode
/// property `White_Space`.
pub open spec fn is_whitespace(c: char) -> bool {
    let n = c as u32;
    ||| 0x09 <= n <= 0x0D
    ||| n == 0x20
    ||| n == 0x85
    ||| n == 0xA0
    ||| n == 0x1680
    ||| 0x2000 <= n <= 0x200A
    ||| n == 0x2028
    ||| n == 0x2029
    ||| n == 0x202F
    ||| n == 0x205F
    ||| n == 0x3000
}

/// Tells whether `c` is white space.
pub fn is_space(c: char) -> (b: bool)
    ensures
        b == is_whitespace(c),
{
    let n = c as u32;
    (0x09 <= n && n <= 0x0D) || n == 0x20 || n == 0x85 || n == 0xA0 || n == 0x1680 || (0x2000 <= n
        && n <= 0x200A) || n == 0x2028 || n == 0x2029 || n == 0x202F || n == 0x205F || n
        == 0x3000
}

/// The number of white-space characters that `s` begins with, from `from` on.
pub open spec fn leading_space(s: Seq<char>, from: int) -> int
    decreases s.len() - from,
{
    if 0 <= from < s.len() && is_whitespace(s[from]) {
        1 + leading_space(s, from + 1)
    } else {
        0
    }
}

/// The number of white-space characters that the first `upto` characters of
/// `s` end with.
pub open spec fn trailing_space(s: Seq<char>, upto: int) -> int
    decreases upto,
{
    if 0 < upto <= s.len() && is_whitespace(s[upto - 1]) {
        1 + trailing_space(s, upto - 1)
    } else {
        0
    }
}

/// `s` without the white space at its two ends.
pub open spec fn trimmed(s: Seq<char>) -> Seq<char> {
    let start = leading_space(s, 0);
    if start == s.len() {
        Seq::empty()
    } else {
        s.subrange(start, s.len() - trailing_space(s, s.len() as int))
    }
}

/// Leading white space never reaches past the end.
pub proof fn lemma_leading_space_bounds(s: Seq<char>, from: int)
    requires
        0 <= from <= s.len(),
    ensures
        0 <= leading_space(s, from) <= s.len() - from,
        from + leading_space(s, from) < s.len() ==> !is_whitespace(
            s[from + leading_space(s, from)],
        ),
    decreases s.len() - from,
{
    if from < s.len() && is_whitespace(s[from]) {
        lemma_leading_space_bounds(s, from + 1);
    }
}

/// Trailing white space stops at the last character that is none.
pub proof fn lemma_trailing_space_bounds(s: Seq<char>, upto: int, solid: int)
    requires
        0 <= solid < upto <= s.len(),
        !is_whitespace(s[solid]),
    ensures
        0 <= trailing_space(s, upto) < upto - solid,
        !is_whitespace(s[upto - trailing_space(s, upto) - 1]),
    decreases upto,
{
    if is_whitespace(s[upto - 1]) {
        lemma_trailing_space_bounds(s, upto - 1, solid);
    }
}

/// What is left of a text between its white space has none at its ends.
pub proof fn lemma_trimmed_ends(s: Seq<char>)
    ensures
        trimmed(s).len() > 0 ==> !is_whitespace(trimmed(s).first()) && !is_whitespace(
            trimmed(s).last(),
        ),
        trimmed(s).len() <= s.len(),
{
    lemma_leading_space_bounds(s, 0);
    let start = leading_space(s, 0);
    if start < s.len() {
        lemma_trailing_space_bounds(s, s.len() as int, start);
    }
}

/// White space that a text begins with is white space.
pub proof fn lemma_leading_space_is_space(s: Seq<char>, from: int)
    requires
        0 <= from <= s.len(),
    ensures
        forall|i: int|
            from <= i < from + leading_space(s, from) ==> is_whitespace(#[trigger] s[i]),
    decreases s.len() - from,
{
    if from < s.len() && is_whitespace(s[from]) {
        lemma_leading_space_is_space(s, from + 1);
    }
}

/// White space that a text ends with is white space.
pub proof fn lemma_trailing_space_is_space(s: Seq<char>, upto: int)
    requires
        0 <= upto <= s.len(),
    ensures
        0 <= trailing_space(s, upto) <= upto,
        forall|i: int|
            upto - trailing_space(s, upto) <= i < upto ==> is_whitespace(#[trigger] s[i]),
    decreases upto,
{
    if 0 < upto && is_whitespace(s[upto - 1]) {
        lemma_trailing_space_is_space(s, upto - 1);
    }
}

/// Trimming takes away white space and nothing else: every character of a
/// text is white space or stands in what is left of the text.
pub proof fn lemma_trimmed_keeps(s: Seq<char>)
    ensures
        forall|i: int|
            0 <= i < s.len() ==> is_whitespace(#[trigger] s[i]) || trimmed(s).contains(s[i]),
{
    let start = leading_space(s, 0);
    let n = s.len() as int;
    lemma_leading_space_bounds(s, 0);
    lemma_leading_space_is_space(s, 0);
    lemma_trailing_space_is_space(s, n);
    if start < n {
        lemma_trailing_space_bounds(s, n, start);
        let end = n - trailing_space(s, n);
        assert forall|i: int| 0 <= i < n implies is_whitespace(#[trigger] s[i]) || trimmed(
            s,
        ).contains(s[i]) by {
            if start <= i < end {
                assert(trimmed(s)[i - start] == s[i]);
            }
        }
    }
}

/// Cuts the white space off both ends of `s`.
pub fn trim(s: &str) -> (t: &str)
    ensures
        t@ == trimmed(s@),
{
    let chars = chars_of(s);
    let n = chars.len();
    let mut start: usize = 0;
    while start < n && is_space(chars[start])
        invariant
            chars@ == s@,
            n == chars.len(),
            start <= n,
            leading_space(s@, 0) == start + leading_space(s@, start as int),
        decreases n - start,
    {
        start += 1;
    }
    if start == n {
        proof {
            assert(s@.subrange(n as int, n as int) =~= Seq::<char>::empty());
        }
        return s.substring_char(n, n);
    }
    let mut end: usize = n;
    proof {
        lemma_trailing_space_bounds(s@, n as int, start as int);
    }
    while end > start + 1 && is_space(chars[end - 1])
        invariant
            chars@ == s@,
            n == chars.len(),
            start < end <= n,
            !is_whitespace(s@[start as int]),
            trailing_space(s@, n as int) == (n - end) + trailing_space(s@, end as int),
        decreases end,
    {
        end -= 1;
    }
    s.substring_char(start, end)
}

} // verus!
