//! Nesting of parentheses.

use vstd::prelude::*;
use crate::text::chars_of;

verus! {

/// What one character adds to the nesting depth.
pub open spec fn nesting_step(c: char) -> int {
    if c == '(' {
        1
    } else if c == ')' {
        -1
    } else {
        0
    }
}

/// The number of opening parentheses in `s` minus the number of closing ones.
pub open spec fn depth(s: Seq<char>) -> int
    decreases s.len(),
{
    if s.len() == 0 {
        0
    } else {
        depth(s.drop_last()) + nesting_step(s.last())
    }
}

/// The parentheses of `s` nest properly: no prefix closes more than it has
/// opened, and the whole closes all that it has opened.
pub open spec fn balanced(s: Seq<char>) -> bool {
    &&& depth(s) == 0
    &&& forall|k: int| 0 <= k <= s.len() ==> depth(#[trigger] s.take(k)) >= 0
}

/// The depth of a prefix one character longer.
pub proof fn lemma_depth_next(s: Seq<char>, k: int)
    requires
        0 <= k < s.len(),
    ensures
        depth(s.take(k + 1)) == depth(s.take(k)) + nesting_step(s[k]),
{
    assert(s.take(k + 1).drop_last() =~= s.take(k));
}

/// The depth of two texts in a row is the sum of their depths.
pub proof fn lemma_depth_concat(x: Seq<char>, y: Seq<char>)
    ensures
        depth(x + y) == depth(x) + depth(y),
    decreases y.len(),
{
    if y.len() == 0 {
        assert(x + y =~= x);
    } else {
        lemma_depth_concat(x, y.drop_last());
        assert((x + y).drop_last() =~= x + y.drop_last());
    }
}

/// A character that is no parenthesis.
pub open spec fn is_plain(c: char) -> bool {
    c != '(' && c != ')'
}

/// A text without parentheses has depth zero.
pub proof fn lemma_plain_depth(s: Seq<char>)
    requires
        forall|i: int| 0 <= i < s.len() ==> is_plain(#[trigger] s[i]),
    ensures
        depth(s) == 0,
    decreases s.len(),
{
    if s.len() > 0 {
        lemma_plain_depth(s.drop_last());
    }
}

/// A text without parentheses is balanced.
pub proof fn lemma_plain_balanced(s: Seq<char>)
    requires
        forall|i: int| 0 <= i < s.len() ==> is_plain(#[trigger] s[i]),
    ensures
        balanced(s),
{
    lemma_plain_depth(s);
    assert forall|k: int| 0 <= k <= s.len() implies depth(#[trigger] s.take(k)) >= 0 by {
        lemma_plain_depth(s.take(k));
    }
}

/// What stands before the first parenthesis does not count: a text is
/// balanced exactly if it is so from any position on before which it holds
/// no parenthesis.
pub proof fn lemma_balanced_from(s: Seq<char>, from: int)
    requires
        0 <= from <= s.len(),
        forall|i: int| 0 <= i < from ==> is_plain(#[trigger] s[i]),
    ensures
        balanced(s) == balanced(s.subrange(from, s.len() as int)),
{
    let head = s.take(from);
    let tail = s.subrange(from, s.len() as int);
    lemma_plain_depth(head);
    assert forall|k: int| 0 <= k <= tail.len() implies depth(#[trigger] tail.take(k)) == depth(
        s.take(from + k),
    ) by {
        lemma_depth_concat(head, tail.take(k));
        assert(s.take(from + k) =~= head + tail.take(k));
    }
    assert forall|k: int| 0 <= k <= from implies depth(#[trigger] s.take(k)) == 0 by {
        lemma_plain_depth(s.take(k));
    }
    assert(s.take(s.len() as int) =~= s);
    assert(tail.take(tail.len() as int) =~= tail);
    if balanced(s) {
        assert forall|k: int| 0 <= k <= tail.len() implies depth(#[trigger] tail.take(k))
            >= 0 by {
            assert(depth(s.take(from + k)) >= 0);
        }
    }
    if balanced(tail) {
        assert forall|k: int| 0 <= k <= s.len() implies depth(#[trigger] s.take(k)) >= 0 by {
            if k > from {
                assert(depth(tail.take(k - from)) >= 0);
            }
        }
    }
}

/// Tells whether the parentheses of `input` nest properly.
pub fn is_balanced_eq(input: &String) -> (b: bool)
    ensures
        b == balanced(input@),
{
    let chars = chars_of(input.as_str());
    let mut level: usize = 0;
    let mut i: usize = 0;
    while i < chars.len()
        invariant
            chars@ == input@,
            level <= i <= chars.len(),
            level == depth(chars@.take(i as int)),
            forall|k: int| 0 <= k <= i ==> depth(#[trigger] chars@.take(k)) >= 0,
        decreases chars.len() - i,
    {
        let c = chars[i];
        proof {
            lemma_depth_next(chars@, i as int);
        }
        if c == '(' {
            level += 1;
        } else if c == ')' {
            if level == 0 {
                return false;
            }
            level -= 1;
        }
        i += 1;
    }
    proof {
        assert(chars@.take(i as int) =~= chars@);
    }
    level == 0
}

} // verus!
