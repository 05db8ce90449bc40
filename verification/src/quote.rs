//! The quotes, one of which greets the user.

use vstd::prelude::*;
use rand::Rng;

verus! {

/// How many quotes there are.
pub const QUOTE_COUNT: usize = 2;

/// The quote at place `i`.
pub open spec fn quote(i: int) -> Seq<char> {
    if i == 0 {
        "Made with love!"@
    } else if i == 1 {
        "57% coffee"@
    } else {
        ""@
    }
}

/// The quote at place `i`.
pub fn quote_at(i: usize) -> (q: &'static str)
    requires
        i < QUOTE_COUNT,
    ensures
        q@ == quote(i as int),
{
    if i == 0 {
        "Made with love!"
    } else if i == 1 {
        "57% coffee"
    } else {
        ""
    }
}

/// Draws a number below `bound` with `rand::Rng::gen_range` on the generator
/// that `rand::thread_rng` hands out. Believed, not proved: the number drawn
/// is at least zero and less than `bound`. Which number it is depends on
/// chance, so nothing more is said. `gen_range` panics on an empty range,
/// hence the demand that `bound` is not zero.
#[verifier::external_body]
fn draw_below(bound: usize) -> (n: usize)
    requires
        0 < bound,
    ensures
        n < bound,
{
    rand::thread_rng().gen_range(0, bound)
}

/// Picks one of the quotes by chance.
pub fn rand_quote() -> (q: &'static str)
    ensures
        exists|i: int| 0 <= i < QUOTE_COUNT && q@ == quote(i),
{
    let i = draw_below(QUOTE_COUNT);
    quote_at(i)
}

} // verus!
