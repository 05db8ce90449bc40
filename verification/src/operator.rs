//! The operators, the order of their tiers, and where a sequence of clauses
//! is split.

use vstd::prelude::*;
use vstd::string::StrSliceExecFns;
use crate::clause::{clauses_of, Clause, Token, TokenKind};

verus! {

/// The operators, in the order in which their tiers are tried.
#[derive(Clone, Copy, Debug, PartialEq, Eq, Structural)]
pub enum Operator {
    /// `^`
    Power,
    /// `*`
    Multiply,
    /// `/`
    Divide,
    /// `%`
    Remainder,
    /// `+`
    Add,
    /// `-`
    Subtract,
}

impl Operator {
    /// The character that stands for the operator.
    pub open spec fn symbol(self) -> char {
        match self {
            Operator::Power => '^',
            Operator::Multiply => '*',
            Operator::Divide => '/',
            Operator::Remainder => '%',
            Operator::Add => '+',
            Operator::Subtract => '-',
        }
    }

    /// The place of the operator's tier in the order of the tiers, from 0.
    pub open spec fn tier(self) -> int {
        match self {
            Operator::Power => 0,
            Operator::Multiply => 1,
            Operator::Divide => 2,
            Operator::Remainder => 3,
            Operator::Add => 4,
            Operator::Subtract => 5,
        }
    }

    /// The character that stands for the operator.
    pub fn sign(self) -> (c: char)
        ensures
            c == self.symbol(),
    {
        match self {
            Operator::Power => '^',
            Operator::Multiply => '*',
            Operator::Divide => '/',
            Operator::Remainder => '%',
            Operator::Add => '+',
            Operator::Subtract => '-',
        }
    }
}

/// The clause is the operator `op`: an operator clause whose text is the
/// operator's character and nothing else.
pub open spec fn is_operator(c: Clause, op: Operator) -> bool {
    c.kind == TokenKind::Operator && c.text == seq![op.symbol()]
}

/// The first position from `from` on at which `op` stands; the number of
/// clauses if it stands nowhere there.
pub open spec fn leftmost(cs: Seq<Clause>, op: Operator, from: int) -> int
    decreases cs.len() - from,
{
    if from < 0 || from >= cs.len() {
        cs.len() as int
    } else if is_operator(cs[from], op) {
        from
    } else {
        leftmost(cs, op, from + 1)
    }
}

/// `op` stands somewhere among the clauses.
pub open spec fn occurs(cs: Seq<Clause>, op: Operator) -> bool {
    leftmost(cs, op, 0) < cs.len()
}

/// Where the clauses are split, and by which operator: the operator is the
/// first in the order of the tiers that occurs at all, the position is the
/// leftmost at which it stands. `None` where no operator occurs.
pub open spec fn split_point(cs: Seq<Clause>) -> Option<(int, Operator)> {
    if occurs(cs, Operator::Power) {
        Some((leftmost(cs, Operator::Power, 0), Operator::Power))
    } else if occurs(cs, Operator::Multiply) {
        Some((leftmost(cs, Operator::Multiply, 0), Operator::Multiply))
    } else if occurs(cs, Operator::Divide) {
        Some((leftmost(cs, Operator::Divide, 0), Operator::Divide))
    } else if occurs(cs, Operator::Remainder) {
        Some((leftmost(cs, Operator::Remainder, 0), Operator::Remainder))
    } else if occurs(cs, Operator::Add) {
        Some((leftmost(cs, Operator::Add, 0), Operator::Add))
    } else if occurs(cs, Operator::Subtract) {
        Some((leftmost(cs, Operator::Subtract, 0), Operator::Subtract))
    } else {
        None
    }
}

/// What `leftmost` finds: the operator stands at the position found, and
/// nowhere between `from` and it.
pub proof fn lemma_leftmost(cs: Seq<Clause>, op: Operator, from: int)
    requires
        0 <= from <= cs.len(),
    ensures
        from <= leftmost(cs, op, from) <= cs.len(),
        leftmost(cs, op, from) < cs.len() ==> is_operator(cs[leftmost(cs, op, from)], op),
        forall|j: int| from <= j < leftmost(cs, op, from) ==> !is_operator(#[trigger] cs[j], op),
    decreases cs.len() - from,
{
    if from < cs.len() && !is_operator(cs[from], op) {
        lemma_leftmost(cs, op, from + 1);
    }
}

/// The split point, said without a search. Where there is one, its operator
/// stands at its position and nowhere to the left of it, and no operator of
/// an earlier tier stands anywhere. Where there is none, no clause is an
/// operator.
pub proof fn lemma_split_point(cs: Seq<Clause>)
    ensures
        match split_point(cs) {
            Some((at, op)) => {
                &&& 0 <= at < cs.len()
                &&& is_operator(cs[at], op)
                &&& forall|j: int| 0 <= j < at ==> !is_operator(#[trigger] cs[j], op)
                &&& forall|j: int, other: Operator|
                    0 <= j < cs.len() && other.tier() < op.tier() ==> !#[trigger] is_operator(
                        cs[j],
                        other,
                    )
            },
            None => forall|j: int, other: Operator|
                0 <= j < cs.len() ==> !#[trigger] is_operator(cs[j], other),
        },
{
    lemma_leftmost(cs, Operator::Power, 0);
    lemma_leftmost(cs, Operator::Multiply, 0);
    lemma_leftmost(cs, Operator::Divide, 0);
    lemma_leftmost(cs, Operator::Remainder, 0);
    lemma_leftmost(cs, Operator::Add, 0);
    lemma_leftmost(cs, Operator::Subtract, 0);
}

/// Tells whether `token` is the operator `op`.
fn holds_operator(token: &Token, op: Operator) -> (b: bool)
    ensures
        b == is_operator(token@, op),
{
    if token.kind != TokenKind::Operator {
        return false;
    }
    let text = token.text.as_str();
    if text.unicode_len() != 1 {
        return false;
    }
    let c = text.get_char(0);
    proof {
        assert(c == op.symbol() ==> text@ =~= seq![op.symbol()]);
    }
    c == op.sign()
}

/// Finds the leftmost token that is the operator `op`; the number of tokens
/// if there is none.
fn find_operator(tokens: &Vec<Token>, op: Operator) -> (at: usize)
    ensures
        at == leftmost(clauses_of(tokens@), op, 0),
        at <= tokens.len(),
{
    let mut i: usize = 0;
    while i < tokens.len()
        invariant
            i <= tokens.len(),
            leftmost(clauses_of(tokens@), op, 0) == leftmost(clauses_of(tokens@), op, i as int),
        decreases tokens.len() - i,
    {
        if holds_operator(&tokens[i], op) {
            return i;
        }
        i += 1;
    }
    i
}

/// Finds where `tokens` are split, and by which operator.
pub fn find_split(tokens: &Vec<Token>) -> (r: Option<(usize, Operator)>)
    ensures
        match r {
            Some((at, op)) => split_point(clauses_of(tokens@)) == Some((at as int, op))
                && at < tokens.len(),
            None => split_point(clauses_of(tokens@)) is None,
        },
{
    let n = tokens.len();
    let at = find_operator(tokens, Operator::Power);
    if at < n {
        return Some((at, Operator::Power));
    }
    let at = find_operator(tokens, Operator::Multiply);
    if at < n {
        return Some((at, Operator::Multiply));
    }
    let at = find_operator(tokens, Operator::Divide);
    if at < n {
        return Some((at, Operator::Divide));
    }
    let at = find_operator(tokens, Operator::Remainder);
    if at < n {
        return Some((at, Operator::Remainder));
    }
    let at = find_operator(tokens, Operator::Add);
    if at < n {
        return Some((at, Operator::Add));
    }
    let at = find_operator(tokens, Operator::Subtract);
    if at < n {
        return Some((at, Operator::Subtract));
    }
    None
}

} // verus!
