//! The calculator: a line in, a response out.
//!
//! These are the operations of the calculator as a whole. Each evaluates
//! what it is given to the end, and has the arithmetic done by two functions
//! of the host: one that reads a literal, one that applies an operator. What
//! comes out is said in [`crate::meaning`], for every arithmetic that the
//! two functions compute.

use vstd::prelude::*;
use crate::clause::{clauses_of, Token};
use crate::engine::{applies_as, reads_as, Evaluation};
use crate::meaning::{
    outcome_of_definition, outcome_of_input, value_of_clauses, value_of_text, Arithmetic, Outcome,
};
use crate::memory::Memory;
use crate::operator::Operator;
use crate::status::Response;

verus! {

/// Copies tokens.
fn copy_tokens(tokens: &Vec<Token>) -> (copy: Vec<Token>)
    ensures
        clauses_of(copy@) == clauses_of(tokens@),
{
    let mut copy: Vec<Token> = Vec::new();
    let mut i: usize = 0;
    while i < tokens.len()
        invariant
            i <= tokens.len(),
            clauses_of(copy@) == clauses_of(tokens@.take(i as int)),
        decreases tokens.len() - i,
    {
        let ghost before = clauses_of(copy@);
        copy.push(Token::new(tokens[i].kind, tokens[i].text.clone()));
        proof {
            assert(clauses_of(copy@) =~= before.push(tokens[i as int]@));
            assert(clauses_of(tokens@.take(i + 1)) =~= before.push(tokens[i as int]@));
        }
        i += 1;
    }
    proof {
        assert(tokens@.take(i as int) =~= tokens@);
    }
    copy
}

/// Resolves a sequence of tokens: gives what [`value_of_clauses`] says, and
/// leaves the memory as it is.
pub fn resolve_eq<L, B>(
    input: &Vec<Token>,
    mem: &mut Memory,
    read: &L,
    apply: &B,
) -> (r: Response<u32>) where
    L: Fn(&str) -> Option<u32>,
    B: Fn(Operator, u32, u32) -> u32,

    requires
        forall|text: &str| call_requires(*read, (text,)),
        forall|op: Operator, left: u32, right: u32| call_requires(*apply, (op, left, right)),
    ensures
        forall|a: Arithmetic|
            #[trigger] reads_as(*read, a) && applies_as(*apply, a) ==> r == value_of_clauses(
                clauses_of(input@),
                old(mem)@,
                a,
            ),
        final(mem)@ == old(mem)@,
{
    let ghost before = mem@;
    let tokens = copy_tokens(input);
    let ghost cs = clauses_of(tokens@);
    let ev = Evaluation::of_tokens(tokens, mem);
    let ghost between = mem@;
    let r = ev.finish(mem, read, apply);
    proof {
        assert forall|a: Arithmetic| #[trigger]
            reads_as(*read, a) && applies_as(*apply, a) implies r == value_of_clauses(
            clauses_of(input@),
            before,
            a,
        ) by {
            assert(ev.answer(between, a) == (Outcome { response: r, memory: mem@ }));
            assert(ev.answer(between, a) == (Outcome {
                response: value_of_clauses(cs, before, a),
                memory: before,
            }));
        }
    }
    r
}

/// Evaluates a text as an expression: gives what [`value_of_text`] says, and
/// leaves the memory as it is.
pub fn parse_eq<L, B>(
    input: &String,
    mem: &mut Memory,
    read: &L,
    apply: &B,
) -> (r: Response<u32>) where
    L: Fn(&str) -> Option<u32>,
    B: Fn(Operator, u32, u32) -> u32,

    requires
        forall|text: &str| call_requires(*read, (text,)),
        forall|op: Operator, left: u32, right: u32| call_requires(*apply, (op, left, right)),
    ensures
        forall|a: Arithmetic|
            #[trigger] reads_as(*read, a) && applies_as(*apply, a) ==> r == value_of_text(
                input@,
                old(mem)@,
                a,
            ),
        final(mem)@ == old(mem)@,
{
    let ghost before = mem@;
    let ev = Evaluation::of_text(input, mem);
    let ghost between = mem@;
    let r = ev.finish(mem, read, apply);
    proof {
        assert forall|a: Arithmetic| #[trigger]
            reads_as(*read, a) && applies_as(*apply, a) implies r == value_of_text(
            input@,
            before,
            a,
        ) by {
            assert(ev.answer(between, a) == (Outcome { response: r, memory: mem@ }));
        }
    }
    r
}

/// Reads a line as a definition, `name = expression`: gives the response and
/// leaves the memory that [`outcome_of_definition`] says.
pub fn parse_def<L, B>(
    input: &String,
    mem: &mut Memory,
    read: &L,
    apply: &B,
) -> (r: Response<u32>) where
    L: Fn(&str) -> Option<u32>,
    B: Fn(Operator, u32, u32) -> u32,

    requires
        forall|text: &str| call_requires(*read, (text,)),
        forall|op: Operator, left: u32, right: u32| call_requires(*apply, (op, left, right)),
    ensures
        forall|a: Arithmetic|
            #[trigger] reads_as(*read, a) && applies_as(*apply, a) ==> outcome_of_definition(
                input@,
                old(mem)@,
                a,
            ) == (Outcome { response: r, memory: final(mem)@ }),
{
    let ghost before = mem@;
    let ev = Evaluation::of_definition(input, mem);
    let ghost between = mem@;
    let r = ev.finish(mem, read, apply);
    proof {
        assert forall|a: Arithmetic|
            #[trigger] reads_as(*read, a) && applies_as(*apply, a) implies outcome_of_definition(
            input@,
            before,
            a,
        ) == (Outcome { response: r, memory: mem@ }) by {
            assert(ev.answer(between, a) == (Outcome { response: r, memory: mem@ }));
        }
    }
    r
}

/// Evaluates a line at the dispatcher: gives the response and leaves the
/// memory that [`outcome_of_input`] says.
pub fn parse_input<L, B>(
    input: &String,
    mem: &mut Memory,
    read: &L,
    apply: &B,
) -> (r: Response<u32>) where
    L: Fn(&str) -> Option<u32>,
    B: Fn(Operator, u32, u32) -> u32,

    requires
        forall|text: &str| call_requires(*read, (text,)),
        forall|op: Operator, left: u32, right: u32| call_requires(*apply, (op, left, right)),
    ensures
        forall|a: Arithmetic|
            #[trigger] reads_as(*read, a) && applies_as(*apply, a) ==> outcome_of_input(
                input@,
                old(mem)@,
                a,
            ) == (Outcome { response: r, memory: final(mem)@ }),
{
    let ghost before = mem@;
    let ev = Evaluation::of_input(input, mem);
    let ghost between = mem@;
    let r = ev.finish(mem, read, apply);
    proof {
        assert forall|a: Arithmetic|
            #[trigger] reads_as(*read, a) && applies_as(*apply, a) implies outcome_of_input(
            input@,
            before,
            a,
        ) == (Outcome { response: r, memory: mem@ }) by {
            assert(ev.answer(between, a) == (Outcome { response: r, memory: mem@ }));
        }
    }
    r
}

} // verus!
