//! What a line means: the outcome of evaluating it, said over any
//! arithmetic that the host may supply.

use vstd::prelude::*;
use crate::balance::{balanced, is_plain, lemma_balanced_from, lemma_plain_balanced};
use crate::clause::{
    clauses, flatten, lemma_clauses_lossless, lemma_flatten_concat, lemma_flatten_cons,
    lemma_flatten_single, Clause, TokenKind,
};
use crate::keyword::keyword_status;
use crate::memory::MemoryView;
use crate::names::{is_restricted, valid_name};
use crate::number::is_nan;
use crate::operator::{is_operator, lemma_split_point, split_point, Operator};
use crate::status::{
    failure, success, Response, STATUS_ACK, STATUS_CONTINUE, STATUS_ERROR, STATUS_LEFT,
    STATUS_NAN, STATUS_OK, STATUS_REJECT, STATUS_RIGHT,
};
use crate::text::{is_whitespace, lemma_trimmed_keeps, trimmed};

verus! {

/// The arithmetic of the host: how it reads a literal, and what each
/// operator makes of two numbers. Numbers are bit patterns.
pub struct Arithmetic {
    /// The number that a text stands for, if the text is a literal.
    pub literal: spec_fn(Seq<char>) -> Option<u32>,
    /// The result of an operator on a left and a right number.
    pub binary: spec_fn(Operator, u32, u32) -> u32,
}

/// The value of a run, given what the host made of the run as a literal: the
/// literal's number where it is one, else what the variable of that name
/// holds. The variable is looked up under the run as it stands, white space
/// included.
pub open spec fn numeric(text: Seq<char>, parsed: Option<u32>, m: MemoryView) -> Response<u32> {
    match parsed {
        Some(value) => success(value),
        None => m.variable(text),
    }
}

/// The clauses left of position `at`.
pub open spec fn left_of(cs: Seq<Clause>, at: int) -> Seq<Clause> {
    cs.subrange(0, at)
}

/// The clauses right of position `at`.
pub open spec fn right_of(cs: Seq<Clause>, at: int) -> Seq<Clause> {
    cs.subrange(at + 1, cs.len() as int)
}

/// What an operator makes of the outcomes of its two sides. A left side
/// that failed gives the left failure, whatever the right side is; then a
/// right side that failed gives the right failure.
pub open spec fn combine(
    op: Operator,
    left: Response<u32>,
    right: Response<u32>,
    a: Arithmetic,
) -> Response<u32> {
    if left.status != STATUS_OK {
        failure(STATUS_LEFT)
    } else if right.status != STATUS_OK {
        failure(STATUS_RIGHT)
    } else {
        success((a.binary)(op, left.value, right.value))
    }
}

/// The outcome of resolving a sequence of clauses.
///
/// A single clause is resolved by its kind: a run as a number, a group by
/// evaluating its text, a symbol as a function; a lone operator is rejected.
/// Any other sequence is split at its split point and the operator there is
/// applied to what the two sides resolve to; without a split point it is
/// rejected.
pub open spec fn value_of_clauses(cs: Seq<Clause>, m: MemoryView, a: Arithmetic) -> Response<u32>
    decreases flatten(cs).len(), 0nat,
    via value_of_clauses_decreases
{
    if cs.len() == 1 {
        let c = cs[0];
        match c.kind {
            TokenKind::Number => numeric(c.text, (a.literal)(trimmed(c.text)), m),
            TokenKind::Group => value_of_text(c.text, m, a),
            TokenKind::Symbol => m.function(c.text),
            TokenKind::Operator => failure(STATUS_REJECT),
        }
    } else {
        match split_point(cs) {
            Some((at, op)) => combine(
                op,
                value_of_clauses(left_of(cs, at), m, a),
                value_of_clauses(right_of(cs, at), m, a),
                a,
            ),
            None => failure(STATUS_REJECT),
        }
    }
}

/// The outcome of evaluating a text as an expression: an error where its
/// parentheses do not balance, else what its clauses resolve to.
pub open spec fn value_of_text(s: Seq<char>, m: MemoryView, a: Arithmetic) -> Response<u32>
    decreases s.len(), 1nat,
    via value_of_text_decreases
{
    if !balanced(s) {
        failure(STATUS_ERROR)
    } else {
        value_of_clauses(clauses(s), m, a)
    }
}

/// A response together with the memory that the session is left with.
pub struct Outcome {
    pub response: Response<u32>,
    pub memory: MemoryView,
}

/// The name under which the result of the last expression is kept.
pub open spec fn last_result() -> Seq<char> {
    seq!['_']
}

/// The first position from `from` on that holds an equals sign; the length
/// of `s` if there is none.
pub open spec fn first_equals(s: Seq<char>, from: int) -> int
    decreases s.len() - from,
{
    if from < 0 || from >= s.len() {
        s.len() as int
    } else if s[from] == '=' {
        from
    } else {
        first_equals(s, from + 1)
    }
}

/// The line holds exactly one equals sign.
pub open spec fn is_definition(s: Seq<char>) -> bool {
    first_equals(s, 0) < s.len() && first_equals(s, first_equals(s, 0) + 1) >= s.len()
}

/// What is left of the equals sign of a definition.
pub open spec fn defined_part(s: Seq<char>) -> Seq<char> {
    s.subrange(0, first_equals(s, 0))
}

/// What is right of the equals sign of a definition.
pub open spec fn defining_part(s: Seq<char>) -> Seq<char> {
    s.subrange(first_equals(s, 0) + 1, s.len() as int)
}

/// What becomes of a value that is to be bound to `name`: a success binds
/// it and is handed on, a failure is handed on as it is and binds nothing.
pub open spec fn bound(name: Seq<char>, r: Response<u32>, m: MemoryView) -> Outcome {
    if r.status == STATUS_OK {
        Outcome { response: success(r.value), memory: m.bind(name, r.value) }
    } else {
        Outcome { response: r, memory: m }
    }
}

/// The outcome of reading a line as a definition, `name = expression`.
///
/// A line without an equals sign, or with more than one, is rejected, and so
/// is one whose left part is no valid name once the white space at its ends
/// is cut off. Otherwise the right part is evaluated, and the name is bound
/// to its value if there is one.
pub open spec fn outcome_of_definition(s: Seq<char>, m: MemoryView, a: Arithmetic) -> Outcome {
    if !is_definition(s) || !valid_name(trimmed(defined_part(s))) {
        Outcome { response: failure(STATUS_REJECT), memory: m }
    } else {
        bound(trimmed(defined_part(s)), value_of_text(defining_part(s), m, a), m)
    }
}

/// How the dispatcher reports a value: as it is, unless it is not a number.
pub open spec fn report(value: u32) -> Response<u32> {
    if is_nan(value) {
        failure(STATUS_NAN)
    } else {
        success(value)
    }
}

/// What the dispatcher answers to a line that is neither a definition nor
/// an expression: the status that a keyword asks for, or an error.
pub open spec fn keyword_or_error(s: Seq<char>) -> Response<u32> {
    match keyword_status(s) {
        Some(code) => failure(code),
        None => failure(STATUS_ERROR),
    }
}

/// What the dispatcher does once a line has been evaluated as an expression
/// with the response `r`: a value is kept as the last result and reported;
/// after a failure the line is looked up among the keywords.
pub open spec fn after_expression(s: Seq<char>, r: Response<u32>, m: MemoryView) -> Outcome {
    if r.status == STATUS_OK {
        Outcome { response: report(r.value), memory: m.bind(last_result(), r.value) }
    } else {
        Outcome { response: keyword_or_error(s), memory: m }
    }
}

/// What the dispatcher does once a line has been read as a definition with
/// the response `r`: a value is reported; after a failure the line is
/// evaluated as an expression.
pub open spec fn after_definition(
    s: Seq<char>,
    r: Response<u32>,
    m: MemoryView,
    a: Arithmetic,
) -> Outcome {
    if r.status == STATUS_OK {
        Outcome { response: report(r.value), memory: m }
    } else {
        after_expression(s, value_of_text(s, m, a), m)
    }
}

/// The outcome of a line at the dispatcher.
///
/// An empty line asks for the next one. Any other line is first read as a
/// definition, then evaluated as an expression, then looked up among the
/// keywords; what fits none of them is an error.
pub open spec fn outcome_of_input(s: Seq<char>, m: MemoryView, a: Arithmetic) -> Outcome {
    if s.len() == 0 {
        Outcome { response: failure(STATUS_CONTINUE), memory: m }
    } else {
        let d = outcome_of_definition(s, m, a);
        after_definition(s, d.response, d.memory, a)
    }
}

/// The responses that resolving and evaluating give: a success with any
/// value, or one of four failures with the placeholder value.
pub open spec fn is_evaluation_response(r: Response<u32>) -> bool {
    ||| r.status == STATUS_OK
    ||| r == failure(STATUS_ERROR)
    ||| r == failure(STATUS_LEFT)
    ||| r == failure(STATUS_RIGHT)
    ||| r == failure(STATUS_REJECT)
}

/// Resolving clauses gives a value, or one of the four failures of the
/// resolver with nothing but the placeholder for a value.
pub proof fn lemma_value_of_clauses_response(cs: Seq<Clause>, m: MemoryView, a: Arithmetic)
    ensures
        is_evaluation_response(value_of_clauses(cs, m, a)),
    decreases flatten(cs).len(), 0nat,
{
    if cs.len() == 1 && cs[0].kind == TokenKind::Group {
        lemma_flatten_single(cs);
        lemma_value_of_text_response(cs[0].text, m, a);
    }
}

/// Evaluating a text gives a value, or one of the four failures of the
/// resolver with nothing but the placeholder for a value.
pub proof fn lemma_value_of_text_response(s: Seq<char>, m: MemoryView, a: Arithmetic)
    ensures
        is_evaluation_response(value_of_text(s, m, a)),
    decreases s.len(), 1nat,
{
    if balanced(s) {
        lemma_clauses_lossless(s);
        lemma_value_of_clauses_response(clauses(s), m, a);
    }
}

/// A definition that succeeds has bound its name: right after it the
/// variable reads as the value that the definition reported, and every other
/// variable and the functions are as before. A definition that fails leaves
/// the memory as it was.
pub proof fn lemma_definition_binds(s: Seq<char>, m: MemoryView, a: Arithmetic)
    ensures
        ({
            let d = outcome_of_definition(s, m, a);
            let name = trimmed(defined_part(s));
            if d.response.status == STATUS_OK {
                &&& is_definition(s)
                &&& valid_name(name)
                &&& d.response == value_of_text(defining_part(s), m, a)
                &&& d.memory.variable(name) == d.response
                &&& d.memory == m.bind(name, d.response.value)
            } else {
                d.memory == m
            }
        }),
{
}

/// What the dispatcher does to the memory. A line that succeeds as a
/// definition leaves the memory as the definition left it. Any other line
/// that evaluates as an expression leaves its value as the last result, also
/// where it is reported as not a number. Every other line, the empty one
/// among them, changes nothing.
pub proof fn lemma_input_memory(s: Seq<char>, m: MemoryView, a: Arithmetic)
    ensures
        ({
            let o = outcome_of_input(s, m, a);
            let d = outcome_of_definition(s, m, a);
            let v = value_of_text(s, m, a);
            if s.len() == 0 {
                o.memory == m
            } else if d.response.status == STATUS_OK {
                o.memory == d.memory
            } else if v.status == STATUS_OK {
                o.memory == m.bind(last_result(), v.value) && o.memory.variable(last_result()) == v
            } else {
                o.memory == m
            }
        }),
{
}

/// A keyword holds no parenthesis.
proof fn lemma_keyword_balanced(s: Seq<char>)
    requires
        keyword_status(s) is Some,
    ensures
        balanced(s),
{
    reveal_strlit("exit");
    reveal_strlit("continue");
    reveal_strlit("ok");
    lemma_plain_balanced(s);
}

/// In a definition with a valid name, all parentheses stand right of the
/// equals sign: the line is balanced exactly if its right part is.
proof fn lemma_definition_balance(s: Seq<char>)
    requires
        is_definition(s),
        valid_name(trimmed(defined_part(s))),
    ensures
        balanced(s) == balanced(defining_part(s)),
{
    let at = first_equals(s, 0);
    let name = defined_part(s);
    lemma_first_equals(s, 0);
    lemma_trimmed_keeps(name);
    assert forall|i: int| 0 <= i < at + 1 implies is_plain(#[trigger] s[i]) by {
        if i < at {
            assert(name[i] == s[i]);
            if !is_whitespace(name[i]) {
                let j = choose|j: int|
                    0 <= j < trimmed(name).len() && trimmed(name)[j] == name[i];
                assert(!is_restricted(trimmed(name)[j]));
            }
        }
    }
    lemma_balanced_from(s, at + 1);
}

/// Where `first_equals` lies, and what stands there.
pub proof fn lemma_first_equals(s: Seq<char>, from: int)
    requires
        0 <= from <= s.len(),
    ensures
        from <= first_equals(s, from) <= s.len(),
        first_equals(s, from) < s.len() ==> s[first_equals(s, from)] == '=',
        forall|i: int| from <= i < first_equals(s, from) ==> #[trigger] s[i] != '=',
    decreases s.len() - from,
{
    if from < s.len() && s[from] != '=' {
        lemma_first_equals(s, from + 1);
    }
}

/// A line whose parentheses do not balance is an error at the dispatcher,
/// and changes nothing.
pub proof fn lemma_unbalanced_input(s: Seq<char>, m: MemoryView, a: Arithmetic)
    requires
        !balanced(s),
    ensures
        outcome_of_input(s, m, a) == (Outcome { response: failure(STATUS_ERROR), memory: m }),
{
    if s.len() == 0 {
        lemma_plain_balanced(s);
    }
    if keyword_status(s) is Some {
        lemma_keyword_balanced(s);
    }
    if is_definition(s) && valid_name(trimmed(defined_part(s))) {
        lemma_definition_balance(s);
    }
}

/// The statuses that the dispatcher answers with: success, error, not a
/// number, and those that stand for an empty line and for the keywords. The
/// statuses that tell the two sides of an operator apart never leave it. A
/// response that is no success carries the placeholder value.
pub proof fn lemma_input_status(s: Seq<char>, m: MemoryView, a: Arithmetic)
    ensures
        ({
            let r = outcome_of_input(s, m, a).response;
            &&& r.status == STATUS_OK || r.status == STATUS_ERROR || r.status == STATUS_NAN
                || r.status == STATUS_CONTINUE || r.status == STATUS_ACK || r.status
                == STATUS_REJECT
            &&& r.status != STATUS_OK ==> r.value == 0
            &&& r.status == STATUS_OK ==> !is_nan(r.value)
        }),
{
}

/// Both sides of an operator flatten to less than the whole.
pub proof fn lemma_sides_shorter(cs: Seq<Clause>, at: int, op: Operator)
    requires
        0 <= at < cs.len(),
        is_operator(cs[at], op),
    ensures
        flatten(left_of(cs, at)).len() + 1 + flatten(right_of(cs, at)).len() == flatten(cs).len(),
{
    let left = left_of(cs, at);
    let right = right_of(cs, at);
    assert(cs =~= left + (seq![cs[at]] + right));
    lemma_flatten_concat(left, seq![cs[at]] + right);
    lemma_flatten_cons(cs[at], right);
}

#[via_fn]
proof fn value_of_clauses_decreases(cs: Seq<Clause>, m: MemoryView, a: Arithmetic) {
    if cs.len() == 1 {
        lemma_flatten_single(cs);
    } else {
        lemma_split_point(cs);
        match split_point(cs) {
            Some((at, op)) => {
                lemma_sides_shorter(cs, at, op);
            },
            None => {},
        }
    }
}

#[via_fn]
proof fn value_of_text_decreases(s: Seq<char>, m: MemoryView, a: Arithmetic) {
    if balanced(s) {
        lemma_clauses_lossless(s);
    }
}

} // verus!
