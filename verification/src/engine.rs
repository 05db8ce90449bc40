//! The evaluation of a line, suspended wherever arithmetic is needed.
//!
//! The engine decides everything about a line but the arithmetic itself.
//! Where a run has to be read as a literal, or an operator applied to two
//! numbers, the evaluation stops with a [`Request`]; the host answers it and
//! the evaluation goes on, until it is finished.
//!
//! What an evaluation ends with is said by [`Evaluation::answer`], for every
//! arithmetic the host may have: the functions that begin an evaluation say
//! what the answer is, and those that go on with it keep the answer as it
//! was, for every arithmetic that agrees with what the host has answered.
//!
//! An evaluation keeps what is still to be done in frames of its own, not on
//! the call stack, so that no depth of nesting is too much for it. The
//! number of answers it needs is bounded by [`Evaluation::effort`], which
//! grows with the length of the line and shrinks with every answer.

use vstd::prelude::*;
use vstd::string::StringExecFns;
use vstd::string::StrSliceExecFns;
use crate::balance::is_balanced_eq;
use crate::clause::{
    clauses_of, find_clauses_but_better, flatten, lemma_flatten_single, Token, TokenKind,
};
use crate::keyword::parse_std_fn;
use crate::meaning::{
    after_definition, after_expression, bound, combine, first_equals, keyword_or_error,
    last_result, lemma_sides_shorter, left_of, numeric, outcome_of_definition,
    outcome_of_input, report, right_of, value_of_clauses, value_of_text, Arithmetic, Outcome,
};
use crate::memory::{resolve_fn, resolve_var, Memory, MemoryView};
use crate::names::parse_var;
use crate::number::is_not_a_number;
use crate::operator::{find_split, lemma_split_point, Operator};
use crate::status::{
    success, Response, STATUS_CONTINUE, STATUS_ERROR, STATUS_LEFT, STATUS_NAN, STATUS_OK,
    STATUS_REJECT, STATUS_RIGHT,
};
use crate::text::{chars_of, trim};

verus! {

/// What a suspended evaluation waits for.
#[derive(Debug, PartialEq, Eq)]
pub enum Request {
    /// The host is to read the text as a literal and answer with its number,
    /// or with nothing where the text is no literal.
    Literal(String),
    /// The host is to apply the operator to the left and the right number
    /// and answer with the result.
    Apply(Operator, u32, u32),
    /// Nothing: the evaluation is finished, with this response.
    Finished(Response<u32>),
}

/// What is still to be done with a response once it is there.
enum Frame {
    /// It is that of the left side of `op`; the right side is still to be resolved.
    Left { op: Operator, right: Vec<Token> },
    /// It is that of the right side of `op`, whose left side came to `left`.
    Right { op: Operator, left: u32 },
    /// Its value is to be bound to `name`.
    Bind { name: String },
    /// It is that of the line `input` as an expression.
    Line { input: String },
    /// It is that of the line `input` as a definition.
    Assign { input: String },
}

/// What is to be done next.
enum Task {
    /// Resolve these tokens.
    Tokens(Vec<Token>),
    /// Evaluate this text as an expression.
    Text(String),
    /// Read this line as a definition.
    Definition(String),
    /// Hand this response to the frame that waits for it.
    Return(Response<u32>),
    /// Wait for the host to answer `request`. Where that asks for a literal,
    /// `run` is the run that the literal was cut from.
    Wait { request: Request, run: String },
}

/// An evaluation that waits for its host, or is finished.
pub struct Evaluation {
    frames: Vec<Frame>,
    request: Request,
    run: String,
}

/// What the frames make of the response `r`, from the last frame down.
spec fn unwind(frames: Seq<Frame>, r: Response<u32>, m: MemoryView, a: Arithmetic) -> Outcome
    decreases frames.len(),
{
    if frames.len() == 0 {
        Outcome { response: r, memory: m }
    } else {
        let rest = frames.drop_last();
        match frames.last() {
            Frame::Left { op, right } => unwind(
                rest,
                combine(op, r, value_of_clauses(clauses_of(right@), m, a), a),
                m,
                a,
            ),
            Frame::Right { op, left } => unwind(rest, combine(op, success(left), r, a), m, a),
            Frame::Bind { name } => {
                let b = bound(name@, r, m);
                unwind(rest, b.response, b.memory, a)
            },
            Frame::Line { input } => {
                let o = after_expression(input@, r, m);
                unwind(rest, o.response, o.memory, a)
            },
            Frame::Assign { input } => {
                let o = after_definition(input@, r, m, a);
                unwind(rest, o.response, o.memory, a)
            },
        }
    }
}

/// The outcome that a request leads to under the frames that wait for its
/// answer, where the host answers as `a` says.
spec fn awaited(
    request: Request,
    run: Seq<char>,
    frames: Seq<Frame>,
    m: MemoryView,
    a: Arithmetic,
) -> Outcome {
    match request {
        Request::Literal(text) => unwind(frames, numeric(run, (a.literal)(text@), m), m, a),
        Request::Apply(op, left, right) => unwind(
            frames,
            success((a.binary)(op, left, right)),
            m,
            a,
        ),
        Request::Finished(r) => Outcome { response: r, memory: m },
    }
}

/// The outcome that a task leads to under the frames that wait for it.
spec fn denote(task: Task, frames: Seq<Frame>, m: MemoryView, a: Arithmetic) -> Outcome {
    match task {
        Task::Tokens(tokens) => unwind(frames, value_of_clauses(clauses_of(tokens@), m, a), m, a),
        Task::Text(text) => unwind(frames, value_of_text(text@, m, a), m, a),
        Task::Definition(line) => {
            let d = outcome_of_definition(line@, m, a);
            unwind(frames, d.response, d.memory, a)
        },
        Task::Return(r) => unwind(frames, r, m, a),
        Task::Wait { request, run } => awaited(request, run@, frames, m, a),
    }
}

/// The frame does not write to the memory.
spec fn reads_only(frame: Frame) -> bool {
    frame is Left || frame is Right
}

/// No frame writes to the memory.
spec fn all_read_only(frames: Seq<Frame>) -> bool {
    forall|i: int| 0 <= i < frames.len() ==> reads_only(#[trigger] frames[i])
}

/// The length of what the tokens were cut from.
spec fn weight(tokens: Seq<Token>) -> nat {
    flatten(clauses_of(tokens)).len()
}

/// A bound on the steps that a frame can still cause.
spec fn frame_effort(frame: Frame) -> nat {
    match frame {
        Frame::Left { op, right } => 6 * weight(right@) + 5,
        Frame::Right { op, left } => 2,
        Frame::Bind { name } => 1,
        Frame::Line { input } => 1,
        Frame::Assign { input } => 6 * input@.len() + 5,
    }
}

/// A bound on the steps that the frames can still cause.
spec fn frames_effort(frames: Seq<Frame>) -> nat
    decreases frames.len(),
{
    if frames.len() == 0 {
        0
    } else {
        frames_effort(frames.drop_last()) + frame_effort(frames.last())
    }
}

/// A bound on the steps that a request can still cause.
spec fn request_effort(request: Request) -> nat {
    match request {
        Request::Finished(r) => 0,
        _ => 2,
    }
}

/// A bound on the steps that a task can still cause.
spec fn task_effort(task: Task) -> nat {
    match task {
        Task::Tokens(tokens) => 6 * weight(tokens@) + 3,
        Task::Text(text) => 6 * text@.len() + 4,
        Task::Definition(line) => 6 * line@.len() + 2,
        Task::Return(r) => 1,
        Task::Wait { request, run } => request_effort(request),
    }
}

/// A bound on the steps that are left when `task` is to be done under `frames`.
spec fn effort_of(task: Task, frames: Seq<Frame>) -> nat {
    frames_effort(frames) + task_effort(task)
}

/// What the frames make of a response after one more frame was put on them.
proof fn lemma_unwind_push(
    frames: Seq<Frame>,
    frame: Frame,
    r: Response<u32>,
    m: MemoryView,
    a: Arithmetic,
)
    ensures
        unwind(frames.push(frame), r, m, a) == match frame {
            Frame::Left { op, right } => unwind(
                frames,
                combine(op, r, value_of_clauses(clauses_of(right@), m, a), a),
                m,
                a,
            ),
            Frame::Right { op, left } => unwind(frames, combine(op, success(left), r, a), m, a),
            Frame::Bind { name } => unwind(
                frames,
                bound(name@, r, m).response,
                bound(name@, r, m).memory,
                a,
            ),
            Frame::Line { input } => unwind(
                frames,
                after_expression(input@, r, m).response,
                after_expression(input@, r, m).memory,
                a,
            ),
            Frame::Assign { input } => unwind(
                frames,
                after_definition(input@, r, m, a).response,
                after_definition(input@, r, m, a).memory,
                a,
            ),
        },
{
    assert(frames.push(frame).drop_last() =~= frames);
}

/// One more frame adds its own effort.
proof fn lemma_effort_push(frames: Seq<Frame>, frame: Frame)
    ensures
        frames_effort(frames.push(frame)) == frames_effort(frames) + frame_effort(frame),
{
    assert(frames.push(frame).drop_last() =~= frames);
}

/// The clauses of the tokens on the two sides of a position.
proof fn lemma_sides(tokens: Seq<Token>, at: int)
    requires
        0 <= at < tokens.len(),
    ensures
        clauses_of(tokens.subrange(0, at)) == left_of(clauses_of(tokens), at),
        clauses_of(tokens.subrange(at + 1, tokens.len() as int)) == right_of(
            clauses_of(tokens),
            at,
        ),
{
    assert(clauses_of(tokens.subrange(0, at)) =~= left_of(clauses_of(tokens), at));
    assert(clauses_of(tokens.subrange(at + 1, tokens.len() as int)) =~= right_of(
        clauses_of(tokens),
        at,
    ));
}

/// Finds the first equals sign from `from` on; the number of characters if
/// there is none.
fn find_equals(chars: &Vec<char>, from: usize) -> (at: usize)
    requires
        from <= chars.len(),
    ensures
        at == first_equals(chars@, from as int),
        from <= at <= chars.len(),
{
    let mut i: usize = from;
    while i < chars.len()
        invariant
            from <= i <= chars.len(),
            first_equals(chars@, from as int) == first_equals(chars@, i as int),
        decreases chars.len() - i,
    {
        if chars[i] == '=' {
            return i;
        }
        i += 1;
    }
    i
}

/// Reports a value as the dispatcher does: as it is, unless it is not a
/// number.
fn report_value(value: u32) -> (r: Response<u32>)
    ensures
        r == report(value),
{
    if is_not_a_number(value) {
        Response::err(STATUS_NAN)
    } else {
        Response::ok(value)
    }
}

/// Answers for a line that is neither a definition nor an expression.
fn answer_keyword(line: &String) -> (answer: Response<u32>)
    ensures
        answer == keyword_or_error(line@),
{
    let word = parse_std_fn(line);
    if word.status != STATUS_REJECT {
        return Response { status: word.value, value: 0 };
    }
    Response::err(STATUS_ERROR)
}

/// One step of resolving `tokens`. A single token is dealt with by its kind:
/// the host is asked to read a run, the text of a group is to be evaluated,
/// a symbol is resolved as a function, a lone operator is rejected. Other
/// tokens are split: the left side is to be resolved next, and a frame
/// keeps the operator and the right side. Without a split point they are
/// rejected.
fn resolve_step(tokens: Vec<Token>, frames: &mut Vec<Frame>, mem: &Memory) -> (next: Task)
    ensures
        forall|a: Arithmetic| #[trigger]
            denote(next, final(frames)@, mem@, a) == denote(
                Task::Tokens(tokens),
                old(frames)@,
                mem@,
                a,
            ),
        effort_of(next, final(frames)@) < effort_of(Task::Tokens(tokens), old(frames)@),
        !(next is Definition),
        all_read_only(old(frames)@) ==> all_read_only(final(frames)@),
{
    let ghost whole = tokens;
    let ghost cs = clauses_of(tokens@);
    let mut tokens = tokens;
    if tokens.len() == 1 {
        match tokens.pop() {
            Some(token) => {
                proof {
                    lemma_flatten_single(cs);
                    assert(cs[0] == token@);
                }
                match token.kind {
                    TokenKind::Number => {
                        let text = String::from_str(trim(token.text.as_str()));
                        Task::Wait { request: Request::Literal(text), run: token.text }
                    },
                    TokenKind::Group => Task::Text(token.text),
                    TokenKind::Symbol => Task::Return(resolve_fn(&token.text, mem)),
                    TokenKind::Operator => Task::Return(Response::reject()),
                }
            },
            None => Task::Return(Response::reject()),
        }
    } else {
        match find_split(&tokens) {
            Some((at, op)) => {
                let right = tokens.split_off(at + 1);
                tokens.pop();
                proof {
                    let frame = Frame::Left { op, right };
                    lemma_split_point(cs);
                    lemma_sides_shorter(cs, at as int, op);
                    lemma_sides(whole@, at as int);
                    assert(tokens@ =~= whole@.subrange(0, at as int));
                    lemma_effort_push(frames@, frame);
                    assert forall|a: Arithmetic| #[trigger]
                        denote(Task::Tokens(tokens), frames@.push(frame), mem@, a) == denote(
                            Task::Tokens(whole),
                            frames@,
                            mem@,
                            a,
                        ) by {
                        lemma_unwind_push(
                            frames@,
                            frame,
                            value_of_clauses(clauses_of(tokens@), mem@, a),
                            mem@,
                            a,
                        );
                    }
                }
                frames.push(Frame::Left { op, right });
                Task::Tokens(tokens)
            },
            None => Task::Return(Response::reject()),
        }
    }
}

/// One step of evaluating `text` as an expression: an error where its
/// parentheses do not balance; else it is cut into its clauses, which are to
/// be resolved next.
fn evaluate_step(text: String) -> (next: Task)
    ensures
        forall|frames: Seq<Frame>, m: MemoryView, a: Arithmetic| #[trigger]
            denote(next, frames, m, a) == denote(Task::Text(text), frames, m, a),
        task_effort(next) < task_effort(Task::Text(text)),
        !(next is Definition),
{
    if !is_balanced_eq(&text) {
        Task::Return(Response::err(STATUS_ERROR))
    } else {
        let cut = find_clauses_but_better(&text);
        Task::Tokens(cut.1)
    }
}

/// One step of reading `line` as a definition. A line that is none, or whose
/// name is not valid, is rejected. Else a frame keeps the name, and the right
/// part of the line is to be evaluated next.
fn define_step(line: String, frames: &mut Vec<Frame>) -> (next: Task)
    ensures
        forall|m: MemoryView, a: Arithmetic| #[trigger]
            denote(next, final(frames)@, m, a) == denote(
                Task::Definition(line),
                old(frames)@,
                m,
                a,
            ),
        effort_of(next, final(frames)@) < effort_of(Task::Definition(line), old(frames)@),
{
    let chars = chars_of(line.as_str());
    let n = chars.len();
    let at = find_equals(&chars, 0);
    if at >= n {
        return Task::Return(Response::reject());
    }
    if find_equals(&chars, at + 1) < n {
        return Task::Return(Response::reject());
    }
    let var = parse_var(String::from_str(line.as_str().substring_char(0, at)));
    if var.status != STATUS_OK {
        return Task::Return(Response { status: var.status, value: 0 });
    }
    let rest = String::from_str(line.as_str().substring_char(at + 1, n));
    proof {
        let frame = Frame::Bind { name: var.value };
        lemma_effort_push(frames@, frame);
        assert forall|m: MemoryView, a: Arithmetic| #[trigger]
            denote(Task::Text(rest), frames@.push(frame), m, a) == denote(
                Task::Definition(line),
                frames@,
                m,
                a,
            ) by {
            lemma_unwind_push(frames@, frame, value_of_text(rest@, m, a), m, a);
        }
    }
    frames.push(Frame::Bind { name: var.value });
    Task::Text(rest)
}

/// One step of handing the response `r` to the frame that waits for it.
///
/// The left side of an operator: a failure is the left failure, after a
/// value the right side is to be resolved. The right side: a failure is the
/// right failure, with a value the host is asked to apply the operator. A
/// value to bind is written to the memory. The response to a line as a
/// definition: a value is reported, after a failure the line is to be
/// evaluated as an expression. The response to a line as an expression: a
/// value is kept as the last result and reported, after a failure the line
/// is looked up among the keywords. Where no frame waits, the evaluation is
/// finished.
fn return_step(r: Response<u32>, frames: &mut Vec<Frame>, mem: &mut Memory) -> (next: Task)
    ensures
        forall|a: Arithmetic| #[trigger]
            denote(next, final(frames)@, final(mem)@, a) == denote(
                Task::Return(r),
                old(frames)@,
                old(mem)@,
                a,
            ),
        effort_of(next, final(frames)@) < effort_of(Task::Return(r), old(frames)@),
        all_read_only(old(frames)@) ==> all_read_only(final(frames)@) && !(next is Definition)
            && final(mem)@ == old(mem)@,
{
    let ghost m = mem@;
    proof {
        if all_read_only(frames@) && frames@.len() > 0 {
            assert(reads_only(frames@[frames@.len() - 1]));
        }
    }
    match frames.pop() {
        None => Task::Wait { request: Request::Finished(r), run: String::new() },
        Some(frame) => match frame {
            Frame::Left { op, right } => {
                if r.status != STATUS_OK {
                    Task::Return(Response::err(STATUS_LEFT))
                } else {
                    proof {
                        let waiting = Frame::Right { op, left: r.value };
                        lemma_effort_push(frames@, waiting);
                        assert forall|a: Arithmetic| #[trigger]
                            denote(Task::Tokens(right), frames@.push(waiting), m, a) == denote(
                                Task::Return(r),
                                old(frames)@,
                                m,
                                a,
                            ) by {
                            lemma_unwind_push(
                                frames@,
                                waiting,
                                value_of_clauses(clauses_of(right@), m, a),
                                m,
                                a,
                            );
                        }
                    }
                    frames.push(Frame::Right { op, left: r.value });
                    Task::Tokens(right)
                }
            },
            Frame::Right { op, left } => {
                if r.status != STATUS_OK {
                    Task::Return(Response::err(STATUS_RIGHT))
                } else {
                    Task::Wait { request: Request::Apply(op, left, r.value), run: String::new() }
                }
            },
            Frame::Bind { name } => {
                if r.status != STATUS_OK {
                    Task::Return(r)
                } else {
                    mem.set(name, r.value);
                    Task::Return(Response::ok(r.value))
                }
            },
            Frame::Assign { input } => {
                if r.status == STATUS_OK {
                    Task::Return(report_value(r.value))
                } else {
                    proof {
                        let waiting = Frame::Line { input };
                        lemma_effort_push(frames@, waiting);
                        assert forall|a: Arithmetic| #[trigger]
                            denote(Task::Text(input), frames@.push(waiting), m, a) == denote(
                                Task::Return(r),
                                old(frames)@,
                                m,
                                a,
                            ) by {
                            lemma_unwind_push(
                                frames@,
                                waiting,
                                value_of_text(input@, m, a),
                                m,
                                a,
                            );
                        }
                    }
                    frames.push(Frame::Line { input: input.clone() });
                    Task::Text(input)
                }
            },
            Frame::Line { input } => {
                if r.status == STATUS_OK {
                    let name = String::from_str("_");
                    proof {
                        reveal_strlit("_");
                        assert(name@ =~= last_result());
                    }
                    mem.set(name, r.value);
                    Task::Return(report_value(r.value))
                } else {
                    Task::Return(answer_keyword(&input))
                }
            },
        },
    }
}

/// Carries a task on until the host is needed or nothing is left to do.
fn drive(frames: Vec<Frame>, task: Task, mem: &mut Memory) -> (ev: Evaluation)
    ensures
        forall|a: Arithmetic| #[trigger]
            ev.answer(final(mem)@, a) == denote(task, frames@, old(mem)@, a),
        ev.effort() <= effort_of(task, frames@),
        all_read_only(frames@) && !(task is Definition) ==> ev.reads_only() && final(mem)@ == old(
            mem,
        )@,
{
    let mut stack = frames;
    let mut next = task;
    loop
        invariant
            forall|a: Arithmetic| #[trigger]
                denote(next, stack@, mem@, a) == denote(task, frames@, old(mem)@, a),
            effort_of(next, stack@) <= effort_of(task, frames@),
            all_read_only(frames@) && !(task is Definition) ==> all_read_only(stack@) && !(next
                is Definition) && mem@ == old(mem)@,
        decreases effort_of(next, stack@),
    {
        let ghost before = next;
        let ghost below = stack@;
        let ghost m = mem@;
        next = match next {
            Task::Tokens(tokens) => resolve_step(tokens, &mut stack, mem),
            Task::Text(text) => evaluate_step(text),
            Task::Definition(line) => define_step(line, &mut stack),
            Task::Return(r) => return_step(r, &mut stack, mem),
            Task::Wait { request, run } => {
                let ev = Evaluation { frames: stack, request, run };
                proof {
                    assert forall|a: Arithmetic| #[trigger]
                        ev.answer(mem@, a) == denote(task, frames@, old(mem)@, a) by {
                        assert(ev.answer(mem@, a) == denote(before, below, m, a));
                    }
                }
                return ev;
            },
        };
        proof {
            assert forall|a: Arithmetic| #[trigger]
                denote(next, stack@, mem@, a) == denote(task, frames@, old(mem)@, a) by {
                assert(denote(next, stack@, mem@, a) == denote(before, below, m, a));
            }
        }
    }
}

impl Evaluation {
    /// What the evaluation waits for.
    pub closed spec fn pending(self) -> Request {
        self.request
    }

    /// The outcome that the evaluation ends with, if the memory is `m` now
    /// and the host answers this request and all that follow as `a` says.
    pub closed spec fn answer(self, m: MemoryView, a: Arithmetic) -> Outcome {
        awaited(self.request, self.run@, self.frames@, m, a)
    }

    /// A bound on the number of answers that the evaluation still needs
    /// before it is finished.
    pub closed spec fn effort(self) -> nat {
        frames_effort(self.frames@) + request_effort(self.request)
    }

    /// The evaluation only reads the memory: whatever the host answers, it
    /// writes nothing to it.
    pub closed spec fn reads_only(self) -> bool {
        all_read_only(self.frames@)
    }

    /// A finished evaluation ends with the response it shows, and leaves the
    /// memory as it is.
    pub proof fn lemma_finished(self, m: MemoryView, a: Arithmetic)
        requires
            self.pending() is Finished,
        ensures
            self.answer(m, a) == (Outcome { response: self.pending()->Finished_0, memory: m }),
    {
    }

    /// What the evaluation waits for.
    pub fn request(&self) -> (r: &Request)
        ensures
            *r == self.pending(),
    {
        &self.request
    }

    /// Goes on with the host's answer to a request for a literal: `parsed`
    /// is the number that the text stands for, or nothing where the text is
    /// no literal; then the run is looked up as a variable. An answer that
    /// was not asked for changes nothing.
    pub fn literal(self, parsed: Option<u32>, mem: &mut Memory) -> (ev: Evaluation)
        ensures
            !(self.pending() is Literal) ==> ev == self && final(mem)@ == old(mem)@,
            self.pending() is Literal ==> ev.effort() < self.effort(),
            self.reads_only() ==> ev.reads_only() && final(mem)@ == old(mem)@,
            forall|a: Arithmetic|
                self.pending() is Literal && (a.literal)(self.pending()->Literal_0@) == parsed
                    ==> #[trigger] ev.answer(final(mem)@, a) == self.answer(old(mem)@, a),
    {
        match self.request {
            Request::Literal(_) => {
                let r = parse_numeric(&self.run, parsed, mem);
                drive(self.frames, Task::Return(r), mem)
            },
            _ => self,
        }
    }

    /// Goes on with the host's answer to a request to apply an operator:
    /// `value` is the result. An answer that was not asked for changes
    /// nothing.
    pub fn applied(self, value: u32, mem: &mut Memory) -> (ev: Evaluation)
        ensures
            !(self.pending() is Apply) ==> ev == self && final(mem)@ == old(mem)@,
            self.pending() is Apply ==> ev.effort() < self.effort(),
            self.reads_only() ==> ev.reads_only() && final(mem)@ == old(mem)@,
            forall|a: Arithmetic|
                self.pending() matches Request::Apply(op, left, right) && (a.binary)(
                    op,
                    left,
                    right,
                ) == value ==> #[trigger] ev.answer(final(mem)@, a) == self.answer(old(mem)@, a),
    {
        match self.request {
            Request::Apply(_, _, _) => drive(self.frames, Task::Return(Response::ok(value)), mem),
            _ => self,
        }
    }

    /// Answers the requests of the evaluation with `read` and `apply` until
    /// it is finished, and hands out the response it ends with. For every
    /// arithmetic that the two functions compute, the response and the memory
    /// are those that [`Evaluation::answer`] says.
    pub fn finish<L, B>(self, mem: &mut Memory, read: &L, apply: &B) -> (r: Response<u32>) where
        L: Fn(&str) -> Option<u32>,
        B: Fn(Operator, u32, u32) -> u32,

        requires
            forall|text: &str| call_requires(*read, (text,)),
            forall|op: Operator, left: u32, right: u32| call_requires(*apply, (op, left, right)),
        ensures
            forall|a: Arithmetic|
                reads_as(*read, a) && applies_as(*apply, a) ==> #[trigger] self.answer(
                    old(mem)@,
                    a,
                ) == (Outcome { response: r, memory: final(mem)@ }),
            self.reads_only() ==> final(mem)@ == old(mem)@,
    {
        let mut ev = self;
        loop
            invariant
                forall|text: &str| call_requires(*read, (text,)),
                forall|op: Operator, left: u32, right: u32|
                    call_requires(*apply, (op, left, right)),
                forall|a: Arithmetic|
                    reads_as(*read, a) && applies_as(*apply, a) ==> #[trigger] ev.answer(mem@, a)
                        == self.answer(old(mem)@, a),
                self.reads_only() ==> ev.reads_only() && mem@ == old(mem)@,
            decreases ev.effort(),
        {
            let ghost before = ev;
            let ghost m = mem@;
            match ev.request {
                Request::Finished(r) => {
                    proof {
                        assert forall|a: Arithmetic|
                            reads_as(*read, a) && applies_as(*apply, a) implies #[trigger]
                            self.answer(old(mem)@, a) == (Outcome { response: r, memory: mem@ }) by {
                            assert(ev.answer(mem@, a) == self.answer(old(mem)@, a));
                        }
                    }
                    return r;
                },
                Request::Literal(ref text) => {
                    let parsed = read(text.as_str());
                    ev = ev.literal(parsed, mem);
                },
                Request::Apply(op, left, right) => {
                    let value = apply(op, left, right);
                    ev = ev.applied(value, mem);
                },
            }
            proof {
                assert forall|a: Arithmetic|
                    reads_as(*read, a) && applies_as(*apply, a) implies #[trigger] ev.answer(
                    mem@,
                    a,
                ) == self.answer(old(mem)@, a) by {
                    assert(ev.answer(mem@, a) == before.answer(m, a));
                }
            }
        }
    }
}

/// The function `read` reads literals as the arithmetic `a` does.
pub open spec fn reads_as<L: Fn(&str) -> Option<u32>>(read: L, a: Arithmetic) -> bool {
    forall|text: &str, parsed: Option<u32>| #[trigger]
        call_ensures(read, (text,), parsed) ==> parsed == (a.literal)(text@)
}

/// The function `apply` applies the operators as the arithmetic `a` does.
pub open spec fn applies_as<B: Fn(Operator, u32, u32) -> u32>(apply: B, a: Arithmetic) -> bool {
    forall|op: Operator, left: u32, right: u32, value: u32| #[trigger]
        call_ensures(apply, (op, left, right), value) ==> value == (a.binary)(op, left, right)
}

/// The value of the run `input`, given what the host made of it as a
/// literal: the literal's number, or else what the variable `input` holds.
pub fn parse_numeric(input: &String, parsed: Option<u32>, mem: &Memory) -> (r: Response<u32>)
    ensures
        r == numeric(input@, parsed, mem@),
{
    match parsed {
        Some(value) => Response::ok(value),
        None => resolve_var(input, mem),
    }
}

impl Evaluation {
    /// Begins to resolve a sequence of tokens. The evaluation ends with what
    /// the tokens resolve to, and leaves the memory as it is.
    pub fn of_tokens(tokens: Vec<Token>, mem: &mut Memory) -> (ev: Evaluation)
        ensures
            forall|a: Arithmetic| #[trigger]
                ev.answer(final(mem)@, a) == (Outcome {
                    response: value_of_clauses(clauses_of(tokens@), old(mem)@, a),
                    memory: old(mem)@,
                }),
            ev.effort() <= 6 * flatten(clauses_of(tokens@)).len() + 3,
            ev.reads_only(),
            final(mem)@ == old(mem)@,
    {
        drive(Vec::new(), Task::Tokens(tokens), mem)
    }

    /// Begins to evaluate a text as an expression. The evaluation ends with
    /// the value of the text, and leaves the memory as it is.
    pub fn of_text(text: &String, mem: &mut Memory) -> (ev: Evaluation)
        ensures
            forall|a: Arithmetic| #[trigger]
                ev.answer(final(mem)@, a) == (Outcome {
                    response: value_of_text(text@, old(mem)@, a),
                    memory: old(mem)@,
                }),
            ev.effort() <= 6 * text@.len() + 4,
            ev.reads_only(),
            final(mem)@ == old(mem)@,
    {
        drive(Vec::new(), Task::Text(text.clone()), mem)
    }

    /// Begins to read a line as a definition. The evaluation ends as
    /// [`outcome_of_definition`] says.
    pub fn of_definition(line: &String, mem: &mut Memory) -> (ev: Evaluation)
        ensures
            forall|a: Arithmetic| #[trigger]
                ev.answer(final(mem)@, a) == outcome_of_definition(line@, old(mem)@, a),
            ev.effort() <= 6 * line@.len() + 2,
    {
        drive(Vec::new(), Task::Definition(line.clone()), mem)
    }

    /// Begins to evaluate a line at the dispatcher. The evaluation ends as
    /// [`outcome_of_input`] says.
    pub fn of_input(line: &String, mem: &mut Memory) -> (ev: Evaluation)
        ensures
            forall|a: Arithmetic| #[trigger]
                ev.answer(final(mem)@, a) == outcome_of_input(line@, old(mem)@, a),
            ev.effort() <= 12 * line@.len() + 7,
    {
        if line.as_str().unicode_len() == 0 {
            return Evaluation {
                frames: Vec::new(),
                request: Request::Finished(Response::err(STATUS_CONTINUE)),
                run: String::new(),
            };
        }
        let mut frames: Vec<Frame> = Vec::new();
        proof {
            let frame = Frame::Assign { input: *line };
            lemma_effort_push(frames@, frame);
            assert forall|a: Arithmetic| #[trigger]
                denote(Task::Definition(*line), frames@.push(frame), old(mem)@, a)
                    == outcome_of_input(line@, old(mem)@, a) by {
                let d = outcome_of_definition(line@, old(mem)@, a);
                lemma_unwind_push(frames@, frame, d.response, d.memory, a);
            }
        }
        frames.push(Frame::Assign { input: line.clone() });
        drive(frames, Task::Definition(line.clone()), mem)
    }
}

} // verus!
