//! Cutting a line into clauses: numbers, parenthesized groups and operators.

use vstd::prelude::*;
use vstd::string::StringExecFns;
use vstd::string::StrSliceExecFns;
use crate::balance::{balanced, depth, is_plain, lemma_depth_concat, lemma_depth_next};
use crate::status::STATUS_OK;
use crate::text::chars_of;

verus! {

/// What a clause is.
#[derive(Clone, Copy, Debug, PartialEq, Eq, Structural)]
pub enum TokenKind {
    /// A run of characters that stands for a number: a literal or a variable's name.
    Number,
    /// What stood between a parenthesis and the one that closes it.
    Group,
    /// One operator character.
    Operator,
    /// The name of a function.
    Symbol,
}

/// One clause of a line, with the text it was cut from.
#[derive(Debug, PartialEq, Eq)]
pub struct Token {
    pub kind: TokenKind,
    pub text: String,
}

/// A clause as the contracts see it.
pub struct Clause {
    pub kind: TokenKind,
    pub text: Seq<char>,
}

impl View for Token {
    type V = Clause;

    open spec fn view(&self) -> Clause {
        Clause { kind: self.kind, text: self.text@ }
    }
}

impl Token {
    /// A clause of the given kind and text.
    pub fn new(kind: TokenKind, text: String) -> (t: Token)
        ensures
            t@ == (Clause { kind, text: text@ }),
    {
        Token { kind, text }
    }
}

/// The clauses that a sequence of tokens stands for.
pub open spec fn clauses_of(tokens: Seq<Token>) -> Seq<Clause> {
    tokens.map_values(|t: Token| t@)
}

/// The operators that end a run wherever they stand.
pub open spec fn is_plain_operator(c: char) -> bool {
    c == '^' || c == '*' || c == '/' || c == '%' || c == '+'
}

/// A character that cannot continue a run: an opening parenthesis or an
/// operator, the minus sign among them.
pub open spec fn ends_run(c: char) -> bool {
    c == '(' || c == '-' || is_plain_operator(c)
}

/// The position of the parenthesis that closes `level` open ones, looking
/// from `from` on; the length of `s` if there is none.
pub open spec fn closing(s: Seq<char>, from: int, level: int) -> int
    decreases s.len() - from,
{
    if from < 0 || from >= s.len() {
        s.len() as int
    } else if s[from] == ')' {
        if level <= 1 {
            from
        } else {
            closing(s, from + 1, level - 1)
        }
    } else if s[from] == '(' {
        closing(s, from + 1, level + 1)
    } else {
        closing(s, from + 1, level)
    }
}

/// The first position from `from` on that holds a character which ends a
/// run; the length of `s` if there is none.
pub open spec fn run_end(s: Seq<char>, from: int) -> int
    decreases s.len() - from,
{
    if from < 0 || from >= s.len() {
        s.len() as int
    } else if ends_run(s[from]) {
        from
    } else {
        run_end(s, from + 1)
    }
}

/// The clauses of `s` from position `from` on, where `from` lies outside
/// every group.
///
/// An opening parenthesis starts a group, which reaches to the parenthesis
/// that closes it. One of `^ * / % +` is an operator. Anything else starts a
/// run, a minus sign too: there it is a sign. A run ends before the next
/// parenthesis or operator; a minus sign that ends a run is an operator.
pub open spec fn clauses_from(s: Seq<char>, from: int) -> Seq<Clause>
    decreases s.len() - from,
    via clauses_from_decreases
{
    if from < 0 || from >= s.len() {
        Seq::empty()
    } else if s[from] == '(' {
        let close = closing(s, from + 1, 1);
        let group = Clause { kind: TokenKind::Group, text: s.subrange(from + 1, close) };
        if close < s.len() {
            seq![group] + clauses_from(s, close + 1)
        } else {
            seq![group]
        }
    } else if is_plain_operator(s[from]) {
        seq![Clause { kind: TokenKind::Operator, text: s.subrange(from, from + 1) }]
            + clauses_from(s, from + 1)
    } else {
        let end = run_end(s, from + 1);
        let run = Clause { kind: TokenKind::Number, text: s.subrange(from, end) };
        if end < s.len() && s[end] == '-' {
            seq![run, Clause { kind: TokenKind::Operator, text: s.subrange(end, end + 1) }]
                + clauses_from(s, end + 1)
        } else {
            seq![run] + clauses_from(s, end)
        }
    }
}

#[via_fn]
proof fn clauses_from_decreases(s: Seq<char>, from: int) {
    if 0 <= from < s.len() {
        lemma_closing_bounds(s, from + 1, 1);
        lemma_run_end_bounds(s, from + 1);
    }
}

/// The clauses of a whole line.
pub open spec fn clauses(s: Seq<char>) -> Seq<Clause> {
    clauses_from(s, 0)
}

/// Where `closing` lies.
pub proof fn lemma_closing_bounds(s: Seq<char>, from: int, level: int)
    requires
        0 <= from <= s.len(),
    ensures
        from <= closing(s, from, level) <= s.len(),
    decreases s.len() - from,
{
    if from < s.len() {
        if s[from] == ')' {
            if level > 1 {
                lemma_closing_bounds(s, from + 1, level - 1);
            }
        } else if s[from] == '(' {
            lemma_closing_bounds(s, from + 1, level + 1);
        } else {
            lemma_closing_bounds(s, from + 1, level);
        }
    }
}

/// Where `run_end` lies.
pub proof fn lemma_run_end_bounds(s: Seq<char>, from: int)
    requires
        0 <= from <= s.len(),
    ensures
        from <= run_end(s, from) <= s.len(),
    decreases s.len() - from,
{
    if from < s.len() && !ends_run(s[from]) {
        lemma_run_end_bounds(s, from + 1);
    }
}

/// The text that a clause was cut from: a group with its two parentheses,
/// any other clause as it is.
pub open spec fn source(c: Clause) -> Seq<char> {
    if c.kind == TokenKind::Group {
        seq!['('] + c.text + seq![')']
    } else {
        c.text
    }
}

/// The texts that the clauses were cut from, one after the other.
pub open spec fn flatten(cs: Seq<Clause>) -> Seq<char>
    decreases cs.len(),
{
    if cs.len() == 0 {
        Seq::empty()
    } else {
        source(cs[0]) + flatten(cs.drop_first())
    }
}

/// Flattening clauses that follow a first one.
pub proof fn lemma_flatten_cons(c: Clause, rest: Seq<Clause>)
    ensures
        flatten(seq![c] + rest) == source(c) + flatten(rest),
{
    assert((seq![c] + rest).drop_first() =~= rest);
}

/// A single clause flattens to the text it was cut from.
pub proof fn lemma_flatten_single(cs: Seq<Clause>)
    requires
        cs.len() == 1,
    ensures
        flatten(cs) == source(cs[0]),
{
    lemma_flatten_cons(cs[0], Seq::empty());
    assert(cs =~= seq![cs[0]] + Seq::<Clause>::empty());
    assert(source(cs[0]) + flatten(Seq::<Clause>::empty()) =~= source(cs[0]));
}

/// Flattening two sequences of clauses in a row.
pub proof fn lemma_flatten_concat(a: Seq<Clause>, b: Seq<Clause>)
    ensures
        flatten(a + b) == flatten(a) + flatten(b),
    decreases a.len(),
{
    if a.len() == 0 {
        assert(a + b =~= b);
        assert(flatten(a) + flatten(b) =~= flatten(b));
    } else {
        lemma_flatten_concat(a.drop_first(), b);
        assert((a + b).drop_first() =~= a.drop_first() + b);
        assert(flatten(a + b) =~= flatten(a) + flatten(b));
    }
}

/// In a line whose parentheses balance, the parenthesis that closes a group
/// exists, and the line is outside every group again right after it.
pub proof fn lemma_closing_depth(s: Seq<char>, from: int, level: int)
    requires
        balanced(s),
        0 <= from <= s.len(),
        level >= 1,
        level == depth(s.take(from)),
    ensures
        from <= closing(s, from, level) < s.len(),
        s[closing(s, from, level)] == ')',
        depth(s.take(closing(s, from, level) + 1)) == 0,
    decreases s.len() - from,
{
    if from == s.len() {
        assert(s.take(from) =~= s);
    } else {
        lemma_depth_next(s, from);
        if s[from] == ')' {
            if level > 1 {
                lemma_closing_depth(s, from + 1, level - 1);
            }
        } else if s[from] == '(' {
            lemma_closing_depth(s, from + 1, level + 1);
        } else {
            lemma_closing_depth(s, from + 1, level);
        }
    }
}

/// In a line whose parentheses balance, a run that starts outside every
/// group ends outside every group.
pub proof fn lemma_run_depth(s: Seq<char>, from: int)
    requires
        balanced(s),
        0 <= from <= s.len(),
        depth(s.take(from)) == 0,
    ensures
        from <= run_end(s, from) <= s.len(),
        depth(s.take(run_end(s, from))) == 0,
    decreases s.len() - from,
{
    if from < s.len() && !ends_run(s[from]) {
        lemma_depth_next(s, from);
        assert(depth(s.take(from + 1)) >= 0);
        lemma_run_depth(s, from + 1);
    }
}

/// From a position outside every group on, the clauses of a line whose
/// parentheses balance flatten to the rest of the line.
pub proof fn lemma_clauses_from_lossless(s: Seq<char>, from: int)
    requires
        balanced(s),
        0 <= from <= s.len(),
        depth(s.take(from)) == 0,
    ensures
        flatten(clauses_from(s, from)) == s.subrange(from, s.len() as int),
    decreases s.len() - from,
{
    let n = s.len() as int;
    if from == n {
        assert(flatten(clauses_from(s, from)) =~= s.subrange(from, n));
    } else {
        lemma_depth_next(s, from);
        assert(depth(s.take(from + 1)) >= 0);
        if s[from] == '(' {
            lemma_closing_depth(s, from + 1, 1);
            let close = closing(s, from + 1, 1);
            let group = Clause { kind: TokenKind::Group, text: s.subrange(from + 1, close) };
            lemma_clauses_from_lossless(s, close + 1);
            lemma_flatten_cons(group, clauses_from(s, close + 1));
            assert(source(group) + s.subrange(close + 1, n) =~= s.subrange(from, n));
        } else if is_plain_operator(s[from]) {
            let op = Clause { kind: TokenKind::Operator, text: s.subrange(from, from + 1) };
            lemma_clauses_from_lossless(s, from + 1);
            lemma_flatten_cons(op, clauses_from(s, from + 1));
            assert(source(op) + s.subrange(from + 1, n) =~= s.subrange(from, n));
        } else {
            lemma_run_depth(s, from + 1);
            let end = run_end(s, from + 1);
            let run = Clause { kind: TokenKind::Number, text: s.subrange(from, end) };
            if end < n && s[end] == '-' {
                let op = Clause { kind: TokenKind::Operator, text: s.subrange(end, end + 1) };
                lemma_depth_next(s, end);
                lemma_clauses_from_lossless(s, end + 1);
                assert(seq![run, op] + clauses_from(s, end + 1) =~= seq![run] + (seq![op]
                    + clauses_from(s, end + 1)));
                lemma_flatten_cons(op, clauses_from(s, end + 1));
                lemma_flatten_cons(run, seq![op] + clauses_from(s, end + 1));
                assert(source(run) + (source(op) + s.subrange(end + 1, n)) =~= s.subrange(
                    from,
                    n,
                ));
            } else {
                lemma_clauses_from_lossless(s, end);
                lemma_flatten_cons(run, clauses_from(s, end));
                assert(source(run) + s.subrange(end, n) =~= s.subrange(from, n));
            }
        }
    }
}

/// Cutting loses nothing: the clauses of a line whose parentheses balance,
/// each group put back between its parentheses, make up the line again.
pub proof fn lemma_clauses_lossless(s: Seq<char>)
    requires
        balanced(s),
    ensures
        flatten(clauses(s)) == s,
{
    assert(s.take(0) =~= Seq::<char>::empty());
    lemma_clauses_from_lossless(s, 0);
    assert(s.subrange(0, s.len() as int) =~= s);
}

/// One of the six operator characters.
pub open spec fn is_operator_char(c: char) -> bool {
    c == '-' || is_plain_operator(c)
}

/// The shape of a clause that was cut from a line. A run is not empty and
/// holds no parenthesis and no operator, but for a minus sign at its very
/// start. The parentheses of a group's text balance. An operator is one
/// operator character. No clause is a symbol.
pub open spec fn well_cut(c: Clause) -> bool {
    match c.kind {
        TokenKind::Number => {
            &&& c.text.len() > 0
            &&& forall|i: int|
                0 <= i < c.text.len() ==> is_plain(#[trigger] c.text[i]) && !is_plain_operator(
                    c.text[i],
                )
            &&& forall|i: int| 1 <= i < c.text.len() ==> #[trigger] c.text[i] != '-'
        },
        TokenKind::Group => balanced(c.text),
        TokenKind::Operator => c.text.len() == 1 && is_operator_char(c.text[0]),
        TokenKind::Symbol => false,
    }
}

/// Inside a group of a line whose parentheses balance: from a position of
/// depth `level` on, the depth stays above zero up to the parenthesis that
/// closes the group, before which it is one.
pub proof fn lemma_closing_inside(s: Seq<char>, from: int, level: int)
    requires
        balanced(s),
        0 <= from <= s.len(),
        level >= 1,
        level == depth(s.take(from)),
    ensures
        from <= closing(s, from, level) < s.len(),
        depth(s.take(closing(s, from, level))) == 1,
        forall|k: int| from <= k <= closing(s, from, level) ==> depth(#[trigger] s.take(k)) >= 1,
    decreases s.len() - from,
{
    lemma_closing_depth(s, from, level);
    if from < s.len() {
        lemma_depth_next(s, from);
        if s[from] == ')' {
            if level > 1 {
                lemma_closing_inside(s, from + 1, level - 1);
            }
        } else if s[from] == '(' {
            lemma_closing_inside(s, from + 1, level + 1);
        } else {
            lemma_closing_inside(s, from + 1, level);
        }
    }
}

/// The text of a group of a line whose parentheses balance is balanced.
pub proof fn lemma_group_balanced(s: Seq<char>, from: int)
    requires
        balanced(s),
        0 <= from < s.len(),
        s[from] == '(',
        depth(s.take(from)) == 0,
    ensures
        balanced(s.subrange(from + 1, closing(s, from + 1, 1))),
{
    lemma_depth_next(s, from);
    lemma_closing_inside(s, from + 1, 1);
    let close = closing(s, from + 1, 1);
    let text = s.subrange(from + 1, close);
    assert forall|k: int| 0 <= k <= text.len() implies depth(#[trigger] text.take(k)) == depth(
        s.take(from + 1 + k),
    ) - 1 by {
        lemma_depth_concat(s.take(from + 1), text.take(k));
        assert(s.take(from + 1 + k) =~= s.take(from + 1) + text.take(k));
    }
    assert(text.take(text.len() as int) =~= text);
}

/// A run of a line whose parentheses balance that goes on outside every
/// group holds, up to its end, no parenthesis and no operator.
pub proof fn lemma_run_inside(s: Seq<char>, from: int)
    requires
        balanced(s),
        0 <= from <= s.len(),
        depth(s.take(from)) == 0,
    ensures
        forall|k: int|
            from <= k < run_end(s, from) ==> is_plain(#[trigger] s[k]) && !is_operator_char(s[k]),
    decreases s.len() - from,
{
    if from < s.len() && !ends_run(s[from]) {
        lemma_depth_next(s, from);
        assert(depth(s.take(from + 1)) >= 0);
        lemma_run_inside(s, from + 1);
    }
}

/// All clauses are well cut.
pub open spec fn all_well_cut(cs: Seq<Clause>) -> bool {
    forall|i: int| 0 <= i < cs.len() ==> well_cut(#[trigger] cs[i])
}

/// A well-cut clause before well-cut clauses.
proof fn lemma_well_cut_cons(c: Clause, rest: Seq<Clause>)
    requires
        well_cut(c),
        all_well_cut(rest),
    ensures
        all_well_cut(seq![c] + rest),
{
    let cs = seq![c] + rest;
    assert forall|i: int| 0 <= i < cs.len() implies well_cut(#[trigger] cs[i]) by {
        if i > 0 {
            assert(cs[i] == rest[i - 1]);
        }
    }
}

/// From a position outside every group on, every clause of a line whose
/// parentheses balance is well cut.
pub proof fn lemma_clauses_from_well_cut(s: Seq<char>, from: int)
    requires
        balanced(s),
        0 <= from <= s.len(),
        depth(s.take(from)) == 0,
    ensures
        all_well_cut(clauses_from(s, from)),
    decreases s.len() - from,
{
    let n = s.len() as int;
    if from < n {
        lemma_depth_next(s, from);
        assert(depth(s.take(from + 1)) >= 0);
        if s[from] == '(' {
            lemma_closing_depth(s, from + 1, 1);
            lemma_group_balanced(s, from);
            let close = closing(s, from + 1, 1);
            let group = Clause { kind: TokenKind::Group, text: s.subrange(from + 1, close) };
            lemma_clauses_from_well_cut(s, close + 1);
            lemma_well_cut_cons(group, clauses_from(s, close + 1));
        } else if is_plain_operator(s[from]) {
            let op = Clause { kind: TokenKind::Operator, text: s.subrange(from, from + 1) };
            lemma_clauses_from_well_cut(s, from + 1);
            lemma_well_cut_cons(op, clauses_from(s, from + 1));
        } else {
            lemma_run_depth(s, from + 1);
            lemma_run_inside(s, from + 1);
            let end = run_end(s, from + 1);
            let run = Clause { kind: TokenKind::Number, text: s.subrange(from, end) };
            assert(well_cut(run)) by {
                assert forall|i: int| 0 <= i < run.text.len() implies is_plain(
                    #[trigger] run.text[i],
                ) && !is_plain_operator(run.text[i]) by {
                    assert(run.text[i] == s[from + i]);
                }
                assert forall|i: int| 1 <= i < run.text.len() implies #[trigger] run.text[i]
                    != '-' by {
                    assert(run.text[i] == s[from + i]);
                }
            }
            if end < n && s[end] == '-' {
                let op = Clause { kind: TokenKind::Operator, text: s.subrange(end, end + 1) };
                lemma_depth_next(s, end);
                lemma_clauses_from_well_cut(s, end + 1);
                lemma_well_cut_cons(op, clauses_from(s, end + 1));
                lemma_well_cut_cons(run, seq![op] + clauses_from(s, end + 1));
                assert(seq![run, op] + clauses_from(s, end + 1) =~= seq![run] + (seq![op]
                    + clauses_from(s, end + 1)));
            } else {
                lemma_clauses_from_well_cut(s, end);
                lemma_well_cut_cons(run, clauses_from(s, end));
            }
        }
    }
}

/// Every clause of a line whose parentheses balance is well cut.
pub proof fn lemma_clauses_well_cut(s: Seq<char>)
    requires
        balanced(s),
    ensures
        all_well_cut(clauses(s)),
{
    assert(s.take(0) =~= Seq::<char>::empty());
    lemma_clauses_from_well_cut(s, 0);
}

/// Finds the parenthesis that closes the group opened just before `from`.
fn find_closing(chars: &Vec<char>, from: usize) -> (close: usize)
    requires
        from <= chars.len(),
    ensures
        close == closing(chars@, from as int, 1),
        from <= close <= chars.len(),
{
    let mut j: usize = from;
    let mut inner: usize = 0;
    while j < chars.len()
        invariant
            from <= j <= chars.len(),
            inner <= j - from,
            closing(chars@, from as int, 1) == closing(chars@, j as int, inner + 1),
        decreases chars.len() - j,
    {
        let c = chars[j];
        if c == ')' {
            if inner == 0 {
                return j;
            }
            inner -= 1;
        } else if c == '(' {
            inner += 1;
        }
        j += 1;
    }
    j
}

/// Finds where the run that is under way at `from` ends.
fn find_run_end(chars: &Vec<char>, from: usize) -> (end: usize)
    requires
        from <= chars.len(),
    ensures
        end == run_end(chars@, from as int),
        from <= end <= chars.len(),
{
    let mut j: usize = from;
    while j < chars.len()
        invariant
            from <= j <= chars.len(),
            run_end(chars@, from as int) == run_end(chars@, j as int),
        decreases chars.len() - j,
    {
        let c = chars[j];
        if c == '(' || c == '-' || c == '^' || c == '*' || c == '/' || c == '%' || c == '+' {
            return j;
        }
        j += 1;
    }
    j
}

/// Cuts out the characters of `input` from `from` up to `to` as a clause.
fn cut(input: &str, kind: TokenKind, from: usize, to: usize) -> (t: Token)
    requires
        from <= to <= input@.len(),
    ensures
        t@ == (Clause { kind, text: input@.subrange(from as int, to as int) }),
{
    Token { kind, text: String::from_str(input.substring_char(from, to)) }
}

/// Cuts a line whose parentheses balance into its clauses, from left to
/// right. The status that comes with them is always [`STATUS_OK`].
pub fn find_clauses_but_better(input: &String) -> (r: (u8, Vec<Token>))
    requires
        balanced(input@),
    ensures
        r.0 == STATUS_OK,
        clauses_of(r.1@) == clauses(input@),
        flatten(clauses_of(r.1@)) == input@,
        all_well_cut(clauses_of(r.1@)),
{
    let line = input.as_str();
    let chars = chars_of(line);
    let mut res: Vec<Token> = Vec::new();
    let mut i: usize = 0;
    while i < chars.len()
        invariant
            chars@ == input@,
            line@ == input@,
            i <= chars.len(),
            clauses(input@) == clauses_of(res@) + clauses_from(input@, i as int),
        decreases chars.len() - i,
    {
        let ghost before = clauses_of(res@);
        let c = chars[i];
        if c == '(' {
            let close = find_closing(&chars, i + 1);
            res.push(cut(line, TokenKind::Group, i + 1, close));
            proof {
                assert(clauses_of(res@) =~= before + seq![
                    Clause { kind: TokenKind::Group, text: input@.subrange(i + 1, close as int) },
                ]);
            }
            if close == chars.len() {
                proof {
                    assert(clauses(input@) =~= clauses_of(res@) + clauses_from(
                        input@,
                        close as int,
                    ));
                }
                i = close;
            } else {
                proof {
                    assert(clauses(input@) =~= clauses_of(res@) + clauses_from(input@, close + 1));
                }
                i = close + 1;
            }
        } else if c == '^' || c == '*' || c == '/' || c == '%' || c == '+' {
            res.push(cut(line, TokenKind::Operator, i, i + 1));
            proof {
                assert(clauses_of(res@) =~= before + seq![
                    Clause { kind: TokenKind::Operator, text: input@.subrange(i as int, i + 1) },
                ]);
                assert(clauses(input@) =~= clauses_of(res@) + clauses_from(input@, i + 1));
            }
            i += 1;
        } else {
            let end = find_run_end(&chars, i + 1);
            res.push(cut(line, TokenKind::Number, i, end));
            let ghost run = Clause {
                kind: TokenKind::Number,
                text: input@.subrange(i as int, end as int),
            };
            proof {
                assert(clauses_of(res@) =~= before + seq![run]);
            }
            if end < chars.len() && chars[end] == '-' {
                res.push(cut(line, TokenKind::Operator, end, end + 1));
                proof {
                    assert(clauses_of(res@) =~= before + seq![
                        run,
                        Clause {
                            kind: TokenKind::Operator,
                            text: input@.subrange(end as int, end + 1),
                        },
                    ]);
                    assert(clauses(input@) =~= clauses_of(res@) + clauses_from(input@, end + 1));
                }
                i = end + 1;
            } else {
                proof {
                    assert(clauses(input@) =~= clauses_of(res@) + clauses_from(
                        input@,
                        end as int,
                    ));
                }
                i = end;
            }
        }
    }
    proof {
        assert(clauses(input@) =~= clauses_of(res@));
        lemma_clauses_lossless(input@);
        lemma_clauses_well_cut(input@);
    }
    (STATUS_OK, res)
}

} // verus!
