use michaelator::balance::is_balanced_eq;
use michaelator::clause::{find_clauses_but_better, Token, TokenKind};

fn cut(s: &str) -> Vec<(TokenKind, String)> {
    let line = String::from(s);
    assert!(is_balanced_eq(&line));
    let (status, tokens) = find_clauses_but_better(&line);
    assert_eq!(status, 0x00);
    tokens.into_iter().map(|t| (t.kind, t.text)).collect()
}

fn number(s: &str) -> (TokenKind, String) {
    (TokenKind::Number, String::from(s))
}

fn group(s: &str) -> (TokenKind, String) {
    (TokenKind::Group, String::from(s))
}

fn operator(s: &str) -> (TokenKind, String) {
    (TokenKind::Operator, String::from(s))
}

fn put_back(tokens: &Vec<(TokenKind, String)>) -> String {
    let mut line = String::new();
    for (kind, text) in tokens {
        if *kind == TokenKind::Group {
            line.push('(');
            line.push_str(text);
            line.push(')');
        } else {
            line.push_str(text);
        }
    }
    line
}

#[test]
fn empty_line_has_no_clauses() {
    assert_eq!(cut(""), vec![]);
}

#[test]
fn single_number() {
    assert_eq!(cut("42"), vec![number("42")]);
}

#[test]
fn numbers_and_operators_alternate() {
    assert_eq!(
        cut("2+3*4"),
        vec![number("2"), operator("+"), number("3"), operator("*"), number("4")]
    );
}

#[test]
fn every_plain_operator_is_a_clause() {
    assert_eq!(
        cut("a^b*c/d%e+f"),
        vec![
            number("a"),
            operator("^"),
            number("b"),
            operator("*"),
            number("c"),
            operator("/"),
            number("d"),
            operator("%"),
            number("e"),
            operator("+"),
            number("f"),
        ]
    );
}

#[test]
fn leading_minus_is_a_sign() {
    assert_eq!(cut("-3+2"), vec![number("-3"), operator("+"), number("2")]);
}

#[test]
fn minus_after_a_run_is_an_operator() {
    assert_eq!(cut("3-2"), vec![number("3"), operator("-"), number("2")]);
    assert_eq!(cut("a-3"), vec![number("a"), operator("-"), number("3")]);
}

#[test]
fn minus_after_an_operator_is_a_sign() {
    assert_eq!(cut("2*-3"), vec![number("2"), operator("*"), number("-3")]);
}

#[test]
fn two_minus_signs() {
    assert_eq!(cut("--3"), vec![number("-"), operator("-"), number("3")]);
    assert_eq!(cut("3--2"), vec![number("3"), operator("-"), number("-2")]);
}

#[test]
fn minus_after_a_group_starts_a_run() {
    assert_eq!(cut("(1)-3"), vec![group("1"), number("-3")]);
}

#[test]
fn group_is_cut_without_its_parentheses() {
    assert_eq!(cut("(1+2)*3"), vec![group("1+2"), operator("*"), number("3")]);
}

#[test]
fn nested_group_is_kept_whole() {
    assert_eq!(cut("((1+2)*3)-4"), vec![group("(1+2)*3"), number("-4")]);
    assert_eq!(cut("2*((a))"), vec![number("2"), operator("*"), group("(a)")]);
}

#[test]
fn empty_group() {
    assert_eq!(cut("()"), vec![group("")]);
}

#[test]
fn run_before_a_group_is_flushed() {
    assert_eq!(cut("f(2)"), vec![number("f"), group("2")]);
    assert_eq!(cut("(1)(2)"), vec![group("1"), group("2")]);
    assert_eq!(cut("(1)2"), vec![group("1"), number("2")]);
}

#[test]
fn white_space_stays_in_the_runs() {
    assert_eq!(cut("2 + 3"), vec![number("2 "), operator("+"), number(" 3")]);
}

#[test]
fn operators_in_a_row() {
    assert_eq!(cut("+*"), vec![operator("+"), operator("*")]);
    assert_eq!(cut("2+"), vec![number("2"), operator("+")]);
}

#[test]
fn equals_sign_is_part_of_a_run() {
    assert_eq!(cut("x=5"), vec![number("x=5")]);
}

#[test]
fn characters_outside_ascii_are_counted_one_by_one() {
    assert_eq!(cut("π*(é+1)"), vec![number("π"), operator("*"), group("é+1")]);
}

#[test]
fn tokenizer_round_trip() {
    for line in [
        "",
        "2+3*4",
        "-3+2",
        "3-2",
        "(1+2)*3",
        "((1+2)*(3-4))^2",
        "--3",
        "(1)-3",
        " x + ( y ) ",
        "a%b/c",
        "()",
        "π*(é+1)",
    ] {
        assert_eq!(put_back(&cut(line)), line);
    }
}

#[test]
fn token_new_keeps_kind_and_text() {
    let t = Token::new(TokenKind::Symbol, String::from("f"));
    assert_eq!(t.kind, TokenKind::Symbol);
    assert_eq!(t.text, "f");
}
