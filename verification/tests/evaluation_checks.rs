use michaelator::clause::{Token, TokenKind};
use michaelator::calculator::{parse_def, parse_eq, parse_input, resolve_eq};
use michaelator::engine::{parse_numeric, Evaluation, Request};
use michaelator::memory::{FunDef, Memory};
use michaelator::operator::Operator;
use michaelator::status::Response;

fn read(text: &str) -> Option<u32> {
    text.parse::<f32>().ok().map(f32::to_bits)
}

fn apply(op: Operator, left: u32, right: u32) -> u32 {
    let l = f32::from_bits(left);
    let r = f32::from_bits(right);
    let value = match op {
        Operator::Power => l.powf(r),
        Operator::Multiply => l * r,
        Operator::Divide => l / r,
        Operator::Remainder => l % r,
        Operator::Add => l + r,
        Operator::Subtract => l - r,
    };
    value.to_bits()
}

fn finish(mut ev: Evaluation, mem: &mut Memory) -> (Response<u32>, usize) {
    let mut requests = 0;
    loop {
        let (parsed, value) = match ev.request() {
            Request::Literal(text) => (Some(read(text)), None),
            Request::Apply(op, left, right) => (None, Some(apply(*op, *left, *right))),
            Request::Finished(r) => {
                return (Response { status: r.status, value: r.value }, requests);
            }
        };
        requests += 1;
        ev = match (parsed, value) {
            (Some(parsed), _) => ev.literal(parsed, mem),
            (_, Some(value)) => ev.applied(value, mem),
            _ => unreachable!(),
        };
    }
}

fn line(mem: &mut Memory, input: &str) -> (u8, f32) {
    let r = parse_input(&String::from(input), mem, &read, &apply);
    (r.status, f32::from_bits(r.value))
}

fn expression(mem: &mut Memory, input: &str) -> (u8, f32) {
    let r = parse_eq(&String::from(input), mem, &read, &apply);
    (r.status, f32::from_bits(r.value))
}

fn definition(mem: &mut Memory, input: &str) -> (u8, f32) {
    let r = parse_def(&String::from(input), mem, &read, &apply);
    (r.status, f32::from_bits(r.value))
}

fn stepped(mem: &mut Memory, input: &str) -> (u8, f32) {
    let ev = Evaluation::of_input(&String::from(input), mem);
    let (r, _) = finish(ev, mem);
    (r.status, f32::from_bits(r.value))
}

fn variable(mem: &Memory, name: &str) -> Option<f32> {
    mem.get(name).map(f32::from_bits)
}

#[test]
fn answering_step_by_step_gives_the_same() {
    for input in [
        "2+3*4", "2+3^2", "8-3-2", "(1+2)*3", "q+1", "1+q", "z=2^3", "1/0", "0/0", "(1", "ok", "",
        "1x=5", "z = (1+2)*(3+4)",
    ] {
        let mut by_steps = Memory::new();
        let mut at_once = Memory::new();
        let (status, value) = stepped(&mut by_steps, input);
        let (status2, value2) = line(&mut at_once, input);
        assert_eq!((status, value.to_bits()), (status2, value2.to_bits()), "{:?}", input);
        assert_eq!(by_steps.get("z"), at_once.get("z"));
        assert_eq!(by_steps.get("_"), at_once.get("_"));
    }
}

#[test]
fn finish_answers_every_request() {
    let mut mem = Memory::new();
    let ev = Evaluation::of_text(&String::from("(2+3)*4"), &mut mem);
    let r = ev.finish(&mut mem, &read, &apply);
    assert_eq!((r.status, f32::from_bits(r.value)), (0x00, 20.0));
    let ev = Evaluation::of_definition(&String::from("x=1+1"), &mut mem);
    let r = ev.finish(&mut mem, &read, &apply);
    assert_eq!((r.status, f32::from_bits(r.value)), (0x00, 2.0));
    assert_eq!(variable(&mem, "x"), Some(2.0));
}

#[test]
fn any_arithmetic_can_be_plugged_in() {
    // Whole numbers, with saturating operations.
    let read_whole = |text: &str| text.parse::<u32>().ok();
    let apply_whole = |op: Operator, l: u32, r: u32| match op {
        Operator::Power => l.saturating_pow(r),
        Operator::Multiply => l.saturating_mul(r),
        Operator::Divide => l.checked_div(r).unwrap_or(u32::MAX),
        Operator::Remainder => l.checked_rem(r).unwrap_or(0),
        Operator::Add => l.saturating_add(r),
        Operator::Subtract => l.saturating_sub(r),
    };
    let mut mem = Memory::new();
    let r = parse_eq(&String::from("2+3*4"), &mut mem, &read_whole, &apply_whole);
    assert_eq!((r.status, r.value), (0x00, 20));
    let r = parse_eq(&String::from("7/2"), &mut mem, &read_whole, &apply_whole);
    assert_eq!((r.status, r.value), (0x00, 3));
    let r = parse_eq(&String::from("1.5"), &mut mem, &read_whole, &apply_whole);
    assert_eq!(r.status, 0xFF);
}

#[test]
fn precedence_tier_law() {
    let mut mem = Memory::new();
    assert_eq!(line(&mut mem, "2+3*4"), (0x00, 20.0));
}

#[test]
fn inverted_exponent_case() {
    let mut mem = Memory::new();
    assert_eq!(line(&mut mem, "2+3^2"), (0x00, 25.0));
}

#[test]
fn assignment_round_trip() {
    let mut mem = Memory::new();
    assert_eq!(line(&mut mem, "x=5"), (0x00, 5.0));
    assert_eq!(variable(&mem, "x"), Some(5.0));
    assert_eq!(line(&mut mem, "x+1"), (0x00, 6.0));
    assert_eq!(variable(&mem, "x"), Some(5.0));
}

#[test]
fn name_validation() {
    let mut mem = Memory::new();
    assert_eq!(definition(&mut mem, "1x=5").0, 0xFF);
    assert_eq!(definition(&mut mem, "x y=5").0, 0xFF);
    assert_eq!(line(&mut mem, "1x=5").0, 0x01);
    assert_eq!(line(&mut mem, "x y=5").0, 0x01);
    assert_eq!(variable(&mem, "1x"), None);
    assert_eq!(variable(&mem, "x y"), None);
    assert_eq!(definition(&mut mem, "x_1=5"), (0x00, 5.0));
    assert_eq!(variable(&mem, "x_1"), Some(5.0));
    assert_eq!(line(&mut mem, "x_2=7"), (0x00, 7.0));
    assert_eq!(variable(&mem, "x_2"), Some(7.0));
}

#[test]
fn division_by_zero_is_infinite() {
    let mut mem = Memory::new();
    let (status, value) = line(&mut mem, "1/0");
    assert_eq!(status, 0x00);
    assert!(value.is_infinite());
    assert!(value > 0.0);
}

#[test]
fn zero_by_zero_is_not_a_number() {
    let mut mem = Memory::new();
    assert_eq!(line(&mut mem, "0/0").0, 0x02);
    assert_eq!(line(&mut mem, "0%0").0, 0x02);
}

#[test]
fn not_a_number_is_an_ordinary_value_below_the_dispatcher() {
    let mut mem = Memory::new();
    let (status, value) = expression(&mut mem, "0/0");
    assert_eq!(status, 0x00);
    assert!(value.is_nan());
    let (status, value) = expression(&mut mem, "(0/0)+1");
    assert_eq!(status, 0x00);
    assert!(value.is_nan());
    let (status, value) = definition(&mut mem, "n=0/0");
    assert_eq!(status, 0x00);
    assert!(value.is_nan());
    assert!(variable(&mem, "n").unwrap().is_nan());
}

#[test]
fn negative_base_to_fractional_power_is_not_a_number() {
    let mut mem = Memory::new();
    assert_eq!(line(&mut mem, "-8^0.5").0, 0x02);
}

#[test]
fn sign_and_subtraction() {
    let mut mem = Memory::new();
    assert_eq!(line(&mut mem, "-3+2"), (0x00, -1.0));
    assert_eq!(line(&mut mem, "3-2"), (0x00, 1.0));
    assert_eq!(line(&mut mem, "2*-3"), (0x00, -6.0));
    assert_eq!(line(&mut mem, "3--2"), (0x00, 5.0));
}

#[test]
fn each_operator_computes() {
    let mut mem = Memory::new();
    assert_eq!(line(&mut mem, "2^10"), (0x00, 1024.0));
    assert_eq!(line(&mut mem, "6*7"), (0x00, 42.0));
    assert_eq!(line(&mut mem, "7/2"), (0x00, 3.5));
    assert_eq!(line(&mut mem, "7%4"), (0x00, 3.0));
    assert_eq!(line(&mut mem, "1.5+2.25"), (0x00, 3.75));
    assert_eq!(line(&mut mem, "1-4"), (0x00, -3.0));
}

#[test]
fn split_is_at_the_leftmost_operator_of_the_tier() {
    let mut mem = Memory::new();
    // 8-(3-2), not (8-3)-2
    assert_eq!(line(&mut mem, "8-3-2"), (0x00, 7.0));
    // 16/(4/2), not (16/4)/2
    assert_eq!(line(&mut mem, "16/4/2"), (0x00, 8.0));
    // 2^(3^2)
    assert_eq!(line(&mut mem, "2^3^2"), (0x00, 512.0));
}

#[test]
fn earlier_tier_is_applied_last() {
    let mut mem = Memory::new();
    // (1+2)*(3+4)
    assert_eq!(line(&mut mem, "1+2*3+4"), (0x00, 21.0));
    // (6-2)/(1+1)
    assert_eq!(line(&mut mem, "6-2/1+1"), (0x00, 2.0));
    // (2*3)^2
    assert_eq!(line(&mut mem, "2*3^2"), (0x00, 36.0));
    // (7+1)%(2+1)
    assert_eq!(line(&mut mem, "7+1%2+1"), (0x00, 2.0));
}

#[test]
fn groups_are_evaluated_on_their_own() {
    let mut mem = Memory::new();
    assert_eq!(line(&mut mem, "2+(3*4)"), (0x00, 14.0));
    assert_eq!(line(&mut mem, "(1+2)*3"), (0x00, 9.0));
    assert_eq!(line(&mut mem, "((2))"), (0x00, 2.0));
    assert_eq!(line(&mut mem, "2^(1+(2*1))"), (0x00, 8.0));
}

#[test]
fn last_result_is_kept_under_the_underscore() {
    let mut mem = Memory::new();
    assert_eq!(variable(&mem, "_"), None);
    assert_eq!(line(&mut mem, "2+3"), (0x00, 5.0));
    assert_eq!(variable(&mem, "_"), Some(5.0));
    assert_eq!(line(&mut mem, "_*2"), (0x00, 10.0));
    assert_eq!(variable(&mem, "_"), Some(10.0));
}

#[test]
fn assignment_does_not_touch_the_last_result() {
    let mut mem = Memory::new();
    assert_eq!(line(&mut mem, "4"), (0x00, 4.0));
    assert_eq!(line(&mut mem, "y=9"), (0x00, 9.0));
    assert_eq!(variable(&mem, "_"), Some(4.0));
    assert_eq!(variable(&mem, "y"), Some(9.0));
}

#[test]
fn failed_line_leaves_the_memory_alone() {
    let mut mem = Memory::new();
    assert_eq!(line(&mut mem, "3"), (0x00, 3.0));
    assert_eq!(line(&mut mem, "q+1").0, 0x01);
    assert_eq!(line(&mut mem, "z=q+1").0, 0x01);
    assert_eq!(variable(&mem, "_"), Some(3.0));
    assert_eq!(variable(&mem, "z"), None);
}

#[test]
fn last_write_wins() {
    let mut mem = Memory::new();
    assert_eq!(line(&mut mem, "x=1"), (0x00, 1.0));
    assert_eq!(line(&mut mem, "x=x+1"), (0x00, 2.0));
    assert_eq!(variable(&mem, "x"), Some(2.0));
}

#[test]
fn name_is_trimmed_before_it_is_bound() {
    let mut mem = Memory::new();
    assert_eq!(line(&mut mem, " x =5"), (0x00, 5.0));
    assert_eq!(variable(&mem, "x"), Some(5.0));
    assert_eq!(line(&mut mem, "x*2"), (0x00, 10.0));
}

#[test]
fn name_must_not_be_empty_or_start_with_a_digit_once_trimmed() {
    let mut mem = Memory::new();
    assert_eq!(definition(&mut mem, "=5").0, 0xFF);
    assert_eq!(definition(&mut mem, "  =5").0, 0xFF);
    assert_eq!(definition(&mut mem, " 1x=5").0, 0xFF);
    assert_eq!(variable(&mem, ""), None);
    assert_eq!(variable(&mem, "1x"), None);
}

#[test]
fn definition_needs_exactly_one_equals_sign() {
    let mut mem = Memory::new();
    assert_eq!(definition(&mut mem, "5").0, 0xFF);
    assert_eq!(definition(&mut mem, "x=y=5").0, 0xFF);
    assert_eq!(definition(&mut mem, "x==5").0, 0xFF);
    assert_eq!(variable(&mem, "x"), None);
}

#[test]
fn definition_hands_on_the_failure_of_its_right_part() {
    let mut mem = Memory::new();
    assert_eq!(definition(&mut mem, "x=(1").0, 0x01);
    assert_eq!(definition(&mut mem, "x=q+1").0, 0x03);
    assert_eq!(definition(&mut mem, "x=1+q").0, 0x04);
    assert_eq!(definition(&mut mem, "x=q").0, 0xFF);
    assert_eq!(definition(&mut mem, "x=").0, 0xFF);
    assert_eq!(variable(&mem, "x"), None);
}

#[test]
fn unbalanced_text_is_an_error() {
    let mut mem = Memory::new();
    assert_eq!(expression(&mut mem, "(1+2").0, 0x01);
    assert_eq!(expression(&mut mem, ")1(").0, 0x01);
    assert_eq!(line(&mut mem, "(1+2").0, 0x01);
}

#[test]
fn left_and_right_failures_are_told_apart() {
    let mut mem = Memory::new();
    assert_eq!(expression(&mut mem, "q+1").0, 0x03);
    assert_eq!(expression(&mut mem, "1+q").0, 0x04);
    assert_eq!(expression(&mut mem, "q+r").0, 0x03);
    assert_eq!(expression(&mut mem, "+1").0, 0x03);
    assert_eq!(expression(&mut mem, "1+").0, 0x04);
}

#[test]
fn unknown_variable_is_rejected() {
    let mut mem = Memory::new();
    assert_eq!(expression(&mut mem, "q").0, 0xFF);
    assert_eq!(line(&mut mem, "q").0, 0x01);
}

#[test]
fn clauses_without_an_operator_are_rejected() {
    let mut mem = Memory::new();
    assert_eq!(expression(&mut mem, "(1)2").0, 0xFF);
    assert_eq!(expression(&mut mem, "(1)-3").0, 0xFF);
    assert_eq!(expression(&mut mem, "").0, 0xFF);
    assert_eq!(expression(&mut mem, "()").0, 0xFF);
}

#[test]
fn variable_is_looked_up_under_the_run_as_it_stands() {
    let mut mem = Memory::new();
    assert_eq!(line(&mut mem, "x=5"), (0x00, 5.0));
    assert_eq!(expression(&mut mem, "x+1"), (0x00, 6.0));
    assert_eq!(expression(&mut mem, "x +1").0, 0x03);
    assert_eq!(expression(&mut mem, "1+ x").0, 0x04);
}

#[test]
fn literal_is_read_without_the_white_space_around_it() {
    let mut mem = Memory::new();
    assert_eq!(line(&mut mem, " 2 + 3 "), (0x00, 5.0));
    assert_eq!(line(&mut mem, "1e2+.5"), (0x00, 100.5));
}

#[test]
fn literal_wins_over_a_variable_of_the_same_name() {
    let mut mem = Memory::new();
    mem.set(String::from("inf"), 1.0f32.to_bits());
    let (status, value) = line(&mut mem, "inf");
    assert_eq!(status, 0x00);
    assert!(value.is_infinite());
}

#[test]
fn empty_line_asks_for_the_next_one() {
    let mut mem = Memory::new();
    let ev = Evaluation::of_input(&String::new(), &mut mem);
    let (r, requests) = finish(ev, &mut mem);
    assert_eq!((r.status, r.value), (0x07, 0));
    assert_eq!(requests, 0);
}

#[test]
fn keywords_at_the_dispatcher() {
    let mut mem = Memory::new();
    assert_eq!(line(&mut mem, "exit").0, 0xFF);
    assert_eq!(line(&mut mem, "continue").0, 0x07);
    assert_eq!(line(&mut mem, "ok").0, 0x08);
    assert_eq!(line(&mut mem, "quit").0, 0x01);
    assert_eq!(line(&mut mem, " ok").0, 0x01);
}

#[test]
fn variable_named_like_a_keyword_is_an_expression() {
    let mut mem = Memory::new();
    assert_eq!(line(&mut mem, "ok=3"), (0x00, 3.0));
    assert_eq!(line(&mut mem, "ok"), (0x00, 3.0));
}

#[test]
fn definition_is_tried_before_expression() {
    let mut mem = Memory::new();
    mem.set(String::from("a=1"), 7.0f32.to_bits());
    assert_eq!(expression(&mut mem, "a=1"), (0x00, 7.0));
    assert_eq!(line(&mut mem, "a=1"), (0x00, 1.0));
    assert_eq!(variable(&mem, "a"), Some(1.0));
    assert_eq!(variable(&mem, "_"), None);
    // No definition: two equals signs. The line is then an expression.
    mem.set(String::from("a==1"), 9.0f32.to_bits());
    assert_eq!(line(&mut mem, "a==1"), (0x00, 9.0));
    assert_eq!(variable(&mem, "_"), Some(9.0));
}

#[test]
fn parse_numeric_prefers_the_literal() {
    let mut mem = Memory::new();
    mem.set(String::from("x"), 5.0f32.to_bits());
    let r = parse_numeric(&String::from("x"), Some(2.0f32.to_bits()), &mem);
    assert_eq!((r.status, f32::from_bits(r.value)), (0x00, 2.0));
    let r = parse_numeric(&String::from("x"), None, &mem);
    assert_eq!((r.status, f32::from_bits(r.value)), (0x00, 5.0));
    let r = parse_numeric(&String::from("y"), None, &mem);
    assert_eq!((r.status, r.value), (0xFF, 0));
}

#[test]
fn resolve_eq_on_tokens() {
    let mut mem = Memory::new();
    let tokens = vec![
        Token::new(TokenKind::Number, String::from("2")),
        Token::new(TokenKind::Operator, String::from("+")),
        Token::new(TokenKind::Group, String::from("3*4")),
    ];
    let r = resolve_eq(&tokens, &mut mem, &read, &apply);
    assert_eq!((r.status, f32::from_bits(r.value)), (0x00, 14.0));
    let ev = Evaluation::of_tokens(tokens, &mut mem);
    let (r, requests) = finish(ev, &mut mem);
    assert_eq!((r.status, f32::from_bits(r.value)), (0x00, 14.0));
    // three literals and two operators
    assert_eq!(requests, 5);
}

#[test]
fn resolve_eq_matches_operator_clauses_only() {
    let mut mem = Memory::new();
    let tokens = vec![
        Token::new(TokenKind::Number, String::from("2")),
        Token::new(TokenKind::Number, String::from("+")),
        Token::new(TokenKind::Number, String::from("3")),
    ];
    let r = resolve_eq(&tokens, &mut mem, &read, &apply);
    assert_eq!(r.status, 0xFF);
    let tokens = vec![
        Token::new(TokenKind::Number, String::from("2")),
        Token::new(TokenKind::Operator, String::from("++")),
        Token::new(TokenKind::Number, String::from("3")),
    ];
    let r = resolve_eq(&tokens, &mut mem, &read, &apply);
    assert_eq!(r.status, 0xFF);
}

#[test]
fn resolve_eq_single_clause_by_kind() {
    let mut mem = Memory::new();
    let lone = |kind: TokenKind, text: &str| vec![Token::new(kind, String::from(text))];
    let r = resolve_eq(&lone(TokenKind::Operator, "+"), &mut mem, &read, &apply);
    assert_eq!(r.status, 0xFF);
    let r = resolve_eq(&lone(TokenKind::Symbol, "f"), &mut mem, &read, &apply);
    assert_eq!(r.status, 0xFF);
    mem.define(
        String::from("f"),
        FunDef { variables: vec![], standard_values: vec![], program: vec![] },
    );
    let r = resolve_eq(&lone(TokenKind::Symbol, "f"), &mut mem, &read, &apply);
    assert_eq!((r.status, f32::from_bits(r.value)), (0x00, 0.0));
    let ev = Evaluation::of_tokens(lone(TokenKind::Symbol, "f"), &mut mem);
    let (r, requests) = finish(ev, &mut mem);
    assert_eq!((r.status, f32::from_bits(r.value)), (0x00, 0.0));
    assert_eq!(requests, 0);
    let r = resolve_eq(&lone(TokenKind::Group, "(1"), &mut mem, &read, &apply);
    assert_eq!(r.status, 0x01);
    let r = resolve_eq(&lone(TokenKind::Group, "1+1"), &mut mem, &read, &apply);
    assert_eq!((r.status, f32::from_bits(r.value)), (0x00, 2.0));
    let r = resolve_eq(&lone(TokenKind::Number, " 1.5 "), &mut mem, &read, &apply);
    assert_eq!((r.status, f32::from_bits(r.value)), (0x00, 1.5));
    let r = resolve_eq(&vec![], &mut mem, &read, &apply);
    assert_eq!(r.status, 0xFF);
}

#[test]
fn right_side_is_not_asked_for_after_a_left_failure() {
    let mut mem = Memory::new();
    let ev = Evaluation::of_text(&String::from("q+1"), &mut mem);
    let (r, requests) = finish(ev, &mut mem);
    assert_eq!(r.status, 0x03);
    assert_eq!(requests, 1);
}

#[test]
fn requests_come_in_the_order_of_evaluation() {
    let mut mem = Memory::new();
    let ev = Evaluation::of_text(&String::from(" 2 +3*4"), &mut mem);
    assert_eq!(*ev.request(), Request::Literal(String::from("2")));
    let ev = ev.literal(read("2"), &mut mem);
    assert_eq!(*ev.request(), Request::Literal(String::from("3")));
    let ev = ev.literal(read("3"), &mut mem);
    assert_eq!(
        *ev.request(),
        Request::Apply(Operator::Add, 2.0f32.to_bits(), 3.0f32.to_bits())
    );
    let ev = ev.applied(5.0f32.to_bits(), &mut mem);
    assert_eq!(*ev.request(), Request::Literal(String::from("4")));
    let ev = ev.literal(read("4"), &mut mem);
    assert_eq!(
        *ev.request(),
        Request::Apply(Operator::Multiply, 5.0f32.to_bits(), 4.0f32.to_bits())
    );
    let ev = ev.applied(20.0f32.to_bits(), &mut mem);
    assert_eq!(
        *ev.request(),
        Request::Finished(Response { status: 0x00, value: 20.0f32.to_bits() })
    );
}

#[test]
fn answer_that_was_not_asked_for_changes_nothing() {
    let mut mem = Memory::new();
    let ev = Evaluation::of_text(&String::from("2+3"), &mut mem);
    let ev = ev.applied(7.0f32.to_bits(), &mut mem);
    assert_eq!(*ev.request(), Request::Literal(String::from("2")));
    let ev = ev.literal(read("2"), &mut mem);
    let ev = ev.literal(read("3"), &mut mem);
    let ev = ev.literal(read("9"), &mut mem);
    assert_eq!(
        *ev.request(),
        Request::Apply(Operator::Add, 2.0f32.to_bits(), 3.0f32.to_bits())
    );
    let ev = ev.applied(5.0f32.to_bits(), &mut mem);
    let ev = ev.applied(1.0f32.to_bits(), &mut mem);
    let ev = ev.literal(None, &mut mem);
    assert_eq!(
        *ev.request(),
        Request::Finished(Response { status: 0x00, value: 5.0f32.to_bits() })
    );
}

#[test]
fn deep_nesting_is_evaluated() {
    let mut mem = Memory::new();
    let depth = 2000;
    let mut input = String::new();
    for _ in 0..depth {
        input.push('(');
    }
    input.push('1');
    for _ in 0..depth {
        input.push(')');
    }
    assert_eq!(line(&mut mem, &input), (0x00, 1.0));
}

#[test]
fn long_chain_is_evaluated() {
    let mut mem = Memory::new();
    let mut input = String::from("0");
    for _ in 0..500 {
        input.push_str("+1");
    }
    assert_eq!(line(&mut mem, &input), (0x00, 500.0));
}
