use michaelator::balance::is_balanced_eq;

fn balanced(s: &str) -> bool {
    is_balanced_eq(&String::from(s))
}

#[test]
fn balanced_simple_group() {
    assert!(balanced("(1+2)"));
}

#[test]
fn unbalanced_missing_close() {
    assert!(!balanced("(1+2"));
}

#[test]
fn unbalanced_close_before_open() {
    assert!(!balanced(")1("));
}

#[test]
fn balanced_empty_line() {
    assert!(balanced(""));
}

#[test]
fn balanced_without_parentheses() {
    assert!(balanced("2+3*4"));
}

#[test]
fn balanced_nested_and_adjacent_groups() {
    assert!(balanced("((1+2)*(3-(4)))"));
    assert!(balanced("()()"));
}

#[test]
fn unbalanced_extra_close_at_end() {
    assert!(!balanced("(1+2))"));
}

#[test]
fn unbalanced_depth_zero_but_dips_below() {
    assert!(!balanced("())("));
}

#[test]
fn unbalanced_still_open_at_end() {
    assert!(!balanced("(("));
    assert!(!balanced("(()"));
}

#[test]
fn balanced_ignores_other_brackets_and_unicode() {
    assert!(balanced("{[é(π)]}"));
    assert!(!balanced("é)"));
}
