use michaelator::keyword::parse_std_fn;

fn looked_up(input: &str) -> (u8, u8) {
    let r = parse_std_fn(&String::from(input));
    (r.status, r.value)
}

#[test]
fn exit_asks_to_leave() {
    assert_eq!(looked_up("exit"), (0x00, 0xFF));
}

#[test]
fn continue_asks_for_the_next_line() {
    assert_eq!(looked_up("continue"), (0x00, 0x07));
}

#[test]
fn ok_is_acknowledged() {
    assert_eq!(looked_up("ok"), (0x00, 0x08));
}

#[test]
fn anything_else_is_rejected() {
    assert_eq!(looked_up(""), (0xFF, 0x00));
    assert_eq!(looked_up("quit"), (0xFF, 0x00));
    assert_eq!(looked_up("Exit"), (0xFF, 0x00));
    assert_eq!(looked_up("exit "), (0xFF, 0x00));
    assert_eq!(looked_up(" ok"), (0xFF, 0x00));
    assert_eq!(looked_up("okay"), (0xFF, 0x00));
    assert_eq!(looked_up("2+3"), (0xFF, 0x00));
}
