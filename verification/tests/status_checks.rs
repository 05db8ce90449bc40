use michaelator::status::{
    Response, STATUS_ACK, STATUS_CONTINUE, STATUS_ERROR, STATUS_LEFT, STATUS_NAN, STATUS_OK,
    STATUS_REJECT, STATUS_RIGHT,
};

#[test]
fn status_codes() {
    assert_eq!(STATUS_OK, 0x00);
    assert_eq!(STATUS_ERROR, 0x01);
    assert_eq!(STATUS_NAN, 0x02);
    assert_eq!(STATUS_LEFT, 0x03);
    assert_eq!(STATUS_RIGHT, 0x04);
    assert_eq!(STATUS_CONTINUE, 0x07);
    assert_eq!(STATUS_ACK, 0x08);
    assert_eq!(STATUS_REJECT, 0xFF);
}

#[test]
fn ok_carries_its_value() {
    let r = Response::ok(1.5f32.to_bits());
    assert_eq!(r.status, 0x00);
    assert_eq!(f32::from_bits(r.value), 1.5);
    let r = Response::ok(String::from("x"));
    assert_eq!(r.status, 0x00);
    assert_eq!(r.value, "x");
    let r = Response::ok(0xFFu8);
    assert_eq!((r.status, r.value), (0x00, 0xFF));
}

#[test]
fn err_carries_its_code_and_zero() {
    for code in [0x01u8, 0x02, 0x03, 0x04, 0x07, 0x08] {
        let r = Response::err(code);
        assert_eq!(r.status, code);
        assert_eq!(r.value, 0);
        assert_eq!(f32::from_bits(r.value), 0.0);
    }
}

#[test]
fn reject_is_ff_and_zero() {
    let r = Response::reject();
    assert_eq!(r, Response { status: 0xFF, value: 0 });
}

#[test]
fn dummy_is_a_success_with_zero() {
    let r = Response::dummy();
    assert_eq!(r, Response { status: 0x00, value: 0 });
}
