//! The envelope in which every operation of the engine reports its outcome.

use vstd::prelude::*;

verus! {

/// The operation succeeded and the value is meaningful.
pub const STATUS_OK: u8 = 0x00;

/// A line or an expression that could not be read or evaluated.
pub const STATUS_ERROR: u8 = 0x01;

/// The result is not a number.
pub const STATUS_NAN: u8 = 0x02;

/// The left operand of an operator could not be resolved.
pub const STATUS_LEFT: u8 = 0x03;

/// The right operand of an operator could not be resolved.
pub const STATUS_RIGHT: u8 = 0x04;

/// Nothing was entered, or the host is asked to go on.
pub const STATUS_CONTINUE: u8 = 0x07;

/// The acknowledgement keyword.
pub const STATUS_ACK: u8 = 0x08;

/// The input does not have the form that was tried; also the request to leave.
pub const STATUS_REJECT: u8 = 0xFF;

/// A status code together with a value. The value means something only when
/// the status is [`STATUS_OK`]; with any other status it is a placeholder.
#[derive(Debug, PartialEq, Eq)]
pub struct Response<T> {
    pub status: u8,
    pub value: T,
}

impl<T> Response<T> {
    /// A successful outcome carrying `value`.
    pub fn ok(value: T) -> (r: Response<T>)
        ensures
            r.status == STATUS_OK,
            r.value == value,
    {
        Response { status: STATUS_OK, value }
    }
}

impl Response<u32> {
    /// A failure with the given code and the placeholder value, positive zero.
    pub fn err(status: u8) -> (r: Response<u32>)
        ensures
            r == failure(status),
    {
        Response { status, value: 0 }
    }

    /// The outcome that says the input does not have the form that was tried.
    pub fn reject() -> (r: Response<u32>)
        ensures
            r == failure(STATUS_REJECT),
    {
        Response { status: STATUS_REJECT, value: 0 }
    }

    /// A success that carries positive zero.
    pub fn dummy() -> (r: Response<u32>)
        ensures
            r == success(0),
    {
        Response { status: STATUS_OK, value: 0 }
    }
}

/// The successful outcome with the number `value`.
pub open spec fn success(value: u32) -> Response<u32> {
    Response { status: STATUS_OK, value }
}

/// The failed outcome with code `status`; its value is positive zero.
pub open spec fn failure(status: u8) -> Response<u32> {
    Response { status, value: 0 }
}

} // verus!
