//! The words that the calculator understands besides arithmetic.

use vstd::prelude::*;
use vstd::string::StringExecFns;
use crate::status::{Response, STATUS_ACK, STATUS_CONTINUE, STATUS_OK, STATUS_REJECT};

verus! {

/// The status that a keyword asks the dispatcher to report, if `s` is one:
/// `exit` ends the session, `continue` asks for the next line, `ok` is
/// acknowledged.
pub open spec fn keyword_status(s: Seq<char>) -> Option<u8> {
    if s == "exit"@ {
        Some(STATUS_REJECT)
    } else if s == "continue"@ {
        Some(STATUS_CONTINUE)
    } else if s == "ok"@ {
        Some(STATUS_ACK)
    } else {
        None
    }
}

/// Looks `input` up among the keywords. A keyword gives a success whose
/// value is the status to report; anything else is rejected.
pub fn parse_std_fn(input: &String) -> (r: Response<u8>)
    ensures
        match keyword_status(input@) {
            Some(code) => r.status == STATUS_OK && r.value == code,
            None => r.status == STATUS_REJECT && r.value == 0,
        },
{
    if *input == String::from_str("exit") {
        return Response::ok(STATUS_REJECT);
    }
    if *input == String::from_str("continue") {
        return Response::ok(STATUS_CONTINUE);
    }
    if *input == String::from_str("ok") {
        return Response::ok(STATUS_ACK);
    }
    Response { status: STATUS_REJECT, value: 0x0 }
}

} // verus!
