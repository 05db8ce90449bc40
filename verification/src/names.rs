//! Names of variables.

use vstd::prelude::*;
use vstd::string::StringExecFns;
use crate::status::{Response, STATUS_OK, STATUS_REJECT};
use crate::text::{chars_of, trim, trimmed};

verus! {

/// The decimal digits of ASCII.
pub open spec fn is_digit(c: char) -> bool {
    '0' <= c <= '9'
}

/// The characters that no name may hold.
pub open spec fn is_restricted(c: char) -> bool {
    ||| c == '('
    ||| c == ')'
    ||| c == '{'
    ||| c == '}'
    ||| c == '\''
    ||| c == '"'
    ||| c == '+'
    ||| c == '='
    ||| c == '^'
    ||| c == '*'
    ||| c == '&'
    ||| c == '%'
    ||| c == '$'
    ||| c == '#'
    ||| c == '@'
    ||| c == '!'
    ||| c == '~'
    ||| c == '`'
    ||| c == ' '
}

/// A name is not empty, does not begin with a digit and holds no restricted
/// character.
pub open spec fn valid_name(name: Seq<char>) -> bool {
    &&& name.len() > 0
    &&& !is_digit(name[0])
    &&& forall|i: int| 0 <= i < name.len() ==> !is_restricted(#[trigger] name[i])
}

/// Tells whether `c` may not stand in a name.
fn restricted(c: char) -> (b: bool)
    ensures
        b == is_restricted(c),
{
    c == '(' || c == ')' || c == '{' || c == '}' || c == '\'' || c == '"' || c == '+' || c == '='
        || c == '^' || c == '*' || c == '&' || c == '%' || c == '$' || c == '#' || c == '@' || c
        == '!' || c == '~' || c == '`' || c == ' '
}

/// Tells whether `name` can name a variable.
pub fn is_valid_name(name: &str) -> (b: bool)
    ensures
        b == valid_name(name@),
{
    let chars = chars_of(name);
    if chars.len() == 0 {
        return false;
    }
    let first = chars[0];
    if '0' <= first && first <= '9' {
        return false;
    }
    let mut i: usize = 0;
    while i < chars.len()
        invariant
            chars@ == name@,
            i <= chars.len(),
            forall|k: int| 0 <= k < i ==> !is_restricted(#[trigger] name@[k]),
        decreases chars.len() - i,
    {
        if restricted(chars[i]) {
            return false;
        }
        i += 1;
    }
    true
}

/// Reads `input` as the name of a variable. The name is `input` without the
/// white space at its ends. Where that is a valid name, the answer is a
/// success that carries it; otherwise it is a rejection that hands `input`
/// back as it came.
pub fn parse_var(input: String) -> (r: Response<String>)
    ensures
        valid_name(trimmed(input@)) ==> r.status == STATUS_OK && r.value@ == trimmed(input@),
        !valid_name(trimmed(input@)) ==> r.status == STATUS_REJECT && r.value@ == input@,
{
    let name = trim(input.as_str());
    if is_valid_name(name) {
        let value = String::from_str(name);
        Response::ok(value)
    } else {
        Response { status: STATUS_REJECT, value: input }
    }
}

} // verus!
