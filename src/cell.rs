//! Typing a cell from its source text: a 64-bit integer if the text is one,
//! else a float if it reads as one, else the text itself.
use vstd::prelude::*;

use loro::LoroValue;

use crate::engine::{double_of, int_of, text_of, text_value, int_value};

verus! {

pub open spec fn is_digit(c: char) -> bool {
    '0' <= c && c <= '9'
}

/// The number that a run of decimal digits stands for.
pub open spec fn digits_value(s: Seq<char>) -> int
    decreases s.len(),
{
    if s.len() == 0 {
        0
    } else {
        10 * digits_value(s.drop_last()) + (s.last() as int - '0' as int)
    }
}

/// What `i64::from_str` accepts: an optional `+` or `-`, then one or more
/// decimal digits, with the value in range.
pub open spec fn int_text(s: Seq<char>) -> Option<i64> {
    let negative = s.len() > 0 && s[0] == '-';
    let digits = if s.len() > 0 && (s[0] == '-' || s[0] == '+') { s.drop_first() } else { s };
    let value = if negative { -digits_value(digits) } else { digits_value(digits) };
    if digits.len() > 0 && (forall|i: int| 0 <= i < digits.len() ==> is_digit(#[trigger] digits[i]))
        && i64::MIN <= value <= i64::MAX {
        Some(value as i64)
    } else {
        None
    }
}

/// Relies on `str::parse::<i64>`, documented to accept an optional sign and
/// decimal digits and nothing else, and to fail on overflow.
#[verifier::external_body]
fn parse_i64(s: &str) -> (r: Option<i64>)
    ensures
        r == int_text(s@),
{
    s.parse::<i64>().ok()
}

/// The value a cell's source text becomes. `float` is what reading the text
/// as a float gave (a `LoroValue::Double`), or `None` where it does not read
/// as one; an integer reading wins over it, and the text is kept where
/// neither applies.
pub fn parse_cell(input: &str, float: Option<LoroValue>) -> (r: LoroValue)
    requires
        float is Some ==> double_of(float->0),
    ensures
        int_text(input@) is Some ==> int_of(r) == int_text(input@),
        int_text(input@) is None && float is Some ==> r == float->0,
        int_text(input@) is None && float is None ==> text_of(r) == Some(input@),
{
    match parse_i64(input) {
        Some(n) => int_value(n),
        None => match float {
            Some(f) => f,
            None => text_value(input),
        },
    }
}

} // verus!
