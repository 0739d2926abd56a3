//! Decimal rendering of unsigned integers, the number layer of the run
//! output encoding.

use vstd::prelude::*;

verus! {

/// The decimal digit character for `d`, meaningful for `0 <= d <= 9`.
pub open spec fn spec_digit_char(d: nat) -> char {
    if d == 0 {
        '0'
    } else if d == 1 {
        '1'
    } else if d == 2 {
        '2'
    } else if d == 3 {
        '3'
    } else if d == 4 {
        '4'
    } else if d == 5 {
        '5'
    } else if d == 6 {
        '6'
    } else if d == 7 {
        '7'
    } else if d == 8 {
        '8'
    } else {
        '9'
    }
}

/// The decimal rendering of `n`: most significant digit first, no sign, no
/// padding, and `"0"` for zero.
pub open spec fn spec_decimal(n: nat) -> Seq<char>
    decreases n,
{
    if n < 10 {
        seq![spec_digit_char(n)]
    } else {
        spec_decimal(n / 10).push(spec_digit_char(n % 10))
    }
}

/// Relies on `serde_json::to_string` for `u64`: JSON encodes an unsigned
/// integer as its plain decimal digits, and encoding a `u64` cannot fail.
#[verifier::external_body]
pub(crate) fn json_number(n: u64) -> (r: String)
    ensures
        r@ == spec_decimal(n as nat),
{
    match serde_json::to_string(&n) {
        Ok(s) => s,
        Err(_) => String::new(),
    }
}

} // verus!
