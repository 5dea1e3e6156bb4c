//! Decimal rendering of the integers that appear in snapshot and log
//! identifiers.

use vstd::prelude::*;

verus! {

/// The decimal digit character for `d`.
pub open spec fn dec_digit(d: int) -> char
    recommends
        0 <= d < 10,
{
    ((48 + d) as u8) as char
}

/// The decimal digits of `n`, most significant first.
pub open spec fn dec_uint(n: int) -> Seq<char>
    recommends
        n >= 0,
    decreases n,
{
    if n < 10 {
        seq![dec_digit(n)]
    } else {
        dec_uint(n / 10).push(dec_digit(n % 10))
    }
}

/// Relies on std's decimal `Display` implementation for `u64`: the rendered
/// text is the number's decimal digits, most significant first.
#[verifier::external_body]
pub(crate) fn u64_to_dec(n: u64) -> (r: String)
    ensures
        r@ == dec_uint(n as int),
{
    format!("{}", n)
}

} // verus!
