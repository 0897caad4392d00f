use vstd::prelude::*;
use vstd::string::StringExecFns;

use crate::semantics::unnamed::{append_decimal, decimal};

verus! {

/// Decimal text of an `i32`, with a minus sign when it is negative
pub open spec fn i32_text(x: i32) -> Seq<char> {
    if x < 0 {
        "-"@ + decimal((-x) as nat)
    } else {
        decimal(x as nat)
    }
}

/// Negate an `I32`
pub fn minus_i32(x: i32) -> (r: i32)
    requires
        x > i32::MIN,
    ensures
        r == -x,
{
    -x
}

/// Add two `I32`s
pub fn i32_plus_i32(x: i32, y: i32) -> (r: i32)
    requires
        i32::MIN <= x + y <= i32::MAX,
    ensures
        r == x + y,
{
    x + y
}

/// Text of an `I32`
pub fn i32_as_string(x: i32) -> (s: String)
    ensures
        s@ == i32_text(x),
{
    if x < 0 {
        let mut s = String::from_str("-");
        let magnitude: i64 = -(x as i64);
        append_decimal(&mut s, magnitude as usize);
        s
    } else {
        let mut s = String::new();
        append_decimal(&mut s, x as usize);
        s
    }
}

} // verus!
