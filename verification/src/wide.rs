//! Products too wide for a machine word, compared exactly.

use vstd::prelude::*;

verus! {

/// Two to the power 64.
pub const WORD: u128 = 0x1_0000_0000_0000_0000;

/// Two to the power 128, as a mathematical integer.
pub open spec fn two_128() -> int {
    u128::MAX + 1
}

/// The product of a 128-bit and a 64-bit number as two 128-bit words, upper
/// word first.
pub fn mul_wide(a: u128, b: u64) -> (r: (u128, u128))
    ensures
        r.0 * two_128() + r.1 == a * b,
        r.0 < WORD,
{
    let b_wide: u128 = b as u128;
    let a_hi: u128 = a / WORD;
    let a_lo: u128 = a % WORD;
    assert(a_lo * b_wide <= (WORD - 1) * (WORD - 1)) by (nonlinear_arith)
        requires
            a_lo <= WORD - 1,
            b_wide <= WORD - 1,
    ;
    assert(a_hi * b_wide <= (WORD - 1) * (WORD - 1)) by (nonlinear_arith)
        requires
            a_hi <= WORD - 1,
            b_wide <= WORD - 1,
    ;
    let low_part: u128 = a_lo * b_wide;
    let high_part: u128 = a_hi * b_wide;
    let carried: u128 = high_part / WORD;
    let kept: u128 = high_part % WORD;
    let shifted: u128 = kept * WORD;
    assert(two_128() == WORD * WORD);
    assert(a * b == carried * two_128() + shifted + low_part) by (nonlinear_arith)
        requires
            a == a_hi * WORD + a_lo,
            low_part == a_lo * b_wide,
            high_part == a_hi * b_wide,
            high_part == carried * WORD + kept,
            shifted == kept * WORD,
            b_wide == b,
            two_128() == WORD * WORD,
    ;
    if low_part > u128::MAX - shifted {
        let lo: u128 = low_part - (u128::MAX - shifted) - 1;
        (carried + 1, lo)
    } else {
        (carried, shifted + low_part)
    }
}

/// Whether `a * b` is at least `c * d`, whatever the size of the products.
pub fn product_at_least(a: u128, b: u64, c: u128, d: u64) -> (r: bool)
    ensures
        r == (a * b >= c * d),
{
    let left: (u128, u128) = mul_wide(a, b);
    let right: (u128, u128) = mul_wide(c, d);
    proof {
        let t = two_128();
        if left.0 > right.0 {
            assert(left.0 * t >= right.0 * t + t) by (nonlinear_arith)
                requires
                    left.0 >= right.0 + 1,
                    t > 0,
            ;
        } else if left.0 < right.0 {
            assert(right.0 * t >= left.0 * t + t) by (nonlinear_arith)
                requires
                    right.0 >= left.0 + 1,
                    t > 0,
            ;
        }
    }
    left.0 > right.0 || (left.0 == right.0 && left.1 >= right.1)
}

} // verus!
