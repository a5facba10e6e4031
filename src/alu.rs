use vstd::prelude::*;

verus! {

/// Decimal wrap-around sum of two words: the sum modulo 1000, and whether the
/// unwrapped sum exceeds 999.
pub open spec fn wrapped_sum(a: int, b: int) -> (int, bool) {
    ((a + b) % 1000, a + b > 999)
}

/// Decimal wrap-around difference of two words: the difference brought into
/// `[0, 999]` (so that -1 becomes 999), and whether it is negative.
pub open spec fn wrapped_difference(a: int, b: int) -> (int, bool) {
    ((a - b) % 1000, a - b < 0)
}

/// Adds two words with decimal wrap-around.
pub fn add(a: usize, b: usize) -> (r: (usize, bool))
    ensures
        r.0 as int == wrapped_sum(a as int, b as int).0,
        r.1 == wrapped_sum(a as int, b as int).1,
{
    let ra = a % 1000;
    let rb = b % 1000;
    let r = (ra + rb) % 1000;
    let over = a > 999 || b > 999 || ra + rb > 999;
    proof {
        assert((a as int + b as int) % 1000 == (ra as int + rb as int) % 1000) by (nonlinear_arith)
            requires ra == a % 1000, rb == b % 1000;
    }
    (r, over)
}

/// Subtracts two signed words with decimal wrap-around.
pub fn subtract(a: i16, b: i16) -> (r: (usize, bool))
    ensures
        r.0 as int == wrapped_difference(a as int, b as int).0,
        r.1 == wrapped_difference(a as int, b as int).1,
{
    let d: i32 = a as i32 - b as i32;
    if d >= 0 {
        ((d % 1000) as usize, false)
    } else {
        let m: i32 = (-d) % 1000;
        proof {
            assert(0 <= m < 1000);
            let dd = d as int;
            assert((dd % 1000 + (-dd) % 1000) % 1000 == 0) by (nonlinear_arith)
                requires dd < 0;
            assert(m == 0 ==> dd % 1000 == 0) by (nonlinear_arith)
                requires dd < 0, m == (-dd) % 1000;
            assert(m != 0 ==> dd % 1000 == 1000 - m) by (nonlinear_arith)
                requires dd < 0, m == (-dd) % 1000;
        }
        if m == 0 {
            (0, true)
        } else {
            ((1000 - m) as usize, true)
        }
    }
}

} // verus!
