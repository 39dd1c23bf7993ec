use vstd::prelude::*;

use vstd::arithmetic::div_mod::{lemma_div_is_ordered_by_denominator, lemma_div_nonincreasing};
use vstd::math::abs;

verus! {

/// Integer division truncated toward zero: the quotient of the magnitudes,
/// negated when the operands' signs differ. This is how the evaluator's `/`
/// rounds.
pub open spec fn div_trunc(x: int, y: int) -> int
    recommends
        y != 0,
{
    if (x < 0) == (y < 0) {
        abs(x) as int / abs(y) as int
    } else {
        -(abs(x) as int / abs(y) as int)
    }
}

/// The `/` of the evaluator on 32-bit values: truncating division, wrapping
/// around on the single overflowing case (`i32::MIN / -1`).
pub open spec fn div_wrap(x: i32, y: i32) -> i32
    recommends
        y != 0,
{
    if x == i32::MIN && y == -1 {
        i32::MIN
    } else {
        div_trunc(x as int, y as int) as i32
    }
}

/// Truncating 32-bit division with two's-complement wraparound, the division
/// the evaluator applies. The divisor must be ruled out as zero beforehand.
pub fn wrapping_div_i32(x: i32, y: i32) -> (r: i32)
    requires
        y != 0,
    ensures
        r == div_wrap(x, y),
{
    if x == i32::MIN && y == -1 {
        return i32::MIN;
    }
    let xl: i64 = x as i64;
    let yl: i64 = y as i64;
    let ax: u64 = (if xl < 0 {
        -xl
    } else {
        xl
    }) as u64;
    let ay: u64 = (if yl < 0 {
        -yl
    } else {
        yl
    }) as u64;
    proof {
        assert(ax == abs(x as int));
        assert(ay == abs(y as int));
        assert(ax <= 0x8000_0000);
        assert(1 <= ay);
        lemma_div_nonincreasing(ax as int, ay as int);
        if x == i32::MIN {
            // y == -1 was already ruled out; with |y| == 1 the quotient is
            // |x| only when y == 1, and the result is then negative.
            if ay >= 2 {
                lemma_div_is_ordered_by_denominator(ax as int, 2, ay as int);
            }
        }
    }
    let q: u64 = ax / ay;
    if (x < 0) != (y < 0) {
        proof {
            assert(q <= 0x8000_0000);
            assert(div_trunc(x as int, y as int) == -(q as int));
        }
        (-(q as i64)) as i32
    } else {
        proof {
            assert(q <= i32::MAX);
            assert(div_trunc(x as int, y as int) == q as int);
        }
        q as i32
    }
}

} // verus!
