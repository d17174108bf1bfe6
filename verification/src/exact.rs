use vstd::prelude::*;
use crate::motion::{signed_rest, signed_rest_of, whole_sized};
use crate::number::{Real, ONE_BITS};

verus! {

/// The pattern of the double 360.
pub const TURN_BITS: u64 = 0x4076_8000_0000_0000;

/// The product of two doubles, where it can be said without rounding: the product of
/// two whole numbers, where that is a whole number within reach; else any number times
/// one, which is that number.
pub open spec fn product(own: Real, more: Real) -> Option<Real> {
    match (own.whole_spec(), more.whole_spec()) {
        (Some(first), Some(second)) => if whole_sized(first * second) {
            Some(Real::of_whole(first * second))
        } else {
            None
        },
        _ => if more.bits == ONE_BITS && own.finite_spec() {
            Some(own)
        } else if own.bits == ONE_BITS && more.finite_spec() {
            Some(more)
        } else {
            None
        },
    }
}

/// The sum of two doubles, where it can be said without rounding: the sum of two whole
/// numbers, where that is a whole number within reach; else any number and nothing,
/// which is that number.
pub open spec fn total(own: Real, more: Real) -> Option<Real> {
    match (own.whole_spec(), more.whole_spec()) {
        (Some(first), Some(second)) => if whole_sized(first + second) {
            Some(Real::of_whole(first + second))
        } else {
            None
        },
        _ => if more.zero_spec() && own.finite_spec() {
            Some(own)
        } else if own.zero_spec() && more.finite_spec() {
            Some(more)
        } else {
            None
        },
    }
}

/// The sum of two whole angles in degrees, kept from 0 up to 360.
pub open spec fn angle_sum(own: int, more: int) -> int {
    let rest = signed_rest(own + more, 360);
    if rest < 0 {
        rest + 360
    } else {
        rest
    }
}

/// Whether a double is an angle from 0 up to 360.
pub open spec fn within_a_turn(angle: Real) -> bool {
    angle.bits < TURN_BITS
}

/// The sum of two angles in degrees, kept from 0 up to 360, where it can be said
/// without rounding: of two whole angles; else of any angle from 0 up to 360 and
/// nothing.
pub open spec fn turn_total(own: Real, more: Real) -> Option<Real> {
    match (own.whole_spec(), more.whole_spec()) {
        (Some(first), Some(second)) => Some(Real::of_whole(angle_sum(first, second))),
        _ => if more.zero_spec() && within_a_turn(own) {
            Some(own)
        } else if own.zero_spec() && within_a_turn(more) {
            Some(more)
        } else {
            None
        },
    }
}

/// The product of two doubles, where it can be said without rounding.
pub fn multiply(own: Real, more: Real) -> (found: Option<Real>)
    ensures
        found == product(own, more),
{
    match (own.whole(), more.whole()) {
        (Some(first), Some(second)) => {
            let wide: i64 = first as i64;
            let factor: i64 = second as i64;
            assert(-0x4000_0000_0000_0000 <= wide * factor <= 0x4000_0000_0000_0000)
                by (nonlinear_arith)
                requires
                    -0x8000_0000 <= wide <= 0x7FFF_FFFF,
                    -0x8000_0000 <= factor <= 0x7FFF_FFFF,
            ;
            let enlarged: i64 = wide * factor;
            if enlarged <= -0x8000_0000 || enlarged >= 0x8000_0000 {
                None
            } else {
                Some(Real::from_whole(enlarged as i32))
            }
        },
        _ => {
            if more.is_one() && own.is_finite() {
                Some(own)
            } else if own.is_one() && more.is_finite() {
                Some(more)
            } else {
                None
            }
        },
    }
}

/// The sum of two doubles, where it can be said without rounding.
pub fn sum(own: Real, more: Real) -> (found: Option<Real>)
    ensures
        found == total(own, more),
{
    match (own.whole(), more.whole()) {
        (Some(first), Some(second)) => {
            let both: i64 = first as i64 + second as i64;
            if both <= -0x8000_0000 || both >= 0x8000_0000 {
                None
            } else {
                Some(Real::from_whole(both as i32))
            }
        },
        _ => {
            if more.is_zero() && own.is_finite() {
                Some(own)
            } else if own.is_zero() && more.is_finite() {
                Some(more)
            } else {
                None
            }
        },
    }
}

/// The sum of two angles in degrees, kept from 0 up to 360, where it can be said
/// without rounding.
pub fn sum_of_turns(own: Real, more: Real) -> (found: Option<Real>)
    ensures
        found == turn_total(own, more),
{
    match (own.whole(), more.whole()) {
        (Some(first), Some(second)) => {
            let rest = signed_rest_of(first as i64 + second as i64, 360);
            let both: i64 = if rest < 0 {
                rest + 360
            } else {
                rest
            };
            Some(Real::from_whole(both as i32))
        },
        _ => {
            if more.is_zero() && own.bits < TURN_BITS {
                Some(own)
            } else if own.is_zero() && more.bits < TURN_BITS {
                Some(more)
            } else {
                None
            }
        },
    }
}

} // verus!
