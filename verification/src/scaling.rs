use vstd::prelude::*;
use vstd::arithmetic::div_mod::{
    lemma_fundamental_div_mod, lemma_fundamental_div_mod_converse, lemma_small_mod,
};
use vstd::arithmetic::power2::{
    lemma2_to64, lemma2_to64_rest, lemma_pow2_adds, lemma_pow2_strictly_increases,
    lemma_pow2_unfold, pow2,
};
use crate::number::{Real, TWO_POW_52, TWO_POW_63};
use crate::point::{is_coordinate, Point};

verus! {

/// Two to the power 85: more than any way between two coordinates times any
/// significand.
pub const TWO_POW_85: u128 = 0x20_0000_0000_0000_0000_0000;

/// A whole way times a double that is no whole number, where the product is a whole
/// number all the same. Nothing times any number is nothing. Else the double is a
/// normal number with places below its binary point, its significand times the way is
/// divided by two to the power of those places, and the product is whole where nothing
/// is left over. Infinite factors and not-a-number patterns give no product.
pub open spec fn stretched(way: int, factor: Real) -> Option<int> {
    if !factor.finite_spec() {
        None
    } else if way == 0 {
        Some(0)
    } else if 1 <= factor.biased_exponent() <= 1074 {
        let unit = pow2((1075 - factor.biased_exponent()) as nat) as int;
        let size = way * factor.significand();
        if size % unit == 0 {
            Some(
                if factor.negative() {
                    -(size / unit)
                } else {
                    size / unit
                },
            )
        } else {
            None
        }
    } else {
        None
    }
}

impl Point {
    /// The point moved away from `centre` by a factor that is no whole number, where it
    /// comes to lie on whole database units all the same, within thirty-two signed bits:
    /// half of an even way is whole, half of an odd way is not.
    pub open spec fn stretched_from(self, factor: Real, centre: Point) -> Option<Point> {
        match (stretched(self.x - centre.x, factor), stretched(self.y - centre.y, factor)) {
            (Some(wide), Some(high)) => if is_coordinate(centre.x + wide) && is_coordinate(
                centre.y + high,
            ) {
                Some(Point { x: (centre.x + wide) as i32, y: (centre.y + high) as i32 })
            } else {
                None
            },
            _ => None,
        }
    }
}

/// A number divides the negative of what it divides, with the negative quotient, and
/// nothing else.
pub proof fn lemma_negative_divides(size: int, unit: int)
    requires
        unit > 0,
    ensures
        ((-size) % unit == 0) == (size % unit == 0),
        size % unit == 0 ==> (-size) / unit == -(size / unit),
{
    lemma_fundamental_div_mod(size, unit);
    lemma_fundamental_div_mod(-size, unit);
    if size % unit == 0 {
        let part = size / unit;
        assert(-size == (-part) * unit + 0) by (nonlinear_arith)
            requires
                size == unit * part + 0,
        ;
        lemma_fundamental_div_mod_converse(-size, unit, -part, 0);
    }
    if (-size) % unit == 0 {
        let part = (-size) / unit;
        assert(size == (-part) * unit + 0) by (nonlinear_arith)
            requires
                -size == unit * part + 0,
        ;
        lemma_fundamental_div_mod_converse(size, unit, -part, 0);
    }
}

/// A way times a double that is a whole number, and not zero, is the way times that
/// whole number.
pub proof fn lemma_stretched_whole(way: int, factor: Real)
    requires
        factor.whole_spec() is Some,
        factor.whole_spec()->Some_0 != 0,
    ensures
        stretched(way, factor) == Some(way * factor.whole_spec()->Some_0),
{
    let size = factor.whole_spec()->Some_0;
    if factor.zero_spec() {
        assert(size == 0);
    }
    let unit = pow2((1075 - factor.biased_exponent()) as nat) as int;
    vstd::arithmetic::power2::lemma_pow2_pos((1075 - factor.biased_exponent()) as nat);
    let significand = factor.significand();
    crate::motion::lemma_part_of_whole(significand, unit, way);
    assert(way * significand == significand * way) by (nonlinear_arith);
    let part = significand / unit;
    assert(way * (-part) == -(part * way)) by (nonlinear_arith);
    assert(way * part == part * way) by (nonlinear_arith);
    if way == 0 {
        assert(way * size == 0) by (nonlinear_arith)
            requires
                way == 0,
        ;
    }
}

/// A whole way times a double that need not be whole; `None` where the product is no
/// whole number, or is more than two to the power 33 either way.
#[verifier::spinoff_prover]
#[verifier::rlimit(50)]
pub fn stretch(way: i64, factor: Real) -> (product: Option<i64>)
    requires
        -0x1_0000_0000 <= way <= 0x1_0000_0000,
    ensures
        match product {
            Some(found) => stretched(way as int, factor) == Some(found as int)
                && -0x2_0000_0000 <= found <= 0x2_0000_0000,
            None => match stretched(way as int, factor) {
                Some(far) => far < -0x2_0000_0000 || far > 0x2_0000_0000,
                None => true,
            },
        },
{
    if !factor.is_finite() {
        return None;
    }
    if way == 0 {
        return Some(0);
    }
    let biased: u64 = (factor.bits / TWO_POW_52) % 2048;
    if biased < 1 || biased > 1074 {
        return None;
    }
    let places: u64 = 1075 - biased;
    let length: u64 = if way < 0 {
        (-way) as u64
    } else {
        way as u64
    };
    let significand: u64 = TWO_POW_52 + factor.bits % TWO_POW_52;
    assert(0 < (length as u128) * (significand as u128) < TWO_POW_85) by (nonlinear_arith)
        requires
            0 < length <= 0x1_0000_0000,
            0x10_0000_0000_0000 <= significand < 0x20_0000_0000_0000,
    ;
    let size: u128 = (length as u128) * (significand as u128);
    proof {
        lemma2_to64();
        lemma2_to64_rest();
        lemma_pow2_adds(64, 21);
        assert(pow2(85) == TWO_POW_85);
        assert(size as int == (length as int) * factor.significand());
        assert((length as int) * factor.significand() == if way < 0 {
            -((way as int) * factor.significand())
        } else {
            (way as int) * factor.significand()
        }) by (nonlinear_arith)
            requires
                length as int == if way < 0 {
                    -(way as int)
                } else {
                    way as int
                },
        ;
    }
    if places > 85 {
        proof {
            lemma_pow2_strictly_increases(85, places as nat);
            let unit = pow2(places as nat) as int;
            lemma_small_mod(size as nat, unit as nat);
            lemma_negative_divides(size as int, unit);
        }
        return None;
    }
    let mut unit: u128 = 1;
    let mut done: u64 = 0;
    while done < places
        invariant
            done <= places <= 85,
            unit == pow2(done as nat),
            0 < unit <= TWO_POW_85,
            pow2(85) == TWO_POW_85,
        decreases places - done,
    {
        proof {
            lemma_pow2_unfold((done + 1) as nat);
            if done + 1 < 85 {
                lemma_pow2_strictly_increases((done + 1) as nat, 85);
            }
        }
        unit = unit * 2;
        done = done + 1;
    }
    proof {
        lemma_negative_divides(size as int, unit as int);
    }
    if size % unit != 0 {
        return None;
    }
    let part: u128 = size / unit;
    let ghost whole = (way as int) * factor.significand();
    proof {
        assert(whole == size || whole == -(size as int));
        assert(whole % (unit as int) == 0);
    }
    if part > 0x2_0000_0000 {
        return None;
    }
    let negative = (way < 0) != (factor.bits >= TWO_POW_63);
    if negative {
        Some(-(part as i64))
    } else {
        Some(part as i64)
    }
}

impl Point {
    /// The point moved away from `centre` by a factor that need not be a whole number.
    pub fn stretch_from(&self, factor: Real, centre: Point) -> (moved: Option<Point>)
        ensures
            moved == self.stretched_from(factor, centre),
    {
        let wide = stretch(self.x as i64 - centre.x as i64, factor);
        let high = stretch(self.y as i64 - centre.y as i64, factor);
        match (wide, high) {
            (Some(wide), Some(high)) => {
                let x: i64 = centre.x as i64 + wide;
                let y: i64 = centre.y as i64 + high;
                if x < -0x8000_0000 || x > 0x7FFF_FFFF || y < -0x8000_0000 || y > 0x7FFF_FFFF {
                    None
                } else {
                    Some(Point { x: x as i32, y: y as i32 })
                }
            },
            _ => None,
        }
    }
}

} // verus!
