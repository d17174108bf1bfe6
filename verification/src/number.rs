use vstd::prelude::*;
use vstd::arithmetic::power2::{lemma2_to64, lemma2_to64_rest, lemma_pow2_unfold, pow2};

verus! {

/// Two to the power 52: the weight of the hidden bit of a double's significand.
pub const TWO_POW_52: u64 = 0x10_0000_0000_0000;

/// Two to the power 63: the weight of the sign bit of a 64-bit word.
pub const TWO_POW_63: u64 = 0x8000_0000_0000_0000;

/// The bit pattern of the number one.
pub const ONE_BITS: u64 = 0x3FF0_0000_0000_0000;

/// A double-precision number, kept as its IEEE 754 bit pattern: one sign bit, eleven bits
/// of biased exponent, fifty-two bits of fraction. The library moves such numbers between
/// caller and stream and tests them against zero and one; it computes with them only
/// where they are whole numbers, and then in whole numbers.
#[derive(Debug, Clone, Copy, PartialEq, Eq, Structural)]
pub struct Real {
    pub bits: u64,
}

impl Real {
    /// Whether the sign bit is set.
    pub open spec fn negative(self) -> bool {
        self.bits >= TWO_POW_63
    }

    /// The eleven exponent bits, as a number from 0 to 2047.
    pub open spec fn biased_exponent(self) -> int {
        (self.bits as int / TWO_POW_52 as int) % 2048
    }

    /// The fifty-two fraction bits.
    pub open spec fn fraction(self) -> int {
        self.bits as int % TWO_POW_52 as int
    }

    /// Whether this is positive or negative zero.
    pub open spec fn zero_spec(self) -> bool {
        self.bits % TWO_POW_63 == 0
    }

    /// Whether this is a not-a-number pattern.
    pub open spec fn nan_spec(self) -> bool {
        self.biased_exponent() == 2047 && self.fraction() != 0
    }

    /// Whether this is a number: neither infinite nor a not-a-number pattern.
    pub open spec fn finite_spec(self) -> bool {
        self.biased_exponent() != 2047
    }

    /// Whether this is a normal number: neither zero, subnormal, infinite nor not-a-number.
    pub open spec fn normal_spec(self) -> bool {
        1 <= self.biased_exponent() <= 2046
    }

    /// The integer significand of a normal number: the fraction with its hidden bit.
    pub open spec fn significand(self) -> int {
        TWO_POW_52 as int + self.fraction()
    }

    /// Equality of the two numbers as IEEE 754 defines it: the two zeros are equal, a
    /// not-a-number equals nothing, and otherwise the patterns must agree.
    pub open spec fn same_number_spec(self, other: Real) -> bool {
        if self.nan_spec() || other.nan_spec() {
            false
        } else if self.zero_spec() && other.zero_spec() {
            true
        } else {
            self.bits == other.bits
        }
    }

    /// The whole number that this is, if it is one of magnitude below two to the power
    /// 31: zero for either zero; for a normal number of binary exponent 0 to 30 whose
    /// significand has no bits below the binary point, that significand without the
    /// places below the point, with the sign.
    pub open spec fn whole_spec(self) -> Option<int> {
        if self.zero_spec() {
            Some(0)
        } else if 1023 <= self.biased_exponent() <= 1053 {
            let unit = pow2((1075 - self.biased_exponent()) as nat) as int;
            if self.significand() % unit == 0 {
                Some(
                    if self.negative() {
                        -(self.significand() / unit)
                    } else {
                        self.significand() / unit
                    },
                )
            } else {
                None
            }
        } else {
            None
        }
    }

    /// The double that is the given whole number of magnitude up to two to the power
    /// 31: positive zero for zero; else the magnitude doubled until it reaches two to the
    /// power 52 as the significand, the exponent that makes up for the doublings, and the
    /// sign.
    pub open spec fn of_whole(value: int) -> Real {
        if value == 0 {
            Real { bits: 0 }
        } else {
            let magnitude = if value < 0 {
                -value
            } else {
                value
            };
            let sign: int = if value < 0 {
                TWO_POW_63 as int
            } else {
                0
            };
            let (significand, places) = crate::utils::gds_format::normalized(magnitude, 0);
            Real {
                bits: (sign + (1075 - places) * TWO_POW_52 as int + (significand
                    - TWO_POW_52 as int)) as u64,
            }
        }
    }

    /// The number with the given bit pattern.
    pub fn from_bits(bits: u64) -> (number: Real)
        ensures
            number.bits == bits,
    {
        Real { bits }
    }

    /// The bit pattern of the number.
    pub fn to_bits(&self) -> (bits: u64)
        ensures
            bits == self.bits,
    {
        self.bits
    }

    /// Positive zero.
    pub fn zero() -> (number: Real)
        ensures
            number.bits == 0,
            number.zero_spec(),
    {
        Real { bits: 0 }
    }

    /// The number one.
    pub fn one() -> (number: Real)
        ensures
            number.bits == ONE_BITS,
    {
        Real { bits: ONE_BITS }
    }

    /// Whether this is positive or negative zero.
    pub fn is_zero(&self) -> (zero: bool)
        ensures
            zero == self.zero_spec(),
    {
        self.bits % TWO_POW_63 == 0
    }

    /// Whether this is a not-a-number pattern.
    pub fn is_nan(&self) -> (nan: bool)
        ensures
            nan == self.nan_spec(),
    {
        (self.bits / TWO_POW_52) % 2048 == 2047 && self.bits % TWO_POW_52 != 0
    }

    /// Whether this is a number: neither infinite nor a not-a-number pattern.
    pub fn is_finite(&self) -> (finite: bool)
        ensures
            finite == self.finite_spec(),
    {
        (self.bits / TWO_POW_52) % 2048 != 2047
    }

    /// Whether this is exactly the number one.
    pub fn is_one(&self) -> (one: bool)
        ensures
            one == (self.bits == ONE_BITS),
    {
        self.bits == ONE_BITS
    }

    /// The whole number that this is, if it is one of magnitude below two to the power
    /// 31.
    #[verifier::spinoff_prover]
    pub fn whole(&self) -> (number: Option<i32>)
        ensures
            number.is_some() == self.whole_spec().is_some(),
            number matches Some(value) ==> self.whole_spec() == Some(value as int),
    {
        if self.is_zero() {
            return Some(0);
        }
        let biased: u64 = (self.bits / TWO_POW_52) % 2048;
        if biased < 1023 || biased > 1053 {
            return None;
        }
        let places: u64 = 1075 - biased;
        let mut unit: u64 = 1;
        let mut done: u64 = 0;
        proof {
            lemma2_to64();
            lemma2_to64_rest();
        }
        while done < places
            invariant
                done <= places <= 52,
                unit == pow2(done as nat),
                unit <= TWO_POW_52,
                pow2(52) == TWO_POW_52,
            decreases places - done,
        {
            proof {
                lemma_pow2_unfold((done + 1) as nat);
                if done + 1 < 52 {
                    vstd::arithmetic::power2::lemma_pow2_strictly_increases(
                        (done + 1) as nat,
                        52,
                    );
                }
            }
            unit = unit * 2;
            done = done + 1;
        }
        let significand: u64 = TWO_POW_52 + self.bits % TWO_POW_52;
        if significand % unit != 0 {
            return None;
        }
        let magnitude: u64 = significand / unit;
        proof {
            if places > 22 {
                vstd::arithmetic::power2::lemma_pow2_strictly_increases(22, places as nat);
            }
            assert(unit >= 0x40_0000);
            assert(magnitude * unit == significand) by (nonlinear_arith)
                requires
                    magnitude == significand / unit,
                    significand % unit == 0,
                    unit > 0,
            ;
            assert(magnitude < 0x8000_0000) by (nonlinear_arith)
                requires
                    magnitude * unit == significand,
                    significand < 0x20_0000_0000_0000,
                    unit >= 0x40_0000,
                    magnitude >= 0,
            ;
        }
        if self.bits >= TWO_POW_63 {
            Some(-(magnitude as i64) as i32)
        } else {
            Some(magnitude as i32)
        }
    }

    /// The double that is the given whole number: positive zero for zero. All but the
    /// least number of thirty-two signed bits are read back by `whole`.
    #[verifier::spinoff_prover]
    pub fn from_whole(value: i32) -> (number: Real)
        ensures
            number == Real::of_whole(value as int),
            value > i32::MIN ==> number.whole_spec() == Some(value as int),
    {
        if value == 0 {
            return Real { bits: 0 };
        }
        let magnitude: u64 = if value < 0 {
            (-(value as i64)) as u64
        } else {
            value as u64
        };
        let mut significand: u64 = magnitude;
        let mut places: u64 = 0;
        proof {
            lemma2_to64();
            lemma2_to64_rest();
            assert(magnitude * pow2(0) == magnitude) by (nonlinear_arith)
                requires
                    pow2(0) == 1,
            ;
        }
        while significand < TWO_POW_52
            invariant
                0 < magnitude <= 0x8000_0000,
                value > i32::MIN ==> magnitude < 0x8000_0000,
                crate::utils::gds_format::normalized(magnitude as int, 0)
                    == crate::utils::gds_format::normalized(significand as int, places as int),
                significand == magnitude * pow2(places as nat),
                0 < significand < 0x20_0000_0000_0000,
                places <= 52,
                pow2(52) == TWO_POW_52,
                pow2(places as nat) <= significand,
            decreases
                if significand < TWO_POW_52 {
                    TWO_POW_52 - significand
                } else {
                    0
                },
        {
            proof {
                if places >= 52 {
                    assert(false);
                }
                lemma_pow2_unfold((places + 1) as nat);
                assert(magnitude * pow2((places + 1) as nat) == 2 * (magnitude * pow2(
                    places as nat,
                ))) by (nonlinear_arith)
                    requires
                        pow2((places + 1) as nat) == 2 * pow2(places as nat),
                ;
            }
            significand = significand * 2;
            places = places + 1;
        }
        proof {
            let unit = pow2(places as nat);
            if places < 21 {
                vstd::arithmetic::power2::lemma_pow2_strictly_increases(places as nat, 21);
                assert(magnitude * unit < 0x10_0000_0000_0000) by (nonlinear_arith)
                    requires
                        0 < magnitude <= 0x8000_0000,
                        0 < unit < 0x20_0000,
                ;
                assert(false);
            }
            if value > i32::MIN && places < 22 {
                assert(magnitude * unit < 0x10_0000_0000_0000) by (nonlinear_arith)
                    requires
                        0 < magnitude < 0x8000_0000,
                        0 < unit <= 0x20_0000,
                ;
                assert(false);
            }
            assert(significand == unit * magnitude + 0) by (nonlinear_arith)
                requires
                    significand == magnitude * unit,
            ;
            vstd::arithmetic::div_mod::lemma_fundamental_div_mod_converse(
                significand as int,
                unit as int,
                magnitude as int,
                0,
            );
        }
        let biased: u64 = 1075 - places;
        let sign: u64 = if value < 0 {
            TWO_POW_63
        } else {
            0
        };
        let number = Real { bits: sign + biased * TWO_POW_52 + (significand - TWO_POW_52) };
        proof {
            assert(number.biased_exponent() == biased);
            assert(number.fraction() == significand - TWO_POW_52);
            assert(number.significand() == significand);
            assert(number.negative() == (value < 0));
            assert(!number.zero_spec());
            assert((1075 - number.biased_exponent()) as nat == places as nat);
        }
        number
    }

    /// Whether the two are equal as numbers.
    pub fn same_number(&self, other: &Real) -> (same: bool)
        ensures
            same == self.same_number_spec(*other),
    {
        if self.is_nan() || other.is_nan() {
            false
        } else if self.is_zero() && other.is_zero() {
            true
        } else {
            self.bits == other.bits
        }
    }
}


/// The whole number that a double is lies within thirty-one bits and a sign.
pub proof fn lemma_whole_range(value: Real)
    requires
        value.whole_spec() is Some,
    ensures
        -0x8000_0000 < value.whole_spec()->Some_0 < 0x8000_0000,
{
    if !value.zero_spec() {
        let places = (1075 - value.biased_exponent()) as nat;
        let unit = pow2(places) as int;
        let significand = value.significand();
        let magnitude = significand / unit;
        lemma2_to64();
        lemma2_to64_rest();
        if places > 22 {
            vstd::arithmetic::power2::lemma_pow2_strictly_increases(22, places);
        }
        assert(unit >= 0x40_0000);
        vstd::arithmetic::div_mod::lemma_fundamental_div_mod(significand, unit);
        assert(magnitude * unit == significand) by (nonlinear_arith)
            requires
                significand == unit * magnitude + significand % unit,
                significand % unit == 0,
        ;
        assert(0 <= magnitude < 0x8000_0000) by (nonlinear_arith)
            requires
                magnitude * unit == significand,
                0 < significand < 0x20_0000_0000_0000,
                unit >= 0x40_0000,
        ;
    }
}

} // verus!
