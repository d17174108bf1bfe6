use vstd::prelude::*;
use vstd::arithmetic::power2::{pow2, lemma2_to64, lemma2_to64_rest, lemma_pow2_strictly_increases, lemma_pow2_unfold, lemma_pow2_adds};
use crate::number::{Real, TWO_POW_52, TWO_POW_63};
use crate::utils::bytes::{be_u16, be_words};

verus! {

/// Two to the power 56: one more than the largest mantissa of an eight-byte real.
pub const TWO_POW_56: u64 = 0x100_0000_0000_0000;

/// The eight bytes of `word`, most significant first.
pub open spec fn be_u64(word: u64) -> Seq<u8> {
    seq![
        (word / 0x100_0000_0000_0000) as u8,
        (word / 0x1_0000_0000_0000 % 256) as u8,
        (word / 0x100_0000_0000 % 256) as u8,
        (word / 0x1_0000_0000 % 256) as u8,
        (word / 0x100_0000 % 256) as u8,
        (word / 0x1_0000 % 256) as u8,
        (word / 0x100 % 256) as u8,
        (word % 256) as u8,
    ]
}

/// The bytes of `word`, most significant first.
#[verifier::spinoff_prover]
pub fn u64_to_be_bytes(word: u64) -> (bytes: [u8; 8])
    ensures
        bytes@ == be_u64(word),
{
    let bytes: [u8; 8] = [
        (word / 0x100_0000_0000_0000) as u8,
        (word / 0x1_0000_0000_0000 % 256) as u8,
        (word / 0x100_0000_0000 % 256) as u8,
        (word / 0x1_0000_0000 % 256) as u8,
        (word / 0x100_0000 % 256) as u8,
        (word / 0x1_0000 % 256) as u8,
        (word / 0x100 % 256) as u8,
        (word % 256) as u8,
    ];
    assert(bytes@ =~= be_u64(word));
    bytes
}


/// Converts a list of words to big-endian order: the bytes of each word, most
/// significant first, in the order of the words.
#[verifier::spinoff_prover]
pub fn u16_array_to_big_endian(array: &[u16]) -> (bytes: Vec<u8>)
    ensures
        bytes@ == be_words(array@),
{
    let mut bytes: Vec<u8> = Vec::new();
    let mut index: usize = 0;
    while index < array.len()
        invariant
            index <= array.len(),
            bytes@.len() == 2 * index,
            forall|i: int| 0 <= i < 2 * index ==> bytes@[i] == be_u16(array@[i / 2])[i % 2],
        decreases array.len() - index,
    {
        let word = array[index];
        bytes.push((word / 256) as u8);
        bytes.push((word % 256) as u8);
        index = index + 1;
    }
    assert(bytes@ =~= be_words(array@));
    bytes
}

/// Two to the power `shift`, for the shifts 0 to 3 that line a binary exponent up with a
/// hexadecimal one; 8 for anything else.
pub open spec fn small_power(shift: int) -> int {
    if shift == 0 {
        1
    } else if shift == 1 {
        2
    } else if shift == 2 {
        4
    } else {
        8
    }
}

/// Whether an eight-byte real can hold `value`: zero, or a normal number whose binary
/// exponent lies between -260 and 251. Every such number is held exactly.
pub open spec fn representable(value: Real) -> bool {
    value.zero_spec() || 763 <= value.biased_exponent() <= 1274
}

/// The excess-64 hexadecimal exponent under which a normal number with the given biased
/// binary exponent is stored.
pub open spec fn excess_exponent(biased: int) -> int {
    (biased + 1) / 4 - 191
}

/// The number of places by which the significand of such a number is shifted left to
/// make the stored mantissa.
pub open spec fn mantissa_shift(biased: int) -> int {
    (biased + 1) % 4
}

/// The eight-byte real that holds `value`, as one 64-bit word: the sign in the top bit,
/// then seven bits of excess-64 exponent to the base 16, then fifty-six bits of mantissa
/// whose leading hexadecimal digit is not zero. Both zeros become the all-zero word.
pub open spec fn real_word(value: Real) -> u64
    recommends
        representable(value),
{
    if value.zero_spec() {
        0
    } else {
        let biased = value.biased_exponent();
        let sign: int = if value.negative() {
            TWO_POW_63 as int
        } else {
            0
        };
        (sign + excess_exponent(biased) * TWO_POW_56 as int + value.significand() * small_power(
            mantissa_shift(biased),
        )) as u64
    }
}

/// The seven exponent bits of an eight-byte real.
pub open spec fn word_excess(word: u64) -> int {
    (word as int / TWO_POW_56 as int) % 128
}

/// The fifty-six mantissa bits of an eight-byte real.
pub open spec fn word_mantissa(word: u64) -> int {
    word as int % TWO_POW_56 as int
}

/// A non-zero mantissa doubled until it reaches two to the power 52, with the number of
/// doublings added to `count`.
pub open spec fn normalized(mantissa: int, count: int) -> (int, int)
    decreases
        if mantissa < 0x10_0000_0000_0000 {
            0x10_0000_0000_0000 - mantissa
        } else {
            0
        },
{
    if mantissa <= 0 || mantissa >= 0x10_0000_0000_0000 {
        (mantissa, count)
    } else {
        normalized(2 * mantissa, count + 1)
    }
}

/// How many of its low bits a normalized mantissa below two to the power 56 must give up
/// to fit the fifty-three bits of a double's significand.
pub open spec fn surplus_bits(mantissa: int) -> int {
    if mantissa < 0x20_0000_0000_0000 {
        0
    } else if mantissa < 0x40_0000_0000_0000 {
        1
    } else if mantissa < 0x80_0000_0000_0000 {
        2
    } else {
        3
    }
}

/// `mantissa` without its `surplus` low bits, rounded to the nearest, a tie to the even
/// neighbour.
pub open spec fn rounded_significand(mantissa: int, surplus: int) -> int {
    let unit = small_power(surplus);
    let quotient = mantissa / unit;
    let rest = mantissa % unit;
    if 2 * rest > unit || (2 * rest == unit && quotient % 2 == 1) {
        quotient + 1
    } else {
        quotient
    }
}

/// The bit pattern of the double nearest to the number that the eight-byte real `word`
/// holds, which is `mantissa / 2^56 * 16^(excess - 64)` with the word's sign. A mantissa of
/// zero gives a zero of that sign. A mantissa with leading zero digits is accepted. Where
/// the mantissa has more than fifty-three significant bits the nearest double is taken, a
/// tie going to the even significand; a significand that rounds up to two to the power 53
/// carries into the exponent, which the sum below does by itself.
pub open spec fn decoded_bits(word: u64) -> int {
    let sign: int = if word >= TWO_POW_63 {
        TWO_POW_63 as int
    } else {
        0
    };
    if word_mantissa(word) == 0 {
        sign
    } else {
        let (mantissa, doublings) = normalized(word_mantissa(word), 0);
        let surplus = surplus_bits(mantissa);
        let biased = 4 * word_excess(word) + 763 - doublings + surplus;
        sign + biased * TWO_POW_52 as int + (rounded_significand(mantissa, surplus)
            - TWO_POW_52 as int)
    }
}

/// Encodes a number as an eight-byte real, most significant byte first. `None` when the
/// format cannot hold it: a subnormal, an infinity, a not-a-number, or a magnitude outside
/// `2^-260 .. 2^252`.
#[verifier::spinoff_prover]
pub fn eight_byte_real(value: Real) -> (result: Option<[u8; 8]>)
    ensures
        result.is_some() <==> representable(value),
        result matches Some(bytes) ==> bytes@ == be_u64(real_word(value)),
{
    if value.is_zero() {
        return Some(u64_to_be_bytes(0));
    }
    let biased: u64 = (value.bits / TWO_POW_52) % 2048;
    if biased < 763 || biased > 1274 {
        return None;
    }
    let excess: u64 = (biased + 1) / 4 - 191;
    let shift: u64 = (biased + 1) % 4;
    let significand: u64 = TWO_POW_52 + value.bits % TWO_POW_52;
    let mantissa: u64 = if shift == 0 {
        significand
    } else if shift == 1 {
        significand * 2
    } else if shift == 2 {
        significand * 4
    } else {
        significand * 8
    };
    let sign: u64 = if value.bits >= TWO_POW_63 {
        TWO_POW_63
    } else {
        0
    };
    proof {
        lemma_shifted(significand as int, shift as int);
    }
    let word: u64 = sign + excess * TWO_POW_56 + mantissa;
    assert(word == real_word(value));
    Some(u64_to_be_bytes(word))
}

/// Decodes an eight-byte real, given as one big-endian word, to the nearest double.
#[verifier::spinoff_prover]
pub fn eight_byte_real_to_float(word: u64) -> (value: Real)
    ensures
        value.bits == decoded_bits(word),
{
    let sign: u64 = if word >= TWO_POW_63 {
        TWO_POW_63
    } else {
        0
    };
    let excess: u64 = (word / TWO_POW_56) % 128;
    let start: u64 = word % TWO_POW_56;
    if start == 0 {
        return Real { bits: sign };
    }
    let mut mantissa: u64 = start;
    let mut doublings: u64 = 0;
    proof {
        lemma2_to64();
        lemma2_to64_rest();
    }
    while mantissa < TWO_POW_52
        invariant
            0 < mantissa < TWO_POW_56,
            pow2(doublings as nat) <= mantissa,
            doublings <= 52,
            pow2(52) == TWO_POW_52,
            normalized(start as int, 0) == normalized(mantissa as int, doublings as int),
        decreases
            if mantissa < TWO_POW_52 {
                TWO_POW_52 - mantissa
            } else {
                0
            },
    {
        proof {
            if doublings >= 52 {
                if doublings > 52 {
                    lemma_pow2_strictly_increases(52, doublings as nat);
                }
                assert(false);
            }
            lemma_pow2_unfold((doublings + 1) as nat);
        }
        mantissa = mantissa * 2;
        doublings = doublings + 1;
    }
    let surplus: u64 = if mantissa < 0x20_0000_0000_0000 {
        0
    } else if mantissa < 0x40_0000_0000_0000 {
        1
    } else if mantissa < 0x80_0000_0000_0000 {
        2
    } else {
        3
    };
    let unit: u64 = if surplus == 0 {
        1
    } else if surplus == 1 {
        2
    } else if surplus == 2 {
        4
    } else {
        8
    };
    let quotient: u64 = mantissa / unit;
    let rest: u64 = mantissa % unit;
    let significand: u64 = if 2 * rest > unit || (2 * rest == unit && quotient % 2 == 1) {
        quotient + 1
    } else {
        quotient
    };
    let biased: u64 = 4 * excess + 763 - doublings + surplus;
    Real { bits: sign + biased * TWO_POW_52 + (significand - TWO_POW_52) }
}


/// The number that an eight-byte real holds, multiplied by two to the power 1075 so that
/// it is an integer: the mantissa times `16^(excess - 64) / 2^56`, with the word's sign.
pub open spec fn word_scaled(word: u64) -> int {
    let magnitude = word_mantissa(word) * pow2((4 * word_excess(word) + 763) as nat);
    if word >= TWO_POW_63 {
        -magnitude
    } else {
        magnitude
    }
}

/// The number that a zero or normal double holds, multiplied by two to the power 1075.
pub open spec fn real_scaled(value: Real) -> int
    recommends
        value.zero_spec() || value.normal_spec(),
{
    if value.zero_spec() {
        0
    } else {
        let magnitude = value.significand() * pow2(value.biased_exponent() as nat);
        if value.negative() {
            -magnitude
        } else {
            magnitude
        }
    }
}

/// A significand shifted left by 0 to 3 places, written out as a product with a
/// constant.
#[verifier::spinoff_prover]
pub proof fn lemma_shifted(significand: int, shift: int)
    ensures
        significand * small_power(shift) == if shift == 0 {
            significand
        } else if shift == 1 {
            2 * significand
        } else if shift == 2 {
            4 * significand
        } else {
            8 * significand
        },
{
    let factor = small_power(shift);
    if shift == 0 {
        assert(significand * factor == significand) by (nonlinear_arith)
            requires
                factor == 1,
        ;
    } else if shift == 1 {
        assert(significand * factor == 2 * significand) by (nonlinear_arith)
            requires
                factor == 2,
        ;
    } else if shift == 2 {
        assert(significand * factor == 4 * significand) by (nonlinear_arith)
            requires
                factor == 4,
        ;
    } else {
        assert(significand * factor == 8 * significand) by (nonlinear_arith)
            requires
                factor == 8,
        ;
    }
}

/// Decoding undoes encoding: a number that the format can hold comes back from its
/// eight-byte real with the same bit pattern; negative zero, which is stored as the
/// all-zero word, comes back as positive zero.
#[verifier::spinoff_prover]
#[verifier::rlimit(50)]
pub proof fn lemma_real_round_trip(value: Real)
    requires
        representable(value),
    ensures
        decoded_bits(real_word(value)) == if value.zero_spec() {
            0
        } else {
            value.bits as int
        },
        (Real { bits: decoded_bits(real_word(value)) as u64 }).same_number_spec(value),
{
    if value.zero_spec() {
        assert(real_word(value) == 0);
        assert(word_mantissa(0) == 0);
    } else {
        let biased = value.biased_exponent();
        let fraction = value.fraction();
        let sign: int = if value.negative() {
            TWO_POW_63 as int
        } else {
            0
        };
        assert(value.bits as int == sign + biased * TWO_POW_52 as int + fraction);
        let shift = mantissa_shift(biased);
        let excess = excess_exponent(biased);
        let stored = value.significand() * small_power(shift);
        let word = real_word(value);
        lemma_shifted(value.significand(), shift);
        assert(0 <= shift <= 3);
        assert(0 <= excess < 128);
        assert(TWO_POW_52 as int <= stored < TWO_POW_56 as int);
        assert(word as int == sign + excess * TWO_POW_56 as int + stored);
        assert(word_mantissa(word) == stored);
        assert(word_excess(word) == excess);
        assert((word >= TWO_POW_63) == value.negative());
        assert(normalized(stored, 0) == (stored, 0int));
        let significand = value.significand();
        if shift == 0 {
            assert(stored == significand);
        } else if shift == 1 {
            assert(stored == 2 * significand);
        } else if shift == 2 {
            assert(stored == 4 * significand);
        } else {
            assert(stored == 8 * significand);
        }
        assert(surplus_bits(stored) == shift);
        assert(rounded_significand(stored, shift) == significand);
        assert(4 * excess + 763 + shift == biased);
        assert(decoded_bits(word) == value.bits as int);
    }
}

/// Encoding is exact: the eight-byte real of a number that the format can hold stands
/// for that very number.
#[verifier::spinoff_prover]
#[verifier::rlimit(50)]
pub proof fn lemma_encoding_exact(value: Real)
    requires
        representable(value),
    ensures
        word_scaled(real_word(value)) == real_scaled(value),
{
    if value.zero_spec() {
        assert(real_word(value) == 0);
        assert(word_mantissa(0) == 0);
        assert(0 * pow2((4 * word_excess(0) + 763) as nat) == 0);
    } else {
        let biased = value.biased_exponent();
        let sign: int = if value.negative() {
            TWO_POW_63 as int
        } else {
            0
        };
        let shift = mantissa_shift(biased);
        let excess = excess_exponent(biased);
        let significand = value.significand();
        let stored = significand * small_power(shift);
        let word = real_word(value);
        lemma_shifted(significand, shift);
        assert(0 <= shift <= 3);
        assert(0 <= excess < 128);
        assert(TWO_POW_52 as int <= stored < TWO_POW_56 as int);
        assert(word as int == sign + excess * TWO_POW_56 as int + stored);
        assert(word_mantissa(word) == stored);
        assert(word_excess(word) == excess);
        assert((word >= TWO_POW_63) == value.negative());
        let low = (4 * excess + 763) as nat;
        assert(low + shift == biased);
        lemma_pow2_adds(shift as nat, low);
        lemma2_to64();
        assert(pow2(shift as nat) == small_power(shift));
        assert(stored * pow2(low) == significand * pow2(biased as nat)) by (nonlinear_arith)
            requires
                stored == significand * small_power(shift),
                pow2(biased as nat) == small_power(shift) * pow2(low),
        ;
    }
}


/// What doubling a mantissa until it reaches two to the power 52 comes to: the mantissa
/// times a power of two, at least two to the power 52, and below two to the power 53
/// unless it was that large before.
#[verifier::spinoff_prover]
#[verifier::rlimit(50)]
pub proof fn lemma_normalized(mantissa: int, count: int)
    requires
        0 < mantissa < TWO_POW_56,
        0 <= count,
    ensures
        normalized(mantissa, count).1 >= count,
        normalized(mantissa, count).0 == mantissa * pow2(
            (normalized(mantissa, count).1 - count) as nat,
        ),
        TWO_POW_52 <= normalized(mantissa, count).0 < TWO_POW_56,
        mantissa < TWO_POW_52 ==> normalized(mantissa, count).0 < 0x20_0000_0000_0000,
        normalized(mantissa, count).1 - count <= 52,
    decreases
        if mantissa < 0x10_0000_0000_0000 {
            0x10_0000_0000_0000 - mantissa
        } else {
            0
        },
{
    lemma2_to64();
    if mantissa >= TWO_POW_52 {
        assert(mantissa * pow2(0) == mantissa) by (nonlinear_arith)
            requires
                pow2(0) == 1,
        ;
    } else {
        lemma_normalized(2 * mantissa, count + 1);
        let (reached, doublings) = normalized(2 * mantissa, count + 1);
        let steps = (doublings - count - 1) as nat;
        lemma_pow2_unfold(steps + 1);
        assert((2 * mantissa) * pow2(steps) == mantissa * pow2(steps + 1)) by (nonlinear_arith)
            requires
                pow2(steps + 1) == 2 * pow2(steps),
        ;
        if doublings - count > 52 {
            let far = (doublings - count) as nat;
            lemma2_to64_rest();
            if far > 53 {
                lemma_pow2_strictly_increases(53, far);
            }
            assert(mantissa * pow2(far) >= pow2(far)) by (nonlinear_arith)
                requires
                    mantissa >= 1,
                    pow2(far) >= 0,
            ;
            assert(false);
        }
    }
}

/// Decoding is exact wherever it can be: where the mantissa of an eight-byte real has
/// no more than fifty-three significant bits, the double that it is decoded to stands
/// for the very number that the eight-byte real holds.
#[verifier::spinoff_prover]
#[verifier::rlimit(50)]
pub proof fn lemma_decoding_exact(word: u64)
    requires
        word_mantissa(word) != 0,
        normalized(word_mantissa(word), 0).0 % small_power(
            surplus_bits(normalized(word_mantissa(word), 0).0),
        ) == 0,
    ensures
        0 <= decoded_bits(word) <= u64::MAX,
        (Real { bits: decoded_bits(word) as u64 }).normal_spec(),
        real_scaled(Real { bits: decoded_bits(word) as u64 }) == word_scaled(word),
{
    let mantissa = word_mantissa(word);
    let excess = word_excess(word);
    let sign: int = if word >= TWO_POW_63 {
        TWO_POW_63 as int
    } else {
        0
    };
    lemma_normalized(mantissa, 0);
    let (reached, doublings) = normalized(mantissa, 0);
    let surplus = surplus_bits(reached);
    let unit = small_power(surplus);
    let significand = reached / unit;
    let biased = 4 * excess + 763 - doublings + surplus;
    if surplus == 0 {
        assert(unit == 1 && significand == reached);
    } else if surplus == 1 {
        assert(unit == 2 && reached == 2 * significand);
    } else if surplus == 2 {
        assert(unit == 4 && reached == 4 * significand);
    } else {
        assert(unit == 8 && reached == 8 * significand);
    }
    assert(rounded_significand(reached, surplus) == significand);
    assert(TWO_POW_52 <= significand < 0x20_0000_0000_0000);
    assert(711 <= biased <= 1274);
    let bits = sign + biased * TWO_POW_52 as int + (significand - TWO_POW_52 as int);
    assert(decoded_bits(word) == bits);
    let value = Real { bits: bits as u64 };
    assert(value.biased_exponent() == biased);
    assert(value.fraction() == significand - TWO_POW_52);
    assert(value.negative() == (word >= TWO_POW_63));
    assert(!value.zero_spec());
    let low = (4 * excess + 763 - doublings) as nat;
    lemma2_to64();
    assert(pow2(surplus as nat) == unit);
    lemma_pow2_adds(surplus as nat, low);
    lemma_pow2_adds(doublings as nat, low);
    lemma_shifted(significand, surplus);
    if surplus == 0 {
        assert(unit == 1 && significand == reached);
    } else if surplus == 1 {
        assert(unit == 2 && reached == 2 * significand);
    } else if surplus == 2 {
        assert(unit == 4 && reached == 4 * significand);
    } else {
        assert(unit == 8 && reached == 8 * significand);
    }
    assert(reached == significand * unit);
    let whole = pow2((4 * excess + 763) as nat);
    assert(mantissa * whole == significand * pow2(biased as nat)) by (nonlinear_arith)
        requires
            reached == mantissa * pow2(doublings as nat),
            reached == significand * unit,
            whole == pow2(doublings as nat) * pow2(low),
            pow2(biased as nat) == unit * pow2(low),
    ;
}

} // verus!
