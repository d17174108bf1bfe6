use vstd::prelude::*;

verus! {

/// The two bytes of `word`, most significant first.
pub open spec fn be_u16(word: u16) -> Seq<u8> {
    seq![(word / 256) as u8, (word % 256) as u8]
}

/// The word whose two bytes are `high` and `low`.
pub open spec fn u16_of(high: u8, low: u8) -> u16 {
    (high * 256 + low) as u16
}

/// The sixteen-bit pattern of `word` read as a signed number in two's complement.
pub open spec fn signed16(word: u16) -> i16 {
    if word >= 0x8000 {
        (word - 0x1_0000) as i16
    } else {
        word as i16
    }
}

/// The sixteen-bit pattern of a signed number in two's complement.
pub open spec fn unsigned16(value: i16) -> u16 {
    if value < 0 {
        (value + 0x1_0000) as u16
    } else {
        value as u16
    }
}

/// The low sixteen bits of the two's complement pattern of `value`.
pub open spec fn low_word(value: int) -> u16 {
    (value % 0x1_0000) as u16
}

/// The thirty-two-bit pattern of a signed number in two's complement.
pub open spec fn unsigned32(value: i32) -> u32 {
    if value < 0 {
        (value + 0x1_0000_0000) as u32
    } else {
        value as u32
    }
}

/// The thirty-two-bit pattern `word` read as a signed number in two's complement.
pub open spec fn signed32(word: u32) -> i32 {
    if word >= 0x8000_0000 {
        (word - 0x1_0000_0000) as i32
    } else {
        word as i32
    }
}

/// The four bytes of `word`, most significant first.
pub open spec fn be_u32(word: u32) -> Seq<u8> {
    seq![
        (word / 0x100_0000) as u8,
        (word / 0x1_0000 % 256) as u8,
        (word / 0x100 % 256) as u8,
        (word % 256) as u8,
    ]
}

/// The word whose four bytes are these, most significant first.
pub open spec fn u32_of(first: u8, second: u8, third: u8, fourth: u8) -> u32 {
    (first * 0x100_0000 + second * 0x1_0000 + third * 0x100 + fourth) as u32
}

/// The word whose eight bytes are `bytes`, most significant first.
pub open spec fn u64_of(bytes: Seq<u8>) -> u64
    recommends
        bytes.len() == 8,
{
    (bytes[0] * 0x100_0000_0000_0000 + bytes[1] * 0x1_0000_0000_0000 + bytes[2]
        * 0x100_0000_0000 + bytes[3] * 0x1_0000_0000 + bytes[4] * 0x100_0000 + bytes[5] * 0x1_0000
        + bytes[6] * 0x100 + bytes[7]) as u64
}

/// The bytes of a list of words, each most significant byte first.
pub open spec fn be_words(words: Seq<u16>) -> Seq<u8> {
    Seq::new(2 * words.len(), |i: int| be_u16(words[i / 2])[i % 2])
}

/// The bytes of a list of signed sixteen-bit numbers, each most significant byte first.
pub open spec fn i16s_bytes(values: Seq<i16>) -> Seq<u8> {
    Seq::new(2 * values.len(), |i: int| be_u16(unsigned16(values[i / 2]))[i % 2])
}

/// The signed sixteen-bit numbers that the bytes hold, two by two; a last byte without
/// a partner is left out.
pub open spec fn i16s_of(bytes: Seq<u8>) -> Seq<i16> {
    Seq::new(
        (bytes.len() / 2) as nat,
        |k: int| signed16(u16_of(bytes[2 * k], bytes[2 * k + 1])),
    )
}

/// The bytes of a list of signed thirty-two-bit numbers, each most significant byte
/// first.
pub open spec fn i32s_bytes(values: Seq<i32>) -> Seq<u8> {
    Seq::new(4 * values.len(), |i: int| be_u32(unsigned32(values[i / 4]))[i % 4])
}

/// The signed thirty-two-bit numbers that the bytes hold, four by four; bytes left over
/// at the end are left out.
pub open spec fn i32s_of(bytes: Seq<u8>) -> Seq<i32> {
    Seq::new(
        (bytes.len() / 4) as nat,
        |k: int|
            signed32(u32_of(bytes[4 * k], bytes[4 * k + 1], bytes[4 * k + 2], bytes[4 * k + 3])),
    )
}

/// The words that the bytes hold, eight by eight; bytes left over at the end are left
/// out.
pub open spec fn u64s_of(bytes: Seq<u8>) -> Seq<u64> {
    Seq::new((bytes.len() / 8) as nat, |k: int| u64_of(bytes.subrange(8 * k, 8 * k + 8)))
}

/// A list of bytes made even in length: with one zero byte added at the end where the
/// length is odd.
pub open spec fn padded(bytes: Seq<u8>) -> Seq<u8> {
    if bytes.len() % 2 == 1 {
        bytes.push(0)
    } else {
        bytes
    }
}

/// A list of bytes without its last byte, where that byte is zero.
pub open spec fn unpadded(bytes: Seq<u8>) -> Seq<u8> {
    if bytes.len() > 0 && bytes[bytes.len() - 1] == 0 {
        bytes.drop_last()
    } else {
        bytes
    }
}

/// The four bytes of `word`, most significant first, pushed onto `file`.
pub fn push_u32(file: &mut Vec<u8>, word: u32)
    ensures
        final(file)@ == old(file)@ + be_u32(word),
{
    file.push((word / 0x100_0000) as u8);
    file.push((word / 0x1_0000 % 256) as u8);
    file.push((word / 0x100 % 256) as u8);
    file.push((word % 256) as u8);
    assert(file@ =~= old(file)@ + be_u32(word));
}

/// The low sixteen bits of the two's complement pattern of `value`.
#[verifier::spinoff_prover]
pub fn low_word_of(value: i32) -> (word: u16)
    ensures
        word == low_word(value as int),
{
    let wide: i64 = value as i64 + 0x8000_0000;
    (wide % 0x1_0000) as u16
}

/// The thirty-two-bit pattern of a signed number in two's complement.
#[verifier::spinoff_prover]
pub fn pattern_of(value: i32) -> (word: u32)
    ensures
        word == unsigned32(value),
{
    if value < 0 {
        (value as i64 + 0x1_0000_0000) as u32
    } else {
        value as u32
    }
}

/// The word of two bytes, most significant first, is the word that the bytes were made
/// of.
#[verifier::spinoff_prover]
pub proof fn lemma_u16_back(word: u16)
    ensures
        u16_of(be_u16(word)[0], be_u16(word)[1]) == word,
{
    let whole = word as int;
    assert(whole == (whole / 256) * 256 + whole % 256);
    assert(0 <= whole / 256 < 256);
}

/// The word of four bytes, most significant first, is the word that the bytes were made
/// of.
#[verifier::spinoff_prover]
pub proof fn lemma_u32_back(word: u32)
    ensures
        u32_of(be_u32(word)[0], be_u32(word)[1], be_u32(word)[2], be_u32(word)[3]) == word,
{
    let whole = word as int;
    let q1 = whole / 0x100;
    let q2 = whole / 0x1_0000;
    let q3 = whole / 0x100_0000;
    assert(whole == q1 * 0x100 + whole % 0x100);
    assert(q2 == q1 / 0x100);
    assert(q1 == q2 * 0x100 + q1 % 0x100);
    assert(q3 == q2 / 0x100);
    assert(q2 == q3 * 0x100 + q2 % 0x100);
    assert(0 <= q3 < 0x100);
    let bytes = be_u32(word);
    assert(bytes[0] == q3);
    assert(bytes[1] == q2 % 0x100);
    assert(bytes[2] == q1 % 0x100);
    assert(bytes[3] == whole % 0x100);
}

/// Reading back the bytes of signed sixteen-bit numbers gives the numbers.
#[verifier::spinoff_prover]
#[verifier::rlimit(50)]
pub proof fn lemma_i16s_round_trip(values: Seq<i16>)
    ensures
        i16s_of(i16s_bytes(values)) == values,
{
    let bytes = i16s_bytes(values);
    assert forall|k: int| 0 <= k < values.len() implies signed16(
        u16_of(bytes[2 * k], bytes[2 * k + 1]),
    ) == values[k] by {
        let word = unsigned16(values[k]);
        assert((2 * k) / 2 == k && (2 * k) % 2 == 0);
        assert((2 * k + 1) / 2 == k && (2 * k + 1) % 2 == 1);
        assert(bytes[2 * k] == be_u16(word)[0]);
        assert(bytes[2 * k + 1] == be_u16(word)[1]);
        lemma_u16_back(word);
        assert(signed16(word) == values[k]);
    }
    assert(i16s_of(bytes) =~= values);
}

/// Reading back the bytes of signed thirty-two-bit numbers gives the numbers.
#[verifier::spinoff_prover]
#[verifier::rlimit(50)]
pub proof fn lemma_i32s_round_trip(values: Seq<i32>)
    ensures
        i32s_of(i32s_bytes(values)) == values,
{
    let bytes = i32s_bytes(values);
    assert forall|k: int| 0 <= k < values.len() implies signed32(
        u32_of(bytes[4 * k], bytes[4 * k + 1], bytes[4 * k + 2], bytes[4 * k + 3]),
    ) == values[k] by {
        let word = unsigned32(values[k]);
        assert((4 * k) / 4 == k && (4 * k) % 4 == 0);
        assert((4 * k + 1) / 4 == k && (4 * k + 1) % 4 == 1);
        assert((4 * k + 2) / 4 == k && (4 * k + 2) % 4 == 2);
        assert((4 * k + 3) / 4 == k && (4 * k + 3) % 4 == 3);
        assert(bytes[4 * k] == be_u32(word)[0]);
        assert(bytes[4 * k + 1] == be_u32(word)[1]);
        assert(bytes[4 * k + 2] == be_u32(word)[2]);
        assert(bytes[4 * k + 3] == be_u32(word)[3]);
        lemma_u32_back(word);
        assert(signed32(word) == values[k]);
    }
    assert(i32s_of(bytes) =~= values);
}

/// A layer or a data type that fits sixteen signed bits comes back from its low word.
pub proof fn lemma_low_word_signed(value: int)
    requires
        -0x8000 <= value <= 0x7FFF,
    ensures
        signed16(low_word(value)) == value,
{
}

} // verus!
