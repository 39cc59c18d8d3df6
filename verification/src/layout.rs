//! The fixed layouts of a decimal: two 64-bit words, or sixteen bytes.
//!
//! The mantissa always comes first, then the exponent. Each field is copied
//! as it is, so every pair survives a round trip bit for bit, whether it is
//! in normal form or not.

use vstd::prelude::*;
use crate::decimal::Decimal;

verus! {

/// The eight bytes of a word, the lowest first.
pub open spec fn le_bytes_of(x: u64) -> Seq<u8> {
    seq![
        (x % 0x100) as u8,
        (x / 0x100 % 0x100) as u8,
        (x / 0x1_0000 % 0x100) as u8,
        (x / 0x100_0000 % 0x100) as u8,
        (x / 0x1_0000_0000 % 0x100) as u8,
        (x / 0x100_0000_0000 % 0x100) as u8,
        (x / 0x1_0000_0000_0000 % 0x100) as u8,
        (x / 0x100_0000_0000_0000 % 0x100) as u8,
    ]
}

/// The eight bytes of a word, the highest first.
pub open spec fn be_bytes_of(x: u64) -> Seq<u8> {
    seq![
        (x / 0x100_0000_0000_0000 % 0x100) as u8,
        (x / 0x1_0000_0000_0000 % 0x100) as u8,
        (x / 0x100_0000_0000 % 0x100) as u8,
        (x / 0x1_0000_0000 % 0x100) as u8,
        (x / 0x100_0000 % 0x100) as u8,
        (x / 0x1_0000 % 0x100) as u8,
        (x / 0x100 % 0x100) as u8,
        (x % 0x100) as u8,
    ]
}

/// The word that eight bytes spell, the first byte the lowest.
pub open spec fn word_of_le(b: Seq<u8>) -> u64 {
    (b[0] + b[1] * 0x100 + b[2] * 0x1_0000 + b[3] * 0x100_0000 + b[4] * 0x1_0000_0000 + b[5]
        * 0x100_0000_0000 + b[6] * 0x1_0000_0000_0000 + b[7] * 0x100_0000_0000_0000) as u64
}

/// The word that eight bytes spell, the first byte the highest.
pub open spec fn word_of_be(b: Seq<u8>) -> u64 {
    (b[7] + b[6] * 0x100 + b[5] * 0x1_0000 + b[4] * 0x100_0000 + b[3] * 0x1_0000_0000 + b[2]
        * 0x100_0000_0000 + b[1] * 0x1_0000_0000_0000 + b[0] * 0x100_0000_0000_0000) as u64
}

impl Decimal {
    /// The two words of the layout in words.
    pub open spec fn words(&self) -> Seq<u64> {
        seq![self.mantissa, self.exponent]
    }

    /// The decimal that two words hold.
    pub open spec fn of_words(w: Seq<u64>) -> Decimal {
        Decimal { mantissa: w[0], exponent: w[1] }
    }

    /// The sixteen bytes of the little-endian layout.
    pub open spec fn le_bytes(&self) -> Seq<u8> {
        le_bytes_of(self.mantissa) + le_bytes_of(self.exponent)
    }

    /// The sixteen bytes of the big-endian layout.
    pub open spec fn be_bytes(&self) -> Seq<u8> {
        be_bytes_of(self.mantissa) + be_bytes_of(self.exponent)
    }

    /// The decimal that sixteen bytes of the little-endian layout hold.
    pub open spec fn of_le_bytes(b: Seq<u8>) -> Decimal {
        Decimal { mantissa: word_of_le(b.subrange(0, 8)), exponent: word_of_le(b.subrange(8, 16)) }
    }

    /// The decimal that sixteen bytes of the big-endian layout hold.
    pub open spec fn of_be_bytes(b: Seq<u8>) -> Decimal {
        Decimal { mantissa: word_of_be(b.subrange(0, 8)), exponent: word_of_be(b.subrange(8, 16)) }
    }
}

/// The byte of a word that stands `shift` bits up.
fn byte_at(x: u64, shift: u64) -> (b: u8)
    requires
        shift == 0 || shift == 8 || shift == 16 || shift == 24 || shift == 32 || shift == 40
            || shift == 48 || shift == 56,
    ensures
        shift == 0 ==> b == x % 0x100,
        shift == 8 ==> b == x / 0x100 % 0x100,
        shift == 16 ==> b == x / 0x1_0000 % 0x100,
        shift == 24 ==> b == x / 0x100_0000 % 0x100,
        shift == 32 ==> b == x / 0x1_0000_0000 % 0x100,
        shift == 40 ==> b == x / 0x100_0000_0000 % 0x100,
        shift == 48 ==> b == x / 0x1_0000_0000_0000 % 0x100,
        shift == 56 ==> b == x / 0x100_0000_0000_0000 % 0x100,
{
    assert((x >> 0) & 0xff == x % 0x100) by (bit_vector);
    assert((x >> 8) & 0xff == x / 0x100 % 0x100) by (bit_vector);
    assert((x >> 16) & 0xff == x / 0x1_0000 % 0x100) by (bit_vector);
    assert((x >> 24) & 0xff == x / 0x100_0000 % 0x100) by (bit_vector);
    assert((x >> 32) & 0xff == x / 0x1_0000_0000 % 0x100) by (bit_vector);
    assert((x >> 40) & 0xff == x / 0x100_0000_0000 % 0x100) by (bit_vector);
    assert((x >> 48) & 0xff == x / 0x1_0000_0000_0000 % 0x100) by (bit_vector);
    assert((x >> 56) & 0xff == x / 0x100_0000_0000_0000 % 0x100) by (bit_vector);
    ((x >> shift) & 0xff) as u8
}

/// The word that eight bytes spell, given from the lowest byte up.
fn word_of(b0: u8, b1: u8, b2: u8, b3: u8, b4: u8, b5: u8, b6: u8, b7: u8) -> (x: u64)
    ensures
        x == word_of_le(seq![b0, b1, b2, b3, b4, b5, b6, b7]),
        x == word_of_be(seq![b7, b6, b5, b4, b3, b2, b1, b0]),
{
    assert(((b0 as u64) | ((b1 as u64) << 8) | ((b2 as u64) << 16) | ((b3 as u64) << 24) | ((
    b4 as u64) << 32) | ((b5 as u64) << 40) | ((b6 as u64) << 48) | ((b7 as u64) << 56)) == b0 + b1
        * 0x100 + b2 * 0x1_0000 + b3 * 0x100_0000 + b4 * 0x1_0000_0000 + b5 * 0x100_0000_0000 + b6
        * 0x1_0000_0000_0000 + b7 * 0x100_0000_0000_0000) by (bit_vector);
    (b0 as u64) | ((b1 as u64) << 8) | ((b2 as u64) << 16) | ((b3 as u64) << 24) | ((b4 as u64)
        << 32) | ((b5 as u64) << 40) | ((b6 as u64) << 48) | ((b7 as u64) << 56)
}

impl Decimal {
    /// The decimal of two words: the mantissa's pattern, then the exponent's.
    pub fn from_bits(bits: &[u64; 2]) -> (d: Decimal)
        ensures
            d == Decimal::of_words(bits@),
    {
        Decimal { mantissa: bits[0], exponent: bits[1] }
    }

    /// The two words of a decimal: the mantissa's pattern, then the exponent's.
    pub fn to_bits(&self) -> (bits: [u64; 2])
        ensures
            bits@ == self.words(),
    {
        let bits: [u64; 2] = [self.mantissa, self.exponent];
        assert(bits@ =~= self.words());
        bits
    }

    /// The decimal that the big-endian layout holds.
    pub fn from_be_bytes(bytes: &[u8; 16]) -> (d: Decimal)
        ensures
            d == Decimal::of_be_bytes(bytes@),
    {
        let mantissa: u64 = word_of(
            bytes[7],
            bytes[6],
            bytes[5],
            bytes[4],
            bytes[3],
            bytes[2],
            bytes[1],
            bytes[0],
        );
        let exponent: u64 = word_of(
            bytes[15],
            bytes[14],
            bytes[13],
            bytes[12],
            bytes[11],
            bytes[10],
            bytes[9],
            bytes[8],
        );
        assert(bytes@.subrange(0, 8) =~= seq![
            bytes@[0],
            bytes@[1],
            bytes@[2],
            bytes@[3],
            bytes@[4],
            bytes@[5],
            bytes@[6],
            bytes@[7],
        ]);
        assert(bytes@.subrange(8, 16) =~= seq![
            bytes@[8],
            bytes@[9],
            bytes@[10],
            bytes@[11],
            bytes@[12],
            bytes@[13],
            bytes@[14],
            bytes@[15],
        ]);
        Decimal { mantissa, exponent }
    }

    /// The big-endian layout: each field's eight bytes, the highest first.
    pub fn to_be_bytes(&self) -> (bytes: [u8; 16])
        ensures
            bytes@ == self.be_bytes(),
    {
        let m: u64 = self.mantissa;
        let e: u64 = self.exponent;
        let bytes: [u8; 16] = [
            byte_at(m, 56),
            byte_at(m, 48),
            byte_at(m, 40),
            byte_at(m, 32),
            byte_at(m, 24),
            byte_at(m, 16),
            byte_at(m, 8),
            byte_at(m, 0),
            byte_at(e, 56),
            byte_at(e, 48),
            byte_at(e, 40),
            byte_at(e, 32),
            byte_at(e, 24),
            byte_at(e, 16),
            byte_at(e, 8),
            byte_at(e, 0),
        ];
        assert(bytes@ =~= self.be_bytes());
        bytes
    }

    /// The decimal that the little-endian layout holds.
    pub fn from_le_bytes(bytes: &[u8; 16]) -> (d: Decimal)
        ensures
            d == Decimal::of_le_bytes(bytes@),
    {
        let mantissa: u64 = word_of(
            bytes[0],
            bytes[1],
            bytes[2],
            bytes[3],
            bytes[4],
            bytes[5],
            bytes[6],
            bytes[7],
        );
        let exponent: u64 = word_of(
            bytes[8],
            bytes[9],
            bytes[10],
            bytes[11],
            bytes[12],
            bytes[13],
            bytes[14],
            bytes[15],
        );
        assert(bytes@.subrange(0, 8) =~= seq![
            bytes@[0],
            bytes@[1],
            bytes@[2],
            bytes@[3],
            bytes@[4],
            bytes@[5],
            bytes@[6],
            bytes@[7],
        ]);
        assert(bytes@.subrange(8, 16) =~= seq![
            bytes@[8],
            bytes@[9],
            bytes@[10],
            bytes@[11],
            bytes@[12],
            bytes@[13],
            bytes@[14],
            bytes@[15],
        ]);
        Decimal { mantissa, exponent }
    }

    /// The little-endian layout: each field's eight bytes, the lowest first.
    pub fn to_le_bytes(&self) -> (bytes: [u8; 16])
        ensures
            bytes@ == self.le_bytes(),
    {
        let m: u64 = self.mantissa;
        let e: u64 = self.exponent;
        let bytes: [u8; 16] = [
            byte_at(m, 0),
            byte_at(m, 8),
            byte_at(m, 16),
            byte_at(m, 24),
            byte_at(m, 32),
            byte_at(m, 40),
            byte_at(m, 48),
            byte_at(m, 56),
            byte_at(e, 0),
            byte_at(e, 8),
            byte_at(e, 16),
            byte_at(e, 24),
            byte_at(e, 32),
            byte_at(e, 40),
            byte_at(e, 48),
            byte_at(e, 56),
        ];
        assert(bytes@ =~= self.le_bytes());
        bytes
    }
}

/// A word is the word that its eight bytes spell, in either order.
pub proof fn lemma_word_round_trip(x: u64)
    ensures
        le_bytes_of(x).len() == 8,
        be_bytes_of(x).len() == 8,
        word_of_le(le_bytes_of(x)) == x,
        word_of_be(be_bytes_of(x)) == x,
{
    assert(x % 0x100 + (x / 0x100 % 0x100) * 0x100 + (x / 0x1_0000 % 0x100) * 0x1_0000 + (x
        / 0x100_0000 % 0x100) * 0x100_0000 + (x / 0x1_0000_0000 % 0x100) * 0x1_0000_0000 + (x
        / 0x100_0000_0000 % 0x100) * 0x100_0000_0000 + (x / 0x1_0000_0000_0000 % 0x100)
        * 0x1_0000_0000_0000 + (x / 0x100_0000_0000_0000 % 0x100) * 0x100_0000_0000_0000 == x)
        by (bit_vector);
}

/// The bytes of a sum of eight bytes, each at its place, are those bytes.
proof fn lemma_places(b0: u8, b1: u8, b2: u8, b3: u8, b4: u8, b5: u8, b6: u8, b7: u8, x: u64)
    by (bit_vector)
    requires
        x == b0 + b1 * 0x100 + b2 * 0x1_0000 + b3 * 0x100_0000 + b4 * 0x1_0000_0000 + b5
            * 0x100_0000_0000 + b6 * 0x1_0000_0000_0000 + b7 * 0x100_0000_0000_0000,
    ensures
        x % 0x100 == b0,
        x / 0x100 % 0x100 == b1,
        x / 0x1_0000 % 0x100 == b2,
        x / 0x100_0000 % 0x100 == b3,
        x / 0x1_0000_0000 % 0x100 == b4,
        x / 0x100_0000_0000 % 0x100 == b5,
        x / 0x1_0000_0000_0000 % 0x100 == b6,
        x / 0x100_0000_0000_0000 % 0x100 == b7,
{
}

/// Eight bytes are the bytes of the word that they spell, in either order.
pub proof fn lemma_bytes_round_trip(b: Seq<u8>)
    requires
        b.len() == 8,
    ensures
        le_bytes_of(word_of_le(b)) == b,
        be_bytes_of(word_of_be(b)) == b,
{
    lemma_places(b[0], b[1], b[2], b[3], b[4], b[5], b[6], b[7], word_of_le(b));
    lemma_places(b[7], b[6], b[5], b[4], b[3], b[2], b[1], b[0], word_of_be(b));
    assert(le_bytes_of(word_of_le(b)) =~= b);
    assert(be_bytes_of(word_of_be(b)) =~= b);
}

/// Two runs of eight bytes, joined and cut again, are the two runs.
proof fn lemma_halves(m: Seq<u8>, e: Seq<u8>)
    requires
        m.len() == 8,
        e.len() == 8,
    ensures
        (m + e).len() == 16,
        (m + e).subrange(0, 8) == m,
        (m + e).subrange(8, 16) == e,
{
    assert((m + e).subrange(0, 8) =~= m);
    assert((m + e).subrange(8, 16) =~= e);
}

/// Sixteen bytes are their two halves, joined.
proof fn lemma_joined(b: Seq<u8>)
    requires
        b.len() == 16,
    ensures
        b.subrange(0, 8).len() == 8,
        b.subrange(8, 16).len() == 8,
        b.subrange(0, 8) + b.subrange(8, 16) == b,
{
    assert(b.subrange(0, 8) + b.subrange(8, 16) =~= b);
}

/// Reading the little-endian layout of a decimal gives the decimal back, bit
/// for bit, and writing what sixteen bytes hold gives the bytes back.
pub proof fn law_le_bytes_round_trip(x: Decimal, b: Seq<u8>)
    requires
        b.len() == 16,
    ensures
        x.le_bytes().len() == 16,
        Decimal::of_le_bytes(x.le_bytes()) == x,
        Decimal::of_le_bytes(b).le_bytes() == b,
{
    lemma_word_round_trip(x.mantissa);
    lemma_word_round_trip(x.exponent);
    lemma_halves(le_bytes_of(x.mantissa), le_bytes_of(x.exponent));
    lemma_joined(b);
    lemma_bytes_round_trip(b.subrange(0, 8));
    lemma_bytes_round_trip(b.subrange(8, 16));
}

/// Reading the big-endian layout of a decimal gives the decimal back, bit for
/// bit, and writing what sixteen bytes hold gives the bytes back.
pub proof fn law_be_bytes_round_trip(x: Decimal, b: Seq<u8>)
    requires
        b.len() == 16,
    ensures
        x.be_bytes().len() == 16,
        Decimal::of_be_bytes(x.be_bytes()) == x,
        Decimal::of_be_bytes(b).be_bytes() == b,
{
    lemma_word_round_trip(x.mantissa);
    lemma_word_round_trip(x.exponent);
    lemma_halves(be_bytes_of(x.mantissa), be_bytes_of(x.exponent));
    lemma_joined(b);
    lemma_bytes_round_trip(b.subrange(0, 8));
    lemma_bytes_round_trip(b.subrange(8, 16));
}

/// Reading the two words of a decimal gives the decimal back, bit for bit,
/// and writing what two words hold gives the words back.
pub proof fn law_bits_round_trip(x: Decimal, w: Seq<u64>)
    requires
        w.len() == 2,
    ensures
        x.words().len() == 2,
        Decimal::of_words(x.words()) == x,
        Decimal::of_words(w).words() == w,
{
    assert(Decimal::of_words(w).words() =~= w);
}

} // verus!
