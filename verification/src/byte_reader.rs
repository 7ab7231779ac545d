//! Whole integers out of whole bytes, in either byte order.
use crate::bits::{
    be_value, byte_bits, bytes_bits, lemma_be_value_bound, lemma_be_value_byte,
    lemma_be_value_concat, lemma_bytes_bits_concat, lemma_bytes_bits_single,
};
use crate::source::ByteSource;
use crate::truncate::Bits;
use vstd::arithmetic::div_mod::lemma_small_mod;
use vstd::arithmetic::power2::{lemma2_to64, lemma2_to64_rest, pow2};
use vstd::prelude::*;

verus! {

/// The bytes of `bytes` up to index `end` spell, first byte most
/// significant, 256 times what the bytes before the last of them spell,
/// plus that last byte.
proof fn lemma_one_more_byte(bytes: Seq<u8>, end: int)
    requires
        0 < end <= bytes.len(),
    ensures
        be_value(bytes_bits(bytes.take(end))) == 256 * be_value(bytes_bits(bytes.take(end - 1)))
            + bytes[end - 1],
        be_value(bytes_bits(bytes.take(end))) < pow2((8 * end) as nat),
{
    let before = bytes.take(end - 1);
    let last = bytes[end - 1];
    assert(bytes.take(end) =~= before + seq![last]);
    lemma_bytes_bits_concat(before, seq![last]);
    lemma_bytes_bits_single(last);
    lemma_be_value_concat(bytes_bits(before), byte_bits(last));
    lemma_be_value_byte(last);
    lemma2_to64();
    assert(be_value(bytes_bits(before)) * 256 == 256 * be_value(bytes_bits(before)));
    lemma_be_value_bound(bytes_bits(bytes.take(end)));
}

/// The number that at most eight bytes spell, the first byte most
/// significant.
fn decode_be(bytes: &[u8]) -> (value: u64)
    requires
        bytes@.len() <= 8,
    ensures
        value == be_value(bytes_bits(bytes@)),
{
    let mut value: u64 = 0;
    let mut i: usize = 0;
    proof {
        lemma2_to64();
    }
    while i < bytes.len()
        invariant
            i <= bytes@.len() <= 8,
            value == be_value(bytes_bits(bytes@.take(i as int))),
            value < pow2((8 * i) as nat),
        decreases bytes@.len() - i,
    {
        proof {
            lemma_one_more_byte(bytes@, i + 1);
            lemma2_to64();
            lemma2_to64_rest();
        }
        value = value * 256 + bytes[i] as u64;
        i = i + 1;
    }
    assert(bytes@.take(i as int) =~= bytes@);
    value
}

/// The number that at most eight bytes spell, the last byte most
/// significant.
fn decode_le(bytes: &[u8]) -> (value: u64)
    requires
        bytes@.len() <= 8,
    ensures
        value == be_value(bytes_bits(bytes@.reverse())),
{
    let ghost turned = bytes@.reverse();
    let mut value: u64 = 0;
    let mut i: usize = bytes.len();
    proof {
        lemma2_to64();
    }
    while i > 0
        invariant
            i <= bytes@.len() <= 8,
            turned == bytes@.reverse(),
            value == be_value(bytes_bits(turned.take(bytes@.len() - i))),
            value < pow2((8 * (bytes@.len() - i)) as nat),
        decreases i,
    {
        proof {
            lemma_one_more_byte(turned, bytes@.len() - i + 1);
            lemma2_to64();
            lemma2_to64_rest();
        }
        i = i - 1;
        value = value * 256 + bytes[i] as u64;
    }
    assert(turned.take(bytes@.len() as int) =~= turned);
    value
}

/// Integers that are made from their bytes in big-endian order.
pub trait FromBigEndian: Bits {
    /// The integer whose bytes are `int_bytes`, the first of them the most
    /// significant.
    fn from_be(int_bytes: &[u8]) -> (value: Self)
        requires
            8 * int_bytes@.len() == Self::width(),
        ensures
            value.raw() == be_value(bytes_bits(int_bytes@)),
    ;
}

/// Integers that are made from their bytes in little-endian order.
pub trait FromLittleEndian: Bits {
    /// The integer whose bytes are `int_bytes`, the last of them the most
    /// significant.
    fn from_le(int_bytes: &[u8]) -> (value: Self)
        requires
            8 * int_bytes@.len() == Self::width(),
        ensures
            value.raw() == be_value(bytes_bits(int_bytes@.reverse())),
    ;
}

/// Integers that are read whole from a byte source, most significant byte
/// first.
pub trait ReadFromBigEndian: Bits {
    /// Reads as many bytes as `Self` has and makes the integer of them, or
    /// reads nothing where the source holds fewer.
    fn read_be(reader: &mut ByteSource) -> (read: Option<Self>)
        ensures
            Self::width() <= 8 * old(reader)@.len() ==> {
                &&& read matches Some(value)
                &&& value.raw() == be_value(bytes_bits(old(reader)@.take(Self::width() as int / 8)))
                &&& final(reader)@ == old(reader)@.skip(Self::width() as int / 8)
            },
            Self::width() > 8 * old(reader)@.len() ==> read is None && final(reader)@ == old(
                reader,
            )@,
    ;
}

impl<T: Bits> FromBigEndian for T {
    fn from_be(int_bytes: &[u8]) -> (value: T) {
        proof {
            T::lemma_width();
        }
        let raw = decode_be(int_bytes);
        proof {
            lemma_be_value_bound(bytes_bits(int_bytes@));
            lemma_small_mod(raw as nat, pow2(T::width()));
        }
        T::from_raw(raw)
    }
}

impl<T: Bits> FromLittleEndian for T {
    fn from_le(int_bytes: &[u8]) -> (value: T) {
        proof {
            T::lemma_width();
        }
        let raw = decode_le(int_bytes);
        proof {
            lemma_be_value_bound(bytes_bits(int_bytes@.reverse()));
            lemma_small_mod(raw as nat, pow2(T::width()));
        }
        T::from_raw(raw)
    }
}

impl<T: Bits> ReadFromBigEndian for T {
    fn read_be(reader: &mut ByteSource) -> (read: Option<T>) {
        proof {
            T::lemma_width();
        }
        match reader.read_exact(T::bit_width() / 8) {
            Some(bytes) => Some(T::from_be(bytes.as_slice())),
            None => None,
        }
    }
}

} // verus!
