//! The model of bit order: a run of bits is a `Seq<bool>` in the order in
//! which the bits travel, and the functions here say which bits a byte is
//! made of and which number a run of bits spells.
use vstd::arithmetic::power2::{lemma2_to64, lemma_pow2_unfold, pow2};
use vstd::prelude::*;

verus! {

/// Bit `k` of `word`, counted from the least significant end.
pub open spec fn bit_at(word: u128, k: nat) -> bool {
    (word >> k) & 1 == 1
}

/// The low `n` bits of `word`, the most significant of them first.
pub open spec fn low_bits(word: u128, n: nat) -> Seq<bool> {
    Seq::new(n, |i: int| bit_at(word, (n - 1 - i) as nat))
}

/// The eight bits of a byte, most significant first: the order in which a
/// byte's bits travel.
pub open spec fn byte_bits(byte: u8) -> Seq<bool> {
    low_bits(byte as u128, 8)
}

/// The bits of a run of bytes: those of the first byte, then those of the
/// second, and so on.
pub open spec fn bytes_bits(bytes: Seq<u8>) -> Seq<bool> {
    Seq::new(8 * bytes.len(), |i: int| byte_bits(bytes[i / 8])[i % 8])
}

/// The number that a run of bits spells when the first bit is the most
/// significant one.
pub open spec fn be_value(bits: Seq<bool>) -> nat
    decreases bits.len(),
{
    if bits.len() == 0 {
        0
    } else {
        2 * be_value(bits.drop_last()) + if bits.last() { 1nat } else { 0nat }
    }
}

/// The number that a run of bits spells in little-endian bit order: the run
/// is cut into groups of eight bits from its start (the last group takes
/// what is left), each group is read with its first bit as the least
/// significant one, and the groups keep their order, the first group in the
/// most significant place.
pub open spec fn le_value(bits: Seq<bool>) -> nat
    decreases bits.len(),
{
    if bits.len() <= 8 {
        be_value(bits.reverse())
    } else {
        be_value(bits.take(8).reverse()) * pow2((bits.len() - 8) as nat) + le_value(bits.skip(8))
    }
}

/// A run of `n` bits spells a number below `2^n`.
pub proof fn lemma_be_value_bound(bits: Seq<bool>)
    ensures
        be_value(bits) < pow2(bits.len()),
    decreases bits.len(),
{
    if bits.len() == 0 {
        lemma2_to64();
    } else {
        lemma_be_value_bound(bits.drop_last());
        lemma_pow2_unfold(bits.len());
    }
}

/// The value of two runs joined: the first run is moved up by the length
/// of the second.
pub proof fn lemma_be_value_concat(front: Seq<bool>, back: Seq<bool>)
    ensures
        be_value(front + back) == be_value(front) * pow2(back.len()) + be_value(back),
    decreases back.len(),
{
    if back.len() == 0 {
        lemma2_to64();
        assert(be_value(front) * 1 == be_value(front));
    } else {
        let all = front + back;
        let p = pow2((back.len() - 1) as nat);
        assert(all.drop_last() =~= front + back.drop_last());
        lemma_be_value_concat(front, back.drop_last());
        lemma_pow2_unfold(back.len());
        assert(be_value(front) * (2 * p) == 2 * (be_value(front) * p)) by (nonlinear_arith);
    }
}

/// The bits of two runs of bytes joined are the bits of the first run, then
/// those of the second.
pub proof fn lemma_bytes_bits_concat(front: Seq<u8>, back: Seq<u8>)
    ensures
        bytes_bits(front + back) == bytes_bits(front) + bytes_bits(back),
{
}

/// The bits of a single byte, as a run of one byte.
pub proof fn lemma_bytes_bits_single(byte: u8)
    ensures
        bytes_bits(seq![byte]) == byte_bits(byte),
{
}

/// The eight bits of a byte spell the byte.
pub proof fn lemma_be_value_byte(byte: u8)
    ensures
        be_value(byte_bits(byte)) == byte,
{
    assert((byte as u128) >> 8 == 0) by (bit_vector);
    lemma_be_value_low_bits(byte as u128, 8);
}

/// Two runs of one length that spell the same number are the same run.
pub proof fn lemma_be_value_injective(a: Seq<bool>, b: Seq<bool>)
    requires
        a.len() == b.len(),
        be_value(a) == be_value(b),
    ensures
        a == b,
    decreases a.len(),
{
    if a.len() > 0 {
        lemma_be_value_injective(a.drop_last(), b.drop_last());
        assert(b =~= b.drop_last().push(b.last()));
    }
}

/// Read in little-endian bit order, the eight bits of a byte spell the
/// byte with its bits in reverse order, and what the bits of that byte
/// spell in turn is the byte itself.
pub proof fn lemma_le_value_of_byte(byte: u8)
    ensures
        le_value(byte_bits(byte)) == be_value(byte_bits(byte).reverse()),
        le_value(byte_bits(byte)) < 256,
        byte_bits(le_value(byte_bits(byte)) as u8) == byte_bits(byte).reverse(),
        le_value(byte_bits(le_value(byte_bits(byte)) as u8)) == byte,
{
    let turned = byte_bits(byte).reverse();
    lemma_be_value_bound(turned);
    lemma2_to64();
    let mirror = be_value(turned) as u8;
    lemma_be_value_byte(mirror);
    lemma_be_value_injective(byte_bits(mirror), turned);
    assert(turned.reverse() =~= byte_bits(byte));
    lemma_be_value_byte(byte);
}

proof fn lemma_halve(word: u128, k: u128)
    by (bit_vector)
    requires
        k < 127,
    ensures
        ((word >> 1) >> k) & 1 == (word >> ((k + 1) as u128)) & 1,
        word >> 0 == word,
        word == 2 * (word >> 1) + (word & 1),
        word & 1 == 0 || word & 1 == 1,
        word >> ((k + 1) as u128) == 0 ==> (word >> 1) >> k == 0,
        (word >> 1) >> 127 == 0,
{
}

/// The low `n` bits of a word spell the word itself when no bit is set
/// above them.
pub proof fn lemma_be_value_low_bits(word: u128, n: nat)
    requires
        n <= 128,
        n < 128 ==> word >> n == 0,
    ensures
        be_value(low_bits(word, n)) == word,
    decreases n,
{
    lemma_halve(word, 0);
    if n > 0 {
        let half = word >> 1;
        assert(low_bits(word, n).drop_last() =~= low_bits(half, (n - 1) as nat)) by {
            assert forall|i: int| 0 <= i < n - 1 implies low_bits(word, n)[i] == low_bits(
                half,
                (n - 1) as nat,
            )[i] by {
                lemma_halve(word, (n - 2 - i) as u128);
            }
        }
        if n < 128 {
            lemma_halve(word, (n - 1) as u128);
        }
        lemma_be_value_low_bits(half, (n - 1) as nat);
    }
}

} // verus!
