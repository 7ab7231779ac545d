//! A bounded queue of bits that takes whole bytes in and gives bit fields
//! of any width out.
use crate::bits::{
    be_value, byte_bits, le_value, lemma_be_value_bound, lemma_be_value_injective,
    lemma_be_value_low_bits, low_bits,
};
use crate::reverse::reverse_bits;
use crate::truncate::Bits;
use vstd::arithmetic::div_mod::{lemma_basic_div, lemma_small_mod};
use vstd::arithmetic::power2::{
    lemma2_to64, lemma2_to64_rest, lemma_pow2_adds, lemma_pow2_pos, lemma_pow2_strictly_increases,
    pow2,
};
use vstd::bits::{lemma_u128_shr_is_div, lemma_u64_shl_is_mul};
use vstd::prelude::*;

verus! {

/// The number of bits that a [`BitQueue`] can hold.
pub const CAPACITY: usize = 128;

/// A queue of at most [`CAPACITY`] bits. Its view is the run of bits that
/// wait in it, the oldest first.
pub struct BitQueue {
    /// The waiting bits, right-justified: the oldest is bit `bit_count - 1`
    /// and no bit is set above it.
    store: u128,
    bit_count: usize,
}

impl View for BitQueue {
    type V = Seq<bool>;

    closed spec fn view(&self) -> Seq<bool> {
        low_bits(self.store, self.bit_count as nat)
    }
}

impl BitQueue {
    #[verifier::type_invariant]
    spec fn well_formed(self) -> bool {
        &&& self.bit_count <= CAPACITY
        &&& self.bit_count < CAPACITY ==> self.store >> (self.bit_count as u128) == 0
    }

    /// An empty queue.
    pub fn new() -> (queue: BitQueue)
        ensures
            queue@ == Seq::<bool>::empty(),
    {
        assert(0u128 >> 0u128 == 0) by (bit_vector);
        BitQueue { store: 0, bit_count: 0 }
    }

    /// Appends the eight bits of `byte`, most significant first, behind the
    /// bits that wait.
    pub fn push(&mut self, byte: u8)
        requires
            old(self)@.len() + 8 <= CAPACITY,
        ensures
            final(self)@ == old(self)@ + byte_bits(byte),
    {
        proof {
            use_type_invariant(&*self);
        }
        let ghost before = self.store;
        let ghost n = self.bit_count as nat;
        let store = (self.store << 8) | (byte as u128);
        proof {
            if n < 120 {
                lemma_push(before, byte, n as u128);
            }
            assert forall|i: int| 0 <= i < n + 8 implies low_bits(store, n + 8)[i] == (low_bits(
                before,
                n,
            ) + byte_bits(byte))[i] by {
                if i < n {
                    lemma_push(before, byte, (n - 1 - i) as u128);
                } else {
                    lemma_push(before, byte, (n + 7 - i) as u128);
                }
            }
        }
        *self = BitQueue { store, bit_count: self.bit_count + 8 };
    }

    /// Takes the `count` oldest bits out and returns them right-justified:
    /// they are the low `count` bits of the result, the oldest of them the
    /// most significant, and every bit above them is zero.
    pub fn pop<T: Bits>(&mut self, count: usize) -> (value: T)
        requires
            count <= old(self)@.len(),
            count <= T::width(),
        ensures
            value.raw() == be_value(old(self)@.take(count as int)),
            final(self)@ == old(self)@.skip(count as int),
    {
        proof {
            use_type_invariant(&*self);
        }
        let ghost before = self.store;
        let ghost n = self.bit_count as nat;
        if count == 0 {
            proof {
                lemma_pow2_pos(T::width());
            }
            return T::from_raw(0);
        }
        let kept = self.bit_count - count;
        let (field, rest) = if kept == 0 {
            (self.store, 0u128)
        } else {
            (self.store >> kept, self.store & (u128::MAX >> (128 - kept)))
        };
        proof {
            let taken = self@.take(count as int);
            assert(low_bits(field, count as nat) =~= taken) by {
                assert forall|i: int| 0 <= i < count implies low_bits(field, count as nat)[i]
                    == taken[i] by {
                    if kept > 0 {
                        lemma_pop_taken(before, kept as u128, (count - 1 - i) as u128);
                    }
                }
            }
            assert(low_bits(rest, kept as nat) =~= self@.skip(count as int)) by {
                assert forall|i: int| 0 <= i < kept implies low_bits(rest, kept as nat)[i]
                    == self@.skip(count as int)[i] by {
                    lemma_pop_kept(before, kept as u128, (kept - 1 - i) as u128);
                }
            }
            if kept > 0 {
                lemma_pop_taken(before, kept as u128, count as u128);
                lemma_pop_kept(before, kept as u128, 0);
            } else {
                assert(0u128 >> 0u128 == 0) by (bit_vector);
            }
            T::lemma_width();
            lemma_be_value_low_bits(field, count as nat);
            lemma_be_value_bound(taken);
            lemma2_to64_rest();
            if count < 64 {
                lemma_pow2_strictly_increases(count as nat, 64);
            }
            if count < T::width() {
                lemma_pow2_strictly_increases(count as nat, T::width());
            }
            lemma_small_mod(field as nat, pow2(T::width()));
        }
        *self = BitQueue { store: rest, bit_count: kept };
        T::from_raw(field as u64)
    }

    /// Takes the `count` oldest bits out and returns them in little-endian
    /// bit order: group by group of eight bits, each group with its oldest
    /// bit as the least significant one.
    pub fn pop_reversed<T: Bits>(&mut self, count: usize) -> (value: T)
        requires
            count <= old(self)@.len(),
            count <= T::width(),
        ensures
            value.raw() == le_value(old(self)@.take(count as int)),
            final(self)@ == old(self)@.skip(count as int),
    {
        let ghost field = self@.take(count as int);
        let ghost rest = self@.skip(count as int);
        let mut value: u64 = 0;
        let mut left: usize = count;
        proof {
            T::lemma_width();
            lemma2_to64();
            assert(field.skip(0) =~= field);
        }
        while left > 0
            invariant
                left <= count <= 64,
                field.len() == count,
                self@ == field.skip(count - left) + rest,
                left > 0 ==> (count - left) % 8 == 0,
                value < pow2((count - left) as nat),
                le_value(field) == value * pow2(left as nat) + le_value(field.skip(count - left)),
            decreases left,
        {
            let ghost done = (count - left) as nat;
            let ghost ahead = field.skip(done as int);
            let width: usize = if left < 8 {
                left
            } else {
                8
            };
            let group: u8 = self.pop::<u8>(width);
            let mirrored = reverse_bits(group, width);
            proof {
                let taken = ahead.take(width as int);
                assert((ahead + rest).take(width as int) =~= taken);
                assert(ahead.skip(width as int) =~= field.skip(done + width));
                if left <= 8 {
                    assert(taken =~= ahead);
                    lemma2_to64();
                }
                // `group` holds the bits of `taken`, so `mirrored` is what they spell backwards
                lemma_group_bits(group, taken);
                lemma_be_value_bound(taken.reverse());
                lemma_group_joined(value, mirrored, done, width as nat, (left - width) as nat);
            }
            value = (value << width) | (mirrored as u64);
            left = left - width;
        }
        proof {
            assert(value * 1 == value);
            if count < T::width() {
                lemma_pow2_strictly_increases(count as nat, T::width());
            }
            lemma_small_mod(value as nat, pow2(T::width()));
        }
        T::from_raw(value)
    }

    /// Whether no bit waits.
    pub fn is_empty(&self) -> (empty: bool)
        ensures
            empty == (self@.len() == 0),
    {
        self.bit_count == 0
    }

    /// The number of bits that wait.
    pub fn len(&self) -> (len: usize)
        ensures
            len == self@.len(),
    {
        self.bit_count
    }

    /// The waiting bits as one number, the oldest bit the most significant.
    pub fn inner(&self) -> (bits: u128)
        ensures
            bits == be_value(self@),
    {
        proof {
            use_type_invariant(self);
            lemma_be_value_low_bits(self.store, self.bit_count as nat);
        }
        self.store
    }
}

/// A byte shifted in below `store`: the bits of `store` stand eight places
/// higher, the bits of `byte` are the low eight, and as many bits are clear
/// at the top as before.
proof fn lemma_push(store: u128, byte: u8, k: u128)
    by (bit_vector)
    requires
        k < 120,
    ensures
        (((store << 8) | (byte as u128)) >> ((k + 8) as u128)) & 1 == (store >> k) & 1,
        k < 8 ==> (((store << 8) | (byte as u128)) >> k) & 1 == ((byte as u128) >> k) & 1,
        store >> k == 0 ==> ((store << 8) | (byte as u128)) >> ((k + 8) as u128) == 0,
{
}

/// Bits put where a shift left room for them come to the same as added.
proof fn lemma_merge(high: u64, low: u64, width: u64)
    by (bit_vector)
    requires
        1 <= width <= 8,
        low < (1u64 << width),
    ensures
        (high << width) | low == (high << width) + low,
{
}

/// A byte that spells what `bits` spell has `bits` as its low bits.
proof fn lemma_group_bits(group: u8, bits: Seq<bool>)
    requires
        bits.len() <= 8,
        group == be_value(bits),
    ensures
        low_bits(group as u128, bits.len()) == bits,
{
    let width = bits.len();
    lemma_be_value_bound(bits);
    lemma_u128_shr_is_div(group as u128, width as u128);
    lemma_basic_div(group as int, pow2(width) as int);
    lemma_be_value_low_bits(group as u128, width);
    lemma_be_value_injective(low_bits(group as u128, width), bits);
}

/// Moving `value`, of `gathered` bits, up by `width` bits and putting
/// `group` in the place that opens is `value * 2^width + group`, a number
/// of `gathered + width` bits; with `below` more bits to come, it stands
/// for `value * 2^(width + below) + group * 2^below`.
proof fn lemma_group_joined(value: u64, group: u8, gathered: nat, width: nat, below: nat)
    requires
        1 <= width <= 8,
        gathered + width <= 64,
        value < pow2(gathered),
        group < pow2(width),
    ensures
        (value << (width as u64)) | (group as u64) == value * pow2(width) + group,
        value * pow2(width) + group < pow2(gathered + width),
        (value * pow2(width) + group) * pow2(below) == value * pow2(width + below) + group * pow2(
            below,
        ),
{
    let (v, g, p, q, r) = (value as nat, group as nat, pow2(width), pow2(gathered), pow2(below));
    lemma2_to64();
    lemma2_to64_rest();
    lemma_pow2_adds(gathered, width);
    lemma_pow2_adds(width, below);
    if gathered + width < 64 {
        lemma_pow2_strictly_increases(gathered + width, 64);
    }
    lemma_pow2_strictly_increases(width, 9);
    assert(v * p + g < q * p) by (nonlinear_arith)
        requires
            v < q,
            g < p,
    ;
    assert((v * p + g) * r == v * (p * r) + g * r) by (nonlinear_arith);
    lemma_u64_shl_is_mul(value, width as u64);
    lemma_u64_shl_is_mul(1, width as u64);
    lemma_merge(value, group as u64, width as u64);
}

/// What is above bit `kept` of `store`, shifted down: bit `k` of it is bit
/// `kept + k` of `store`, and it has no more bits than `store` has above.
proof fn lemma_pop_taken(store: u128, kept: u128, k: u128)
    by (bit_vector)
    requires
        0 < kept < 128,
        k < 128,
    ensures
        kept + k < 128 ==> ((store >> kept) >> k) & 1 == (store >> ((kept + k) as u128)) & 1,
        kept + k < 128 && store >> ((kept + k) as u128) == 0 ==> (store >> kept) >> k == 0,
        kept + k >= 128 ==> (store >> kept) >> k == 0,
{
}

/// The low `kept` bits of `store`, masked out: they are as in `store`, and
/// no bit is set above them.
proof fn lemma_pop_kept(store: u128, kept: u128, k: u128)
    by (bit_vector)
    requires
        k < kept < 128,
    ensures
        ((store & (u128::MAX >> ((128 - kept) as u128))) >> k) & 1 == (store >> k) & 1,
        (store & (u128::MAX >> ((128 - kept) as u128))) >> kept == 0,
{
}

} // verus!
