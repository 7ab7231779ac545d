//! Fixed-width integers as the bits they are stored in, and the narrowing
//! of one width to another.
use vstd::arithmetic::div_mod::lemma_small_mod;
use vstd::arithmetic::power2::{lemma2_to64, lemma2_to64_rest, pow2};
use vstd::prelude::*;

verus! {

/// An integer type of a fixed width, taken as raw bits: a signed type is
/// read in two's complement, so that every value of the type stands for one
/// number below `2^width`.
pub trait Bits: Sized {
    /// The number of bits of the type.
    spec fn width() -> nat;

    /// The number that the bits of `self` spell when they are read as
    /// unsigned.
    spec fn raw(self) -> nat;

    /// A type is between 1 and 64 bits wide, in whole bytes.
    proof fn lemma_width()
        ensures
            0 < Self::width() <= 64,
            Self::width() % 8 == 0,
    ;

    /// The bits of a value spell a number that fits in the type's width.
    proof fn lemma_raw_fits(self)
        ensures
            self.raw() < pow2(Self::width()),
    ;

    /// Values with the same bits are the same value.
    proof fn lemma_raw_is_one_to_one(self, other: Self)
        ensures
            self.raw() == other.raw() ==> self == other,
    ;

    /// The width of the type in bits.
    fn bit_width() -> (width: usize)
        ensures
            width == Self::width(),
    ;

    /// The value whose bits are the low `width` bits of `raw`. Bits above
    /// them are dropped and none is copied upwards: a signed result is
    /// negative only where bit `width - 1` of `raw` is set.
    fn from_raw(raw: u64) -> (value: Self)
        ensures
            value.raw() == raw as nat % pow2(Self::width()),
    ;
}

/// Narrowing to a smaller integer type: the low bits stay, the rest is
/// dropped.
pub trait TruncateTo<T: Bits>: Bits {
    /// The value of `T` that has the low `T::width()` bits of `self`.
    fn truncate(&self) -> (small: T)
        ensures
            small.raw() == self.raw() % pow2(T::width()),
    ;
}

impl Bits for u8 {
    open spec fn width() -> nat {
        8
    }

    open spec fn raw(self) -> nat {
        self as nat
    }

    proof fn lemma_width() {
    }

    proof fn lemma_raw_fits(self) {
        lemma2_to64();
    }

    proof fn lemma_raw_is_one_to_one(self, other: Self) {
    }

    fn bit_width() -> (width: usize) {
        8
    }

    fn from_raw(raw: u64) -> (value: u8) {
        raw.truncate()
    }
}

impl Bits for u16 {
    open spec fn width() -> nat {
        16
    }

    open spec fn raw(self) -> nat {
        self as nat
    }

    proof fn lemma_width() {
    }

    proof fn lemma_raw_fits(self) {
        lemma2_to64();
    }

    proof fn lemma_raw_is_one_to_one(self, other: Self) {
    }

    fn bit_width() -> (width: usize) {
        16
    }

    fn from_raw(raw: u64) -> (value: u16) {
        raw.truncate()
    }
}

impl Bits for u32 {
    open spec fn width() -> nat {
        32
    }

    open spec fn raw(self) -> nat {
        self as nat
    }

    proof fn lemma_width() {
    }

    proof fn lemma_raw_fits(self) {
        lemma2_to64();
    }

    proof fn lemma_raw_is_one_to_one(self, other: Self) {
    }

    fn bit_width() -> (width: usize) {
        32
    }

    fn from_raw(raw: u64) -> (value: u32) {
        raw.truncate()
    }
}

impl Bits for u64 {
    open spec fn width() -> nat {
        64
    }

    open spec fn raw(self) -> nat {
        self as nat
    }

    proof fn lemma_width() {
    }

    proof fn lemma_raw_fits(self) {
        lemma2_to64_rest();
    }

    proof fn lemma_raw_is_one_to_one(self, other: Self) {
    }

    fn bit_width() -> (width: usize) {
        64
    }

    fn from_raw(raw: u64) -> (value: u64) {
        proof {
            lemma2_to64_rest();
            lemma_small_mod(raw as nat, pow2(64));
        }
        raw
    }
}

impl Bits for i8 {
    open spec fn width() -> nat {
        8
    }

    open spec fn raw(self) -> nat {
        if self < 0 {
            (self + 0x100) as nat
        } else {
            self as nat
        }
    }

    proof fn lemma_width() {
    }

    proof fn lemma_raw_fits(self) {
        lemma2_to64();
    }

    proof fn lemma_raw_is_one_to_one(self, other: Self) {
    }

    fn bit_width() -> (width: usize) {
        8
    }

    fn from_raw(raw: u64) -> (value: i8) {
        proof {
            lemma2_to64_rest();
            lemma_small_mod(raw as nat, pow2(64));
        }
        i64::from_raw(raw).truncate()
    }
}

impl Bits for i16 {
    open spec fn width() -> nat {
        16
    }

    open spec fn raw(self) -> nat {
        if self < 0 {
            (self + 0x1_0000) as nat
        } else {
            self as nat
        }
    }

    proof fn lemma_width() {
    }

    proof fn lemma_raw_fits(self) {
        lemma2_to64();
    }

    proof fn lemma_raw_is_one_to_one(self, other: Self) {
    }

    fn bit_width() -> (width: usize) {
        16
    }

    fn from_raw(raw: u64) -> (value: i16) {
        proof {
            lemma2_to64_rest();
            lemma_small_mod(raw as nat, pow2(64));
        }
        i64::from_raw(raw).truncate()
    }
}

impl Bits for i32 {
    open spec fn width() -> nat {
        32
    }

    open spec fn raw(self) -> nat {
        if self < 0 {
            (self + 0x1_0000_0000) as nat
        } else {
            self as nat
        }
    }

    proof fn lemma_width() {
    }

    proof fn lemma_raw_fits(self) {
        lemma2_to64();
    }

    proof fn lemma_raw_is_one_to_one(self, other: Self) {
    }

    fn bit_width() -> (width: usize) {
        32
    }

    fn from_raw(raw: u64) -> (value: i32) {
        proof {
            lemma2_to64_rest();
            lemma_small_mod(raw as nat, pow2(64));
        }
        i64::from_raw(raw).truncate()
    }
}

impl Bits for i64 {
    open spec fn width() -> nat {
        64
    }

    open spec fn raw(self) -> nat {
        if self < 0 {
            (self + 0x1_0000_0000_0000_0000) as nat
        } else {
            self as nat
        }
    }

    proof fn lemma_width() {
    }

    proof fn lemma_raw_fits(self) {
        lemma2_to64_rest();
    }

    proof fn lemma_raw_is_one_to_one(self, other: Self) {
    }

    fn bit_width() -> (width: usize) {
        64
    }

    fn from_raw(raw: u64) -> (value: i64) {
        proof {
            lemma2_to64_rest();
            lemma_small_mod(raw as nat, pow2(64));
        }
        assert((raw as i64) as int == if raw < 0x8000_0000_0000_0000u64 {
            raw as int
        } else {
            raw as int - 0x1_0000_0000_0000_0000
        }) by (bit_vector);
        raw as i64
    }
}

impl Bits for usize {
    open spec fn width() -> nat {
        usize::BITS as nat
    }

    open spec fn raw(self) -> nat {
        self as nat
    }

    proof fn lemma_width() {
    }

    proof fn lemma_raw_fits(self) {
        lemma2_to64();
    }

    proof fn lemma_raw_is_one_to_one(self, other: Self) {
    }

    fn bit_width() -> (width: usize) {
        usize::BITS as usize
    }

    fn from_raw(raw: u64) -> (value: usize) {
        proof {
            lemma2_to64();
        }
        assert(usize::BITS == 32 ==> (raw as usize) as int == raw as int % 0x1_0000_0000)
            by (bit_vector);
        proof {
            if usize::BITS == 64 {
                lemma_small_mod(raw as nat, pow2(64));
            }
        }
        raw as usize
    }
}

impl Bits for isize {
    open spec fn width() -> nat {
        usize::BITS as nat
    }

    open spec fn raw(self) -> nat {
        if self < 0 {
            (self + pow2(usize::BITS as nat)) as nat
        } else {
            self as nat
        }
    }

    proof fn lemma_width() {
    }

    proof fn lemma_raw_fits(self) {
        lemma2_to64();
    }

    proof fn lemma_raw_is_one_to_one(self, other: Self) {
        lemma2_to64();
    }

    fn bit_width() -> (width: usize) {
        usize::BITS as usize
    }

    fn from_raw(raw: u64) -> (value: isize) {
        proof {
            lemma2_to64();
        }
        assert(usize::BITS == 64 ==> (raw as isize) as int == if raw < 0x8000_0000_0000_0000u64 {
            raw as int
        } else {
            raw as int - 0x1_0000_0000_0000_0000
        }) by (bit_vector);
        assert(usize::BITS == 32 ==> (raw as isize) as int == if raw as int % 0x1_0000_0000
            < 0x8000_0000 {
            raw as int % 0x1_0000_0000
        } else {
            raw as int % 0x1_0000_0000 - 0x1_0000_0000
        }) by (bit_vector);
        proof {
            if usize::BITS == 64 {
                lemma_small_mod(raw as nat, pow2(64));
            }
        }
        raw as isize
    }
}

impl TruncateTo<u8> for u16 {
    fn truncate(&self) -> (small: u8) {
        proof {
            lemma2_to64();
        }
        let big = *self;
        assert((big as u8) as int == big as int % 0x100) by (bit_vector);
        big as u8
    }
}

impl TruncateTo<u8> for u32 {
    fn truncate(&self) -> (small: u8) {
        proof {
            lemma2_to64();
        }
        let big = *self;
        assert((big as u8) as int == big as int % 0x100) by (bit_vector);
        big as u8
    }
}

impl TruncateTo<u16> for u32 {
    fn truncate(&self) -> (small: u16) {
        proof {
            lemma2_to64();
        }
        let big = *self;
        assert((big as u16) as int == big as int % 0x1_0000) by (bit_vector);
        big as u16
    }
}

impl TruncateTo<u8> for u64 {
    fn truncate(&self) -> (small: u8) {
        proof {
            lemma2_to64();
        }
        let big = *self;
        assert((big as u8) as int == big as int % 0x100) by (bit_vector);
        big as u8
    }
}

impl TruncateTo<u16> for u64 {
    fn truncate(&self) -> (small: u16) {
        proof {
            lemma2_to64();
        }
        let big = *self;
        assert((big as u16) as int == big as int % 0x1_0000) by (bit_vector);
        big as u16
    }
}

impl TruncateTo<u32> for u64 {
    fn truncate(&self) -> (small: u32) {
        proof {
            lemma2_to64();
        }
        let big = *self;
        assert((big as u32) as int == big as int % 0x1_0000_0000) by (bit_vector);
        big as u32
    }
}

impl TruncateTo<u32> for usize {
    fn truncate(&self) -> (small: u32) {
        proof {
            lemma2_to64();
        }
        let big = *self;
        assert((big as u32) as int == big as int % 0x1_0000_0000) by (bit_vector);
        big as u32
    }
}

impl TruncateTo<u16> for usize {
    fn truncate(&self) -> (small: u16) {
        proof {
            lemma2_to64();
        }
        let big = *self;
        assert((big as u16) as int == big as int % 0x1_0000) by (bit_vector);
        big as u16
    }
}

impl TruncateTo<u8> for usize {
    fn truncate(&self) -> (small: u8) {
        proof {
            lemma2_to64();
        }
        let big = *self;
        assert((big as u8) as int == big as int % 0x100) by (bit_vector);
        big as u8
    }
}

impl TruncateTo<i8> for i16 {
    fn truncate(&self) -> (small: i8) {
        proof {
            lemma2_to64();
        }
        let big = *self;
        assert((big as i8) as int == if big as int % 0x100 < 0x80 {
            big as int % 0x100
        } else {
            big as int % 0x100 - 0x100
        }) by (bit_vector);
        assert((big + 0x1_0000) % 0x100 == big as int % 0x100);
        big as i8
    }
}

impl TruncateTo<i8> for i32 {
    fn truncate(&self) -> (small: i8) {
        proof {
            lemma2_to64();
        }
        let big = *self;
        assert((big as i8) as int == if big as int % 0x100 < 0x80 {
            big as int % 0x100
        } else {
            big as int % 0x100 - 0x100
        }) by (bit_vector);
        assert((big + 0x1_0000_0000) % 0x100 == big as int % 0x100);
        big as i8
    }
}

impl TruncateTo<i16> for i32 {
    fn truncate(&self) -> (small: i16) {
        proof {
            lemma2_to64();
        }
        let big = *self;
        assert((big as i16) as int == if big as int % 0x1_0000 < 0x8000 {
            big as int % 0x1_0000
        } else {
            big as int % 0x1_0000 - 0x1_0000
        }) by (bit_vector);
        assert((big + 0x1_0000_0000) % 0x1_0000 == big as int % 0x1_0000);
        big as i16
    }
}

impl TruncateTo<i8> for i64 {
    fn truncate(&self) -> (small: i8) {
        proof {
            lemma2_to64();
        }
        let big = *self;
        assert((big as i8) as int == if big as int % 0x100 < 0x80 {
            big as int % 0x100
        } else {
            big as int % 0x100 - 0x100
        }) by (bit_vector);
        assert((big + 0x1_0000_0000_0000_0000) % 0x100 == big as int % 0x100);
        big as i8
    }
}

impl TruncateTo<i16> for i64 {
    fn truncate(&self) -> (small: i16) {
        proof {
            lemma2_to64();
        }
        let big = *self;
        assert((big as i16) as int == if big as int % 0x1_0000 < 0x8000 {
            big as int % 0x1_0000
        } else {
            big as int % 0x1_0000 - 0x1_0000
        }) by (bit_vector);
        assert((big + 0x1_0000_0000_0000_0000) % 0x1_0000 == big as int % 0x1_0000);
        big as i16
    }
}

impl TruncateTo<i32> for i64 {
    fn truncate(&self) -> (small: i32) {
        proof {
            lemma2_to64();
        }
        let big = *self;
        assert((big as i32) as int == if big as int % 0x1_0000_0000 < 0x8000_0000 {
            big as int % 0x1_0000_0000
        } else {
            big as int % 0x1_0000_0000 - 0x1_0000_0000
        }) by (bit_vector);
        assert((big + 0x1_0000_0000_0000_0000) % 0x1_0000_0000 == big as int % 0x1_0000_0000);
        big as i32
    }
}

} // verus!
