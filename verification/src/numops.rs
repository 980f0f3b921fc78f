//! Wrapping arithmetic and bit operations on the unsigned integer widths that a
//! generator can use for its state and its output.
//!
//! Every word is modelled by its value as a natural number below `2^BITS`. The
//! operations are stated over that value, so that code written once for all
//! widths can be reasoned about with ordinary arithmetic.
use vstd::arithmetic::div_mod::{
    lemma_mod_add_multiples_vanish, lemma_mod_mod, lemma_small_mod,
};
use vstd::arithmetic::power2::{
    lemma2_to64, lemma_pow2_adds, lemma_pow2_pos, lemma_pow2_strictly_increases,
    lemma_pow2_unfold, pow2,
};
use vstd::bits::{
    lemma_u128_shr_is_div, lemma_u16_pow2_no_overflow, lemma_u16_shl_is_mul,
    lemma_u16_shr_is_div, lemma_u32_pow2_no_overflow, lemma_u32_shl_is_mul, lemma_u32_shr_is_div,
    lemma_u64_pow2_no_overflow, lemma_u64_shl_is_mul, lemma_u64_shr_is_div,
    lemma_u8_pow2_no_overflow, lemma_u8_shl_is_mul, lemma_u8_shr_is_div,
    lemma_usize_low_bits_mask_is_mod, lemma_usize_pow2_no_overflow, lemma_usize_shl_is_mul,
    low_bits_mask,
};
use vstd::prelude::*;

verus! {

/// `x` reduced modulo `2^bits`: what is left of `x` in a word of `bits` bits.
pub open spec fn wrap(x: nat, bits: nat) -> nat {
    x % pow2(bits)
}

/// Bitwise exclusive or of two values below `2^128`.
pub open spec fn bit_xor(a: nat, b: nat) -> nat {
    ((a as u128) ^ (b as u128)) as nat
}

/// Bitwise or of two values below `2^128`.
pub open spec fn bit_or(a: nat, b: nat) -> nat {
    ((a as u128) | (b as u128)) as nat
}

/// Logical shift to the right by `n` bits.
pub open spec fn shift_right(a: nat, n: nat) -> nat {
    a / pow2(n)
}

/// Shift to the left by `n` bits in a word of `bits` bits; bits shifted out are lost.
pub open spec fn shift_left(a: nat, n: nat, bits: nat) -> nat {
    (a * pow2(n)) % pow2(bits)
}

/// Rotation to the right by `n < bits` bits in a word of `bits` bits: the high
/// part moves down and the low `n` bits move to the top.
pub open spec fn rotate_right(a: nat, n: nat, bits: nat) -> nat {
    a / pow2(n) + (a % pow2(n)) * pow2((bits - n) as nat)
}

/// A trait that determines how many bits are in a type.
pub trait BitSize {
    const BITS: usize;
}

/// The numeric operations that a generator needs of a word type. All of them are
/// total and wrap silently.
pub trait PcgOps: BitSize + Copy + Sized {
    /// The value of the word as a natural number.
    spec fn val(self) -> nat;

    /// A word has from 8 to 128 bits.
    proof fn lemma_bits()
        ensures
            8 <= Self::BITS <= 128,
    ;

    /// A word holds a value below `2^BITS`.
    proof fn lemma_range(self)
        ensures
            self.val() < pow2(Self::BITS as nat),
    ;

    fn zero() -> (r: Self)
        ensures
            r.val() == 0,
    ;

    fn one() -> (r: Self)
        ensures
            r.val() == 1,
    ;

    fn wrap_mul(&self, rhs: Self) -> (r: Self)
        ensures
            r.val() == wrap(self.val() * rhs.val(), Self::BITS as nat),
    ;

    fn wrap_add(&self, rhs: Self) -> (r: Self)
        ensures
            r.val() == wrap(self.val() + rhs.val(), Self::BITS as nat),
    ;

    fn xor(self, rhs: Self) -> (r: Self)
        ensures
            r.val() == bit_xor(self.val(), rhs.val()),
    ;

    fn or(self, rhs: Self) -> (r: Self)
        ensures
            r.val() == bit_or(self.val(), rhs.val()),
    ;

    fn shr(self, n: usize) -> (r: Self)
        requires
            n < Self::BITS,
        ensures
            r.val() == shift_right(self.val(), n as nat),
    ;

    fn shl(self, n: usize) -> (r: Self)
        requires
            n < Self::BITS,
        ensures
            r.val() == shift_left(self.val(), n as nat, Self::BITS as nat),
    ;

    /// Rotates to the right by `n` places. A rotation by the width of the word
    /// or more is the rotation by what is left of `n` after the whole turns.
    fn rotr(self, n: u32) -> (r: Self)
        ensures
            r.val() == rotate_right(
                self.val(),
                (n as nat) % (Self::BITS as nat),
                Self::BITS as nat,
            ),
    ;
}

/// Convert a value to a usize, keeping the low bits where it does not fit.
pub trait AsUsize: PcgOps {
    fn as_usize(&self) -> (r: usize)
        ensures
            r as nat == wrap(self.val(), usize::BITS as nat),
    ;
}

/// Allows a type to become a type of a smaller value: the low-order bits are kept.
pub trait AsSmaller<T: PcgOps>: PcgOps {
    /// The target is not wider than the source.
    proof fn lemma_narrower()
        ensures
            T::BITS <= Self::BITS,
    ;

    fn shrink(self) -> (r: T)
        ensures
            r.val() == wrap(self.val(), T::BITS as nat),
    ;
}

/// The mask of the low `bits` bits, `2^bits - 1`.
pub fn low_mask(bits: usize) -> (r: usize)
    requires
        bits < 32,
    ensures
        r == pow2(bits as nat) - 1,
        r == low_bits_mask(bits as nat),
{
    proof {
        lemma_usize_pow2_no_overflow(bits as nat);
        lemma_pow2_pos(bits as nat);
        assert(1 * pow2(bits as nat) == pow2(bits as nat));
        lemma_usize_shl_is_mul(1, bits);
    }
    (1usize << bits) - 1
}

/// Whether the value of a word is odd.
pub fn is_odd<T: AsUsize>(x: T) -> (r: bool)
    ensures
        r == (x.val() % 2 == 1),
{
    let low: usize = x.as_usize();
    proof {
        let width: nat = usize::BITS as nat;
        lemma2_to64();
        lemma_pow2_unfold(width);
        lemma_pow2_pos((width - 1) as nat);
        lemma_mod_mod(x.val() as int, 2, pow2((width - 1) as nat) as int);
        lemma_usize_low_bits_mask_is_mod(low, 1);
    }
    low & 1 == 1
}

/// The powers of two that bound the word types.
pub proof fn lemma_word_moduli()
    ensures
        pow2(8) == 0x100,
        pow2(16) == 0x1_0000,
        pow2(32) == 0x1_0000_0000,
        pow2(64) == 0x1_0000_0000_0000_0000,
        pow2(128) == 0x1_0000_0000_0000_0000_0000_0000_0000_0000int,
{
    lemma2_to64();
    lemma_pow2_adds(64, 64);
}

/// A sum of two values below a bound, reduced modulo the bound, is the sum, or
/// the sum less the bound where it reaches the bound.
pub proof fn lemma_wrapped_sum(x: nat, y: nat, bound: nat)
    requires
        x < bound,
        y < bound,
    ensures
        (x + y) % bound == (if x + y >= bound {
            (x + y - bound) as nat
        } else {
            x + y
        }),
{
    if x + y >= bound {
        lemma_small_mod((x + y - bound) as nat, bound);
        lemma_mod_add_multiples_vanish(x + y - bound, bound as int);
    } else {
        lemma_small_mod(x + y, bound);
    }
}

/// Setting the lowest bit: an odd value stays, an even value grows by one.
pub proof fn lemma_or_one(v: nat)
    requires
        v <= u128::MAX,
    ensures
        bit_or(v, 1) == (if v % 2 == 1 {
            v
        } else {
            v + 1
        }),
        bit_or(v, 1) % 2 == 1,
{
    let x: u128 = v as u128;
    assert((x | 1) == if x % 2 == 1 {
        x
    } else {
        (x + 1) as u128
    } && (x | 1) % 2 == 1) by (bit_vector);
}

/// One shifted to the left by `n` places in a word of 128 bits is `2^n`.
proof fn lemma_u128_one_shl(n: u128)
    requires
        n < 128,
    ensures
        (1u128 << n) == pow2(n as nat),
    decreases n,
{
    lemma2_to64();
    if n == 0 {
        assert(1u128 << 0 == 1) by (bit_vector);
    } else {
        let prev: u128 = (n - 1) as u128;
        lemma_u128_one_shl(prev);
        lemma_pow2_unfold(n as nat);
        assert(1u128 << n == 2 * (1u128 << prev)) by (bit_vector)
            requires
                0 < n < 128,
                prev == n - 1,
        ;
    }
}

/// The number of bits of each word type.
pub proof fn lemma_word_bits()
    ensures
        <u8 as BitSize>::BITS == 8,
        <u16 as BitSize>::BITS == 16,
        <u32 as BitSize>::BITS == 32,
        <u64 as BitSize>::BITS == 64,
        <u128 as BitSize>::BITS == 128,
{
}

/// `num_traits::PrimInt::rotate_right` on a `u8`, which is the rotation of the
/// primitive type: the bits move right by `n` places, and the `n` bits that
/// leave at the bottom come back in at the top.
#[verifier::external_body]
fn rotate_right_u8(x: u8, n: u32) -> (r: u8)
    requires
        n < 8,
    ensures
        r as nat == rotate_right(x as nat, n as nat, 8),
{
    num_traits::PrimInt::rotate_right(x, n)
}

/// `num_traits::PrimInt::rotate_right` on a `u16`, which is the rotation of the
/// primitive type: the bits move right by `n` places, and the `n` bits that
/// leave at the bottom come back in at the top.
#[verifier::external_body]
fn rotate_right_u16(x: u16, n: u32) -> (r: u16)
    requires
        n < 16,
    ensures
        r as nat == rotate_right(x as nat, n as nat, 16),
{
    num_traits::PrimInt::rotate_right(x, n)
}

/// `num_traits::PrimInt::rotate_right` on a `u32`, which is the rotation of the
/// primitive type: the bits move right by `n` places, and the `n` bits that
/// leave at the bottom come back in at the top.
#[verifier::external_body]
fn rotate_right_u32(x: u32, n: u32) -> (r: u32)
    requires
        n < 32,
    ensures
        r as nat == rotate_right(x as nat, n as nat, 32),
{
    num_traits::PrimInt::rotate_right(x, n)
}

/// `num_traits::PrimInt::rotate_right` on a `u64`, which is the rotation of the
/// primitive type: the bits move right by `n` places, and the `n` bits that
/// leave at the bottom come back in at the top.
#[verifier::external_body]
fn rotate_right_u64(x: u64, n: u32) -> (r: u64)
    requires
        n < 64,
    ensures
        r as nat == rotate_right(x as nat, n as nat, 64),
{
    num_traits::PrimInt::rotate_right(x, n)
}

/// `num_traits::PrimInt::rotate_right` on a `u128`, which is the rotation of the
/// primitive type: the bits move right by `n` places, and the `n` bits that
/// leave at the bottom come back in at the top.
#[verifier::external_body]
fn rotate_right_u128(x: u128, n: u32) -> (r: u128)
    requires
        n < 128,
    ensures
        r as nat == rotate_right(x as nat, n as nat, 128),
{
    num_traits::PrimInt::rotate_right(x, n)
}

impl BitSize for u8 {
    const BITS: usize = 8;
}

impl PcgOps for u8 {
    open spec fn val(self) -> nat {
        self as nat
    }

    proof fn lemma_bits() {
    }

    proof fn lemma_range(self) {
        lemma_word_moduli();
    }

    #[inline]
    fn zero() -> (r: Self) {
        0
    }

    #[inline]
    fn one() -> (r: Self) {
        1
    }

    #[inline]
    fn wrap_mul(&self, rhs: u8) -> (r: u8) {
        proof {
            lemma_word_moduli();
        }
        self.wrapping_mul(rhs)
    }

    #[inline]
    fn wrap_add(&self, rhs: u8) -> (r: u8) {
        proof {
            lemma_word_moduli();
            lemma_wrapped_sum(*self as nat, rhs as nat, pow2(8));
        }
        self.wrapping_add(rhs)
    }

    #[inline]
    fn xor(self, rhs: u8) -> (r: u8) {
        self ^ rhs
    }

    #[inline]
    fn or(self, rhs: u8) -> (r: u8) {
        self | rhs
    }

    #[inline]
    fn shr(self, n: usize) -> (r: u8) {
        proof {
            lemma_u8_shr_is_div(self, n as u8);
        }
        self >> n
    }

    #[inline]
    fn shl(self, n: usize) -> (r: u8) {
        proof {
            let x: u8 = self;
            let k: u8 = n as u8;
            let unit: u8 = 1u8 << k;
            lemma_word_moduli();
            lemma_u8_pow2_no_overflow(n as nat);
            assert(1 * pow2(n as nat) == pow2(n as nat));
            lemma_u8_shl_is_mul(1, k);
            assert(x << k == (x * unit) % 0x100) by (bit_vector)
                requires
                    k < 8,
                    unit == 1u8 << k,
            ;
        }
        self << n
    }

    #[inline]
    fn rotr(self, n: u32) -> (r: u8) {
        rotate_right_u8(self, n % 8)
    }
}

impl AsUsize for u8 {
    #[inline]
    fn as_usize(&self) -> (r: usize) {
        proof {
            lemma_word_moduli();
            if usize::BITS != 32 {
                lemma_pow2_strictly_increases(32, usize::BITS as nat);
            }
            lemma_small_mod(*self as nat, pow2(usize::BITS as nat));
        }
        *self as usize
    }
}

impl BitSize for u16 {
    const BITS: usize = 16;
}

impl PcgOps for u16 {
    open spec fn val(self) -> nat {
        self as nat
    }

    proof fn lemma_bits() {
    }

    proof fn lemma_range(self) {
        lemma_word_moduli();
    }

    #[inline]
    fn zero() -> (r: Self) {
        0
    }

    #[inline]
    fn one() -> (r: Self) {
        1
    }

    #[inline]
    fn wrap_mul(&self, rhs: u16) -> (r: u16) {
        proof {
            lemma_word_moduli();
        }
        self.wrapping_mul(rhs)
    }

    #[inline]
    fn wrap_add(&self, rhs: u16) -> (r: u16) {
        proof {
            lemma_word_moduli();
            lemma_wrapped_sum(*self as nat, rhs as nat, pow2(16));
        }
        self.wrapping_add(rhs)
    }

    #[inline]
    fn xor(self, rhs: u16) -> (r: u16) {
        self ^ rhs
    }

    #[inline]
    fn or(self, rhs: u16) -> (r: u16) {
        self | rhs
    }

    #[inline]
    fn shr(self, n: usize) -> (r: u16) {
        proof {
            lemma_u16_shr_is_div(self, n as u16);
        }
        self >> n
    }

    #[inline]
    fn shl(self, n: usize) -> (r: u16) {
        proof {
            let x: u16 = self;
            let k: u16 = n as u16;
            let unit: u16 = 1u16 << k;
            lemma_word_moduli();
            lemma_u16_pow2_no_overflow(n as nat);
            assert(1 * pow2(n as nat) == pow2(n as nat));
            lemma_u16_shl_is_mul(1, k);
            assert(x << k == (x * unit) % 0x1_0000) by (bit_vector)
                requires
                    k < 16,
                    unit == 1u16 << k,
            ;
        }
        self << n
    }

    #[inline]
    fn rotr(self, n: u32) -> (r: u16) {
        rotate_right_u16(self, n % 16)
    }
}

impl AsUsize for u16 {
    #[inline]
    fn as_usize(&self) -> (r: usize) {
        proof {
            lemma_word_moduli();
            if usize::BITS != 32 {
                lemma_pow2_strictly_increases(32, usize::BITS as nat);
            }
            lemma_small_mod(*self as nat, pow2(usize::BITS as nat));
        }
        *self as usize
    }
}

impl BitSize for u32 {
    const BITS: usize = 32;
}

impl PcgOps for u32 {
    open spec fn val(self) -> nat {
        self as nat
    }

    proof fn lemma_bits() {
    }

    proof fn lemma_range(self) {
        lemma_word_moduli();
    }

    #[inline]
    fn zero() -> (r: Self) {
        0
    }

    #[inline]
    fn one() -> (r: Self) {
        1
    }

    #[inline]
    fn wrap_mul(&self, rhs: u32) -> (r: u32) {
        proof {
            lemma_word_moduli();
        }
        self.wrapping_mul(rhs)
    }

    #[inline]
    fn wrap_add(&self, rhs: u32) -> (r: u32) {
        proof {
            lemma_word_moduli();
            lemma_wrapped_sum(*self as nat, rhs as nat, pow2(32));
        }
        self.wrapping_add(rhs)
    }

    #[inline]
    fn xor(self, rhs: u32) -> (r: u32) {
        self ^ rhs
    }

    #[inline]
    fn or(self, rhs: u32) -> (r: u32) {
        self | rhs
    }

    #[inline]
    fn shr(self, n: usize) -> (r: u32) {
        proof {
            lemma_u32_shr_is_div(self, n as u32);
        }
        self >> n
    }

    #[inline]
    fn shl(self, n: usize) -> (r: u32) {
        proof {
            let x: u32 = self;
            let k: u32 = n as u32;
            let unit: u32 = 1u32 << k;
            lemma_word_moduli();
            lemma_u32_pow2_no_overflow(n as nat);
            assert(1 * pow2(n as nat) == pow2(n as nat));
            lemma_u32_shl_is_mul(1, k);
            assert(x << k == (x * unit) % 0x1_0000_0000) by (bit_vector)
                requires
                    k < 32,
                    unit == 1u32 << k,
            ;
        }
        self << n
    }

    #[inline]
    fn rotr(self, n: u32) -> (r: u32) {
        rotate_right_u32(self, n % 32)
    }
}

impl AsUsize for u32 {
    #[inline]
    fn as_usize(&self) -> (r: usize) {
        proof {
            lemma_word_moduli();
            if usize::BITS != 32 {
                lemma_pow2_strictly_increases(32, usize::BITS as nat);
            }
            lemma_small_mod(*self as nat, pow2(usize::BITS as nat));
        }
        *self as usize
    }
}

impl BitSize for u64 {
    const BITS: usize = 64;
}

impl PcgOps for u64 {
    open spec fn val(self) -> nat {
        self as nat
    }

    proof fn lemma_bits() {
    }

    proof fn lemma_range(self) {
        lemma_word_moduli();
    }

    #[inline]
    fn zero() -> (r: Self) {
        0
    }

    #[inline]
    fn one() -> (r: Self) {
        1
    }

    #[inline]
    fn wrap_mul(&self, rhs: u64) -> (r: u64) {
        proof {
            lemma_word_moduli();
        }
        self.wrapping_mul(rhs)
    }

    #[inline]
    fn wrap_add(&self, rhs: u64) -> (r: u64) {
        proof {
            lemma_word_moduli();
            lemma_wrapped_sum(*self as nat, rhs as nat, pow2(64));
        }
        self.wrapping_add(rhs)
    }

    #[inline]
    fn xor(self, rhs: u64) -> (r: u64) {
        self ^ rhs
    }

    #[inline]
    fn or(self, rhs: u64) -> (r: u64) {
        self | rhs
    }

    #[inline]
    fn shr(self, n: usize) -> (r: u64) {
        proof {
            lemma_u64_shr_is_div(self, n as u64);
        }
        self >> n
    }

    #[inline]
    fn shl(self, n: usize) -> (r: u64) {
        proof {
            let x: u64 = self;
            let k: u64 = n as u64;
            let unit: u64 = 1u64 << k;
            lemma_word_moduli();
            lemma_u64_pow2_no_overflow(n as nat);
            assert(1 * pow2(n as nat) == pow2(n as nat));
            lemma_u64_shl_is_mul(1, k);
            assert(x << k == (x * unit) % 0x1_0000_0000_0000_0000) by (bit_vector)
                requires
                    k < 64,
                    unit == 1u64 << k,
            ;
        }
        self << n
    }

    #[inline]
    fn rotr(self, n: u32) -> (r: u64) {
        rotate_right_u64(self, n % 64)
    }
}

impl AsUsize for u64 {
    #[inline]
    fn as_usize(&self) -> (r: usize) {
        let x: u64 = *self;
        proof {
            lemma_word_moduli();
            assert(usize::BITS == 32 || usize::BITS == 64);
            assert(usize::BITS == 64 ==> x as usize == x) by (bit_vector);
            assert(usize::BITS == 32 ==> x as usize == x % 0x1_0000_0000) by (bit_vector);
            if usize::BITS == 64 {
                lemma_small_mod(x as nat, 0x1_0000_0000_0000_0000);
            }
        }
        x as usize
    }
}

impl BitSize for u128 {
    const BITS: usize = 128;
}

impl PcgOps for u128 {
    open spec fn val(self) -> nat {
        self as nat
    }

    proof fn lemma_bits() {
    }

    proof fn lemma_range(self) {
        lemma_word_moduli();
    }

    #[inline]
    fn zero() -> (r: Self) {
        0
    }

    #[inline]
    fn one() -> (r: Self) {
        1
    }

    #[inline]
    fn wrap_mul(&self, rhs: u128) -> (r: u128) {
        proof {
            lemma_word_moduli();
        }
        self.wrapping_mul(rhs)
    }

    #[inline]
    fn wrap_add(&self, rhs: u128) -> (r: u128) {
        proof {
            lemma_word_moduli();
            lemma_wrapped_sum(*self as nat, rhs as nat, pow2(128));
        }
        self.wrapping_add(rhs)
    }

    #[inline]
    fn xor(self, rhs: u128) -> (r: u128) {
        self ^ rhs
    }

    #[inline]
    fn or(self, rhs: u128) -> (r: u128) {
        self | rhs
    }

    #[inline]
    fn shr(self, n: usize) -> (r: u128) {
        proof {
            lemma_u128_shr_is_div(self, n as u128);
        }
        self >> n
    }

    #[inline]
    fn shl(self, n: usize) -> (r: u128) {
        proof {
            let x: u128 = self;
            let k: u128 = n as u128;
            let unit: u128 = 1u128 << k;
            lemma_word_moduli();
            lemma_u128_one_shl(k);
            assert(x << k == (x * unit) % 0x1_0000_0000_0000_0000_0000_0000_0000_0000int)
                by (bit_vector)
                requires
                    k < 128,
                    unit == 1u128 << k,
            ;
        }
        self << n
    }

    #[inline]
    fn rotr(self, n: u32) -> (r: u128) {
        rotate_right_u128(self, n % 128)
    }
}

impl AsUsize for u128 {
    #[inline]
    fn as_usize(&self) -> (r: usize) {
        let x: u128 = *self;
        proof {
            lemma_word_moduli();
            assert(usize::BITS == 32 || usize::BITS == 64);
            assert(usize::BITS == 64 ==> x as usize == x % 0x1_0000_0000_0000_0000)
                by (bit_vector);
            assert(usize::BITS == 32 ==> x as usize == x % 0x1_0000_0000) by (bit_vector);
        }
        x as usize
    }
}

impl AsSmaller<u64> for u128 {
    proof fn lemma_narrower() {
    }

    #[inline]
    fn shrink(self) -> (r: u64) {
        proof {
            lemma_word_moduli();
            assert(self as u64 == self % 0x1_0000_0000_0000_0000) by (bit_vector);
        }
        self as u64
    }
}

impl AsSmaller<u32> for u128 {
    proof fn lemma_narrower() {
    }

    #[inline]
    fn shrink(self) -> (r: u32) {
        proof {
            lemma_word_moduli();
            assert(self as u32 == self % 0x1_0000_0000) by (bit_vector);
        }
        self as u32
    }
}

impl AsSmaller<u16> for u128 {
    proof fn lemma_narrower() {
    }

    #[inline]
    fn shrink(self) -> (r: u16) {
        proof {
            lemma_word_moduli();
            assert(self as u16 == self % 0x1_0000) by (bit_vector);
        }
        self as u16
    }
}

impl AsSmaller<u8> for u128 {
    proof fn lemma_narrower() {
    }

    #[inline]
    fn shrink(self) -> (r: u8) {
        proof {
            lemma_word_moduli();
            assert(self as u8 == self % 0x100) by (bit_vector);
        }
        self as u8
    }
}

impl AsSmaller<u32> for u64 {
    proof fn lemma_narrower() {
    }

    #[inline]
    fn shrink(self) -> (r: u32) {
        proof {
            lemma_word_moduli();
            assert(self as u32 == self % 0x1_0000_0000) by (bit_vector);
        }
        self as u32
    }
}

impl AsSmaller<u16> for u64 {
    proof fn lemma_narrower() {
    }

    #[inline]
    fn shrink(self) -> (r: u16) {
        proof {
            lemma_word_moduli();
            assert(self as u16 == self % 0x1_0000) by (bit_vector);
        }
        self as u16
    }
}

impl AsSmaller<u8> for u64 {
    proof fn lemma_narrower() {
    }

    #[inline]
    fn shrink(self) -> (r: u8) {
        proof {
            lemma_word_moduli();
            assert(self as u8 == self % 0x100) by (bit_vector);
        }
        self as u8
    }
}

impl AsSmaller<u16> for u32 {
    proof fn lemma_narrower() {
    }

    #[inline]
    fn shrink(self) -> (r: u16) {
        proof {
            lemma_word_moduli();
            assert(self as u16 == self % 0x1_0000) by (bit_vector);
        }
        self as u16
    }
}

impl AsSmaller<u8> for u32 {
    proof fn lemma_narrower() {
    }

    #[inline]
    fn shrink(self) -> (r: u8) {
        proof {
            lemma_word_moduli();
            assert(self as u8 == self % 0x100) by (bit_vector);
        }
        self as u8
    }
}

impl AsSmaller<u8> for u16 {
    proof fn lemma_narrower() {
    }

    #[inline]
    fn shrink(self) -> (r: u8) {
        proof {
            lemma_word_moduli();
            assert(self as u8 == self % 0x100) by (bit_vector);
        }
        self as u8
    }
}

} // verus!
