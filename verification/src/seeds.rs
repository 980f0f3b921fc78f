//! The seed codec: a seed is a buffer of bytes that holds the state of a
//! generator and, after it, its stream. Each of the two takes as many bytes as
//! the state type has, least significant byte first; a 128-bit word is laid out
//! as two 64-bit words, the high one first.
use crate::numops::{lemma_word_bits, lemma_word_moduli, PcgOps};
use byteorder::{ByteOrder, LE};
use std::marker::PhantomData;
use vstd::arithmetic::div_mod::{
    lemma_div_denominator, lemma_fundamental_div_mod, lemma_mod_bound, lemma_mod_breakdown,
    lemma_small_mod,
};
use vstd::arithmetic::power2::{lemma2_to64, lemma_pow2_adds, lemma_pow2_pos, pow2};
use vstd::prelude::*;

verus! {

/// The `n` bytes that stand for `v`, least significant first.
pub open spec fn le_bytes(v: nat, n: nat) -> Seq<u8>
    decreases n,
{
    if n == 0 {
        Seq::empty()
    } else {
        seq![(v % 256) as u8] + le_bytes(v / 256, (n - 1) as nat)
    }
}

/// The value that bytes stand for, least significant first.
pub open spec fn le_value(bytes: Seq<u8>) -> nat
    decreases bytes.len(),
{
    if bytes.len() == 0 {
        0
    } else {
        bytes[0] as nat + 256 * le_value(bytes.drop_first())
    }
}

/// Writing a value in `n` bytes and reading it back gives the value modulo
/// `2^(8 n)`, and so the value itself where it fits.
pub proof fn lemma_le_round_trip(v: nat, n: nat)
    ensures
        le_bytes(v, n).len() == n,
        le_value(le_bytes(v, n)) == v % pow2(8 * n),
        v < pow2(8 * n) ==> le_value(le_bytes(v, n)) == v,
    decreases n,
{
    lemma_word_moduli();
    if n == 0 {
        assert(pow2(0) == 1) by {
            lemma2_to64();
        }
    } else {
        let n1: nat = (n - 1) as nat;
        lemma_le_round_trip(v / 256, n1);
        let bytes: Seq<u8> = le_bytes(v, n);
        assert(bytes.drop_first() =~= le_bytes(v / 256, n1));
        assert(bytes[0] == (v % 256) as u8);
        lemma_pow2_adds(8, 8 * n1);
        lemma_pow2_pos(8 * n1);
        assert(8 + 8 * n1 == 8 * n);
        lemma_mod_breakdown(v as int, 256, pow2(8 * n1) as int);
    }
    if v < pow2(8 * n) {
        lemma_small_mod(v, pow2(8 * n));
    }
}

/// Byte `k` of a value written in `n` bytes, least significant first.
pub proof fn lemma_le_bytes_index(v: nat, n: nat, k: nat)
    requires
        k < n,
    ensures
        le_bytes(v, n).len() == n,
        le_bytes(v, n)[k as int] == ((v / pow2(8 * k)) % 256) as u8,
    decreases n,
{
    lemma2_to64();
    lemma_le_round_trip(v, n);
    let n1: nat = (n - 1) as nat;
    lemma_le_round_trip(v / 256, n1);
    if k == 0 {
        assert(v / 1 == v);
    } else {
        let k1: nat = (k - 1) as nat;
        lemma_le_bytes_index(v / 256, n1, k1);
        assert(le_bytes(v, n)[k as int] == le_bytes(v / 256, n1)[k1 as int]);
        lemma_pow2_adds(8, 8 * k1);
        lemma_pow2_pos(8 * k1);
        assert(8 + 8 * k1 == 8 * k);
        lemma_div_denominator(v as int, 256, pow2(8 * k1) as int);
    }
}

/// `byteorder::LittleEndian::read_u16`: the value of the first two bytes of
/// `src`, least significant first. It panics on a shorter buffer.
#[verifier::external_body]
fn le_read_u16(src: &[u8]) -> (r: u16)
    requires
        src@.len() >= 2,
    ensures
        r as nat == le_value(src@.subrange(0, 2)),
{
    LE::read_u16(src)
}

/// `byteorder::LittleEndian::read_u32`: the value of the first four bytes of
/// `src`, least significant first. It panics on a shorter buffer.
#[verifier::external_body]
fn le_read_u32(src: &[u8]) -> (r: u32)
    requires
        src@.len() >= 4,
    ensures
        r as nat == le_value(src@.subrange(0, 4)),
{
    LE::read_u32(src)
}

/// `byteorder::LittleEndian::read_u64`: the value of the first eight bytes of
/// `src`, least significant first. It panics on a shorter buffer.
#[verifier::external_body]
fn le_read_u64(src: &[u8]) -> (r: u64)
    requires
        src@.len() >= 8,
    ensures
        r as nat == le_value(src@.subrange(0, 8)),
{
    LE::read_u64(src)
}

/// `byteorder::LittleEndian::write_u16`: the first two bytes of `dest` become
/// the bytes of `n`, least significant first; the rest of `dest` stays. It
/// panics on a shorter buffer.
#[verifier::external_body]
fn le_write_u16(dest: &mut [u8], n: u16)
    requires
        old(dest)@.len() >= 2,
    ensures
        final(dest)@ == le_bytes(n as nat, 2) + old(dest)@.subrange(2, old(dest)@.len() as int),
{
    LE::write_u16(dest, n)
}

/// `byteorder::LittleEndian::write_u32`: the first four bytes of `dest` become
/// the bytes of `n`, least significant first; the rest of `dest` stays. It
/// panics on a shorter buffer.
#[verifier::external_body]
fn le_write_u32(dest: &mut [u8], n: u32)
    requires
        old(dest)@.len() >= 4,
    ensures
        final(dest)@ == le_bytes(n as nat, 4) + old(dest)@.subrange(4, old(dest)@.len() as int),
{
    LE::write_u32(dest, n)
}

/// `byteorder::LittleEndian::write_u64`: the first eight bytes of `dest` become
/// the bytes of `n`, least significant first; the rest of `dest` stays. It
/// panics on a shorter buffer.
#[verifier::external_body]
fn le_write_u64(dest: &mut [u8], n: u64)
    requires
        old(dest)@.len() >= 8,
    ensures
        final(dest)@ == le_bytes(n as nat, 8) + old(dest)@.subrange(8, old(dest)@.len() as int),
{
    LE::write_u64(dest, n)
}

/// A word that can be read from and written to the bytes of a seed.
pub trait ReadByteOrder: PcgOps {
    /// The bytes that stand for a value.
    spec fn spec_encode(v: nat) -> Seq<u8>;

    /// The value that bytes stand for.
    spec fn spec_decode(bytes: Seq<u8>) -> nat;

    /// A word takes `BITS / 8` bytes, and reading what was written gives the
    /// word back.
    proof fn lemma_codec(v: nat)
        requires
            v < pow2(Self::BITS as nat),
        ensures
            Self::spec_encode(v).len() == Self::BITS / 8,
            Self::spec_decode(Self::spec_encode(v)) == v,
    ;

    fn read(src: &[u8]) -> (r: Self)
        requires
            src@.len() >= Self::BITS / 8,
        ensures
            r.val() == Self::spec_decode(src@.subrange(0, (Self::BITS / 8) as int)),
    ;

    fn write(&self, dest: &mut [u8])
        requires
            old(dest)@.len() >= Self::BITS / 8,
        ensures
            final(dest)@ == Self::spec_encode(self.val()) + old(dest)@.subrange(
                (Self::BITS / 8) as int,
                old(dest)@.len() as int,
            ),
    ;
}

impl ReadByteOrder for u8 {
    open spec fn spec_encode(v: nat) -> Seq<u8> {
        le_bytes(v, 1)
    }

    open spec fn spec_decode(bytes: Seq<u8>) -> nat {
        le_value(bytes)
    }

    proof fn lemma_codec(v: nat) {
        lemma_word_bits();
        lemma_le_round_trip(v, 1);
    }

    fn read(src: &[u8]) -> (r: Self) {
        proof {
            lemma_word_bits();
            let b: Seq<u8> = src@.subrange(0, 1);
            assert(b.drop_first().len() == 0);
            assert(le_value(b) == b[0] as nat + 256 * le_value(b.drop_first()));
        }
        src[0]
    }

    fn write(&self, dest: &mut [u8]) {
        proof {
            lemma_word_bits();
            assert(le_bytes(*self as nat, 1) =~= seq![*self]) by {
                assert(le_bytes(*self as nat / 256, 0) =~= Seq::<u8>::empty());
            }
        }
        dest[0] = *self;
        assert(dest@ =~= le_bytes(*self as nat, 1) + old(dest)@.subrange(1, old(dest)@.len() as int));
    }
}

impl ReadByteOrder for u16 {
    open spec fn spec_encode(v: nat) -> Seq<u8> {
        le_bytes(v, 2)
    }

    open spec fn spec_decode(bytes: Seq<u8>) -> nat {
        le_value(bytes)
    }

    proof fn lemma_codec(v: nat) {
        lemma_word_bits();
        lemma_le_round_trip(v, 2);
    }

    fn read(src: &[u8]) -> (r: Self) {
        proof {
            lemma_word_bits();
        }
        le_read_u16(src)
    }

    fn write(&self, dest: &mut [u8]) {
        proof {
            lemma_word_bits();
        }
        le_write_u16(dest, *self);
    }
}

impl ReadByteOrder for u32 {
    open spec fn spec_encode(v: nat) -> Seq<u8> {
        le_bytes(v, 4)
    }

    open spec fn spec_decode(bytes: Seq<u8>) -> nat {
        le_value(bytes)
    }

    proof fn lemma_codec(v: nat) {
        lemma_word_bits();
        lemma_le_round_trip(v, 4);
    }

    fn read(src: &[u8]) -> (r: Self) {
        proof {
            lemma_word_bits();
        }
        le_read_u32(src)
    }

    fn write(&self, dest: &mut [u8]) {
        proof {
            lemma_word_bits();
        }
        le_write_u32(dest, *self);
    }
}

impl ReadByteOrder for u64 {
    open spec fn spec_encode(v: nat) -> Seq<u8> {
        le_bytes(v, 8)
    }

    open spec fn spec_decode(bytes: Seq<u8>) -> nat {
        le_value(bytes)
    }

    proof fn lemma_codec(v: nat) {
        lemma_word_bits();
        lemma_le_round_trip(v, 8);
    }

    fn read(src: &[u8]) -> (r: Self) {
        proof {
            lemma_word_bits();
        }
        le_read_u64(src)
    }

    fn write(&self, dest: &mut [u8]) {
        proof {
            lemma_word_bits();
        }
        le_write_u64(dest, *self);
    }
}

impl ReadByteOrder for u128 {
    open spec fn spec_encode(v: nat) -> Seq<u8> {
        le_bytes(v / pow2(64), 8) + le_bytes(v % pow2(64), 8)
    }

    open spec fn spec_decode(bytes: Seq<u8>) -> nat {
        le_value(bytes.subrange(0, 8)) * pow2(64) + le_value(bytes.subrange(8, 16))
    }

    proof fn lemma_codec(v: nat) {
        lemma_word_bits();
        lemma_word_moduli();
        let top: nat = v / pow2(64);
        let bottom: nat = v % pow2(64);
        lemma_fundamental_div_mod(v as int, pow2(64) as int);
        lemma_mod_bound(v as int, pow2(64) as int);
        lemma_le_round_trip(top, 8);
        lemma_le_round_trip(bottom, 8);
        let bytes: Seq<u8> = Self::spec_encode(v);
        assert(bytes.subrange(0, 8) =~= le_bytes(top, 8));
        assert(bytes.subrange(8, 16) =~= le_bytes(bottom, 8));
        assert(top * pow2(64) == pow2(64) * top) by (nonlinear_arith);
    }

    fn read(src: &[u8]) -> (r: Self) {
        proof {
            lemma_word_bits();
        }
        let (first, rest) = src.split_at(8);
        let top: u64 = le_read_u64(first);
        let bottom: u64 = le_read_u64(rest);
        proof {
            lemma_word_moduli();
            let whole: Seq<u8> = src@.subrange(0, 16);
            assert(first@.subrange(0, 8) =~= whole.subrange(0, 8));
            assert(rest@.subrange(0, 8) =~= whole.subrange(8, 16));
            assert(((top as u128) << 64) | (bottom as u128) == (top as u128) * 0x1_0000_0000_0000_0000
                + (bottom as u128)) by (bit_vector);
        }
        ((top as u128) << 64) | (bottom as u128)
    }

    fn write(&self, dest: &mut [u8]) {
        let top: u64 = (*self >> 64) as u64;
        let bottom: u64 = *self as u64;
        proof {
            lemma_word_bits();
            lemma_word_moduli();
            let v: u128 = *self;
            assert((v >> 64) as u64 == v / 0x1_0000_0000_0000_0000) by (bit_vector);
            assert(v as u64 == v % 0x1_0000_0000_0000_0000) by (bit_vector);
        }
        let (first, rest) = dest.split_at_mut(8);
        le_write_u64(first, top);
        le_write_u64(rest, bottom);
        assert(dest@ =~= Self::spec_encode(self.val()) + old(dest)@.subrange(
            16,
            old(dest)@.len() as int,
        ));
    }
}

/// Why a seed could not be made from a buffer of bytes.
#[derive(Debug, PartialEq, Eq, Clone, Copy, Structural)]
pub enum SeedError {
    /// The buffer does not hold a state and a stream of the generator's width.
    SizeMismatch,
}

/// The bytes of a seed, and how far they have been read.
pub struct PcgSeeder<T> {
    data: Vec<u8>,
    at_pos: usize,
    _type: PhantomData<T>,
}

impl<T> PcgSeeder<T> {
    /// The bytes of the seed.
    pub closed spec fn bytes(&self) -> Seq<u8> {
        self.data@
    }

    /// How many of the bytes have been read.
    pub closed spec fn position(&self) -> nat {
        self.at_pos as nat
    }
}

impl<T: ReadByteOrder> PcgSeeder<T> {
    /// The number of bytes that one word takes.
    pub open spec fn word_bytes() -> nat {
        (T::BITS / 8) as nat
    }

    /// Whether `n` more words can be read from the seed.
    pub open spec fn has_words(&self, n: nat) -> bool {
        self.position() + n * Self::word_bytes() <= self.bytes().len()
    }

    /// The value of the word that starts `offset` bytes into the seed.
    pub open spec fn word_at(&self, offset: nat) -> nat {
        T::spec_decode(self.bytes().subrange(offset as int, (offset + Self::word_bytes()) as int))
    }

    /// A seed for the state `seed` and the stream zero.
    pub fn seed(seed: T) -> (r: PcgSeeder<T>)
        ensures
            r.bytes() == T::spec_encode(seed.val()) + T::spec_encode(0),
            r.position() == 0,
            r.has_words(2),
            r.word_at(0) == seed.val(),
            r.word_at(Self::word_bytes()) == 0,
    {
        PcgSeeder::seed_with_stream(seed, T::zero())
    }

    /// A seed for the state `seed` and the stream `stream`.
    pub fn seed_with_stream(seed: T, stream: T) -> (r: PcgSeeder<T>)
        ensures
            r.bytes() == T::spec_encode(seed.val()) + T::spec_encode(stream.val()),
            r.position() == 0,
            r.has_words(2),
            r.word_at(0) == seed.val(),
            r.word_at(Self::word_bytes()) == stream.val(),
    {
        proof {
            T::lemma_bits();
            seed.lemma_range();
            stream.lemma_range();
            T::lemma_codec(seed.val());
            T::lemma_codec(stream.val());
        }
        let size: usize = T::BITS / 8;
        let mut data: Vec<u8> = vec![0u8; size * 2];
        {
            let (seed_data, stream_data) = data.as_mut_slice().split_at_mut(size);
            seed.write(seed_data);
            stream.write(stream_data);
        }
        proof {
            let first: Seq<u8> = T::spec_encode(seed.val());
            let second: Seq<u8> = T::spec_encode(stream.val());
            assert(data@ =~= first + second);
            assert(data@.subrange(0, size as int) =~= first);
            assert(data@.subrange(size as int, size + size) =~= second);
        }
        PcgSeeder { data, at_pos: 0, _type: PhantomData }
    }

    /// A seed that holds a copy of `bytes`, where they are a state and a
    /// stream: twice the bytes of a word.
    pub fn from_bytes(bytes: &[u8]) -> (r: Result<PcgSeeder<T>, SeedError>)
        ensures
            bytes@.len() == 2 * Self::word_bytes() <==> r is Ok,
            r matches Ok(seeder) ==> seeder.bytes() == bytes@ && seeder.position() == 0
                && seeder.has_words(2),
            r matches Err(e) ==> e == SeedError::SizeMismatch,
    {
        proof {
            T::lemma_bits();
        }
        let size: usize = T::BITS / 8;
        if bytes.len() != size * 2 {
            return Err(SeedError::SizeMismatch);
        }
        let mut data: Vec<u8> = Vec::with_capacity(size * 2);
        let mut i: usize = 0;
        while i < bytes.len()
            invariant
                i <= bytes.len(),
                data@ == bytes@.subrange(0, i as int),
            decreases bytes.len() - i,
        {
            data.push(bytes[i]);
            i = i + 1;
            assert(data@ =~= bytes@.subrange(0, i as int));
        }
        assert(data@ =~= bytes@);
        Ok(PcgSeeder { data, at_pos: 0, _type: PhantomData })
    }

    /// Whether `words` more words can be read from the seed.
    pub fn can_read(&self, words: usize) -> (r: bool)
        ensures
            r == self.has_words(words as nat),
    {
        proof {
            T::lemma_bits();
        }
        let size: usize = T::BITS / 8;
        let len: usize = self.data.len();
        if self.at_pos > len {
            return false;
        }
        let left: usize = len - self.at_pos;
        proof {
            assert(words * size <= left <==> words <= left / size) by (nonlinear_arith)
                requires
                    size > 0,
            ;
        }
        words <= left / size
    }

    /// Reads the next word of the seed.
    pub fn get(&mut self) -> (out: T)
        requires
            old(self).has_words(1),
        ensures
            out.val() == old(self).word_at(old(self).position()),
            final(self).position() == old(self).position() + Self::word_bytes(),
            final(self).bytes() == old(self).bytes(),
    {
        proof {
            T::lemma_bits();
        }
        let size: usize = T::BITS / 8;
        assert(self.at_pos + size <= self.data.len());
        let (_, rest) = self.data.as_slice().split_at(self.at_pos);
        let out: T = T::read(rest);
        proof {
            assert(rest@.subrange(0, size as int) =~= self.data@.subrange(
                self.at_pos as int,
                self.at_pos + size,
            ));
        }
        self.at_pos = self.at_pos + size;
        out
    }
}

/// The state and the stream that an unseeded generator of this width starts
/// from. These values were chosen at random, once, and are the same in every
/// run.
pub trait DefaultSeed: ReadByteOrder {
    /// The default state, by its value.
    spec fn spec_default_state() -> nat;

    /// The default stream, by its value.
    spec fn spec_default_stream() -> nat;

    fn default_state() -> (r: Self)
        ensures
            r.val() == Self::spec_default_state(),
    ;

    fn default_stream() -> (r: Self)
        ensures
            r.val() == Self::spec_default_stream(),
    ;
}

impl DefaultSeed for u128 {
    open spec fn spec_default_state() -> nat {
        0xECC1_C32B_E531_D51A_93DC_E189_F916_29F4
    }

    open spec fn spec_default_stream() -> nat {
        0xF1CB_2035_E14F_F74B_46EF_3505_C538_6547
    }

    fn default_state() -> (r: Self) {
        0xECC1_C32B_E531_D51A_93DC_E189_F916_29F4
    }

    fn default_stream() -> (r: Self) {
        0xF1CB_2035_E14F_F74B_46EF_3505_C538_6547
    }
}

impl DefaultSeed for u64 {
    open spec fn spec_default_state() -> nat {
        0x1801_3CAD_3A48_3F72
    }

    open spec fn spec_default_stream() -> nat {
        0x51DB_FCDA_0D6B_21D4
    }

    fn default_state() -> (r: Self) {
        0x1801_3CAD_3A48_3F72
    }

    fn default_stream() -> (r: Self) {
        0x51DB_FCDA_0D6B_21D4
    }
}

impl DefaultSeed for u32 {
    open spec fn spec_default_state() -> nat {
        0x308A_20A0
    }

    open spec fn spec_default_stream() -> nat {
        0xD133_51F1
    }

    fn default_state() -> (r: Self) {
        0x308A_20A0
    }

    fn default_stream() -> (r: Self) {
        0xD133_51F1
    }
}

impl DefaultSeed for u16 {
    open spec fn spec_default_state() -> nat {
        0xAA19
    }

    open spec fn spec_default_stream() -> nat {
        0x4FD8
    }

    fn default_state() -> (r: Self) {
        0xAA19
    }

    fn default_stream() -> (r: Self) {
        0x4FD8
    }
}

impl DefaultSeed for u8 {
    open spec fn spec_default_state() -> nat {
        0xE1
    }

    open spec fn spec_default_stream() -> nat {
        0xB3
    }

    fn default_state() -> (r: Self) {
        0xE1
    }

    fn default_stream() -> (r: Self) {
        0xB3
    }
}

/*
 * The default seeds will control what seeds are used by `new_unseeded` calls.
 */
impl<T: DefaultSeed> Default for PcgSeeder<T> {
    fn default() -> (r: Self)
        ensures
            r.bytes() == T::spec_encode(T::spec_default_state()) + T::spec_encode(
                T::spec_default_stream(),
            ),
            r.position() == 0,
            r.has_words(2),
            r.word_at(0) == T::spec_default_state(),
            r.word_at(Self::word_bytes()) == T::spec_default_stream(),
    {
        PcgSeeder::seed_with_stream(T::default_state(), T::default_stream())
    }
}

impl<T> AsMut<[u8]> for PcgSeeder<T> {
    /// The bytes of the seed, to be filled by the caller.
    fn as_mut(&mut self) -> (r: &mut [u8])
        ensures
            r@ == old(self).bytes(),
            final(self).bytes() == final(r)@,
            final(self).position() == old(self).position(),
    {
        self.data.as_mut_slice()
    }
}

impl<T> Clone for PcgSeeder<T> {
    fn clone(&self) -> (r: Self)
        ensures
            r.bytes() == self.bytes(),
            r.position() == self.position(),
    {
        let data: Vec<u8> = self.data.clone();
        assert(data@ =~= self.data@);
        PcgSeeder { data, at_pos: self.at_pos, _type: PhantomData }
    }
}

} // verus!
