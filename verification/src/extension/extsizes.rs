//! The sizes that the extension of a generator can have.
use vstd::arithmetic::power2::{lemma2_to64, pow2};
use vstd::prelude::*;

verus! {

/// This trait helps define the size of the extension of the PCG generator
/// this allows the size of the extension to effectively be part of the
/// type of the extended generator.
///
/// An extension has `2^EXT_BITS` values, for `EXT_BITS` from 1 to 10, because
/// of the way the generator picks among them.
///
/// Already provided are:
///  * Ext2
///  * Ext4
///  * Ext8
///  * Ext16
///  * Ext32
///  * Ext64
///  * Ext128
///  * Ext256
///  * Ext512
///  * Ext1024
pub trait ExtSize {
    const EXT_SIZE: usize;

    const EXT_BITS: u32;

    /// The size is two to the number of bits, and the bits are from 1 to 10.
    proof fn lemma_ext_size()
        ensures
            1 <= Self::EXT_BITS <= 10,
            Self::EXT_SIZE == pow2(Self::EXT_BITS as nat),
    ;
}

pub struct Ext2;

impl ExtSize for Ext2 {
    const EXT_SIZE: usize = 2;

    const EXT_BITS: u32 = 1;

    proof fn lemma_ext_size() {
        lemma2_to64();
    }
}

pub struct Ext4;

impl ExtSize for Ext4 {
    const EXT_SIZE: usize = 4;

    const EXT_BITS: u32 = 2;

    proof fn lemma_ext_size() {
        lemma2_to64();
    }
}

pub struct Ext8;

impl ExtSize for Ext8 {
    const EXT_SIZE: usize = 8;

    const EXT_BITS: u32 = 3;

    proof fn lemma_ext_size() {
        lemma2_to64();
    }
}

pub struct Ext16;

impl ExtSize for Ext16 {
    const EXT_SIZE: usize = 16;

    const EXT_BITS: u32 = 4;

    proof fn lemma_ext_size() {
        lemma2_to64();
    }
}

pub struct Ext32;

impl ExtSize for Ext32 {
    const EXT_SIZE: usize = 32;

    const EXT_BITS: u32 = 5;

    proof fn lemma_ext_size() {
        lemma2_to64();
    }
}

pub struct Ext64;

impl ExtSize for Ext64 {
    const EXT_SIZE: usize = 64;

    const EXT_BITS: u32 = 6;

    proof fn lemma_ext_size() {
        lemma2_to64();
    }
}

pub struct Ext128;

impl ExtSize for Ext128 {
    const EXT_SIZE: usize = 128;

    const EXT_BITS: u32 = 7;

    proof fn lemma_ext_size() {
        lemma2_to64();
    }
}

pub struct Ext256;

impl ExtSize for Ext256 {
    const EXT_SIZE: usize = 256;

    const EXT_BITS: u32 = 8;

    proof fn lemma_ext_size() {
        lemma2_to64();
    }
}

pub struct Ext512;

impl ExtSize for Ext512 {
    const EXT_SIZE: usize = 512;

    const EXT_BITS: u32 = 9;

    proof fn lemma_ext_size() {
        lemma2_to64();
    }
}

pub struct Ext1024;

impl ExtSize for Ext1024 {
    const EXT_SIZE: usize = 1024;

    const EXT_BITS: u32 = 10;

    proof fn lemma_ext_size() {
        lemma2_to64();
    }
}

/// The size and the number of bits of each of the sizes provided.
pub proof fn lemma_ext_sizes()
    ensures
        <Ext2 as ExtSize>::EXT_SIZE == 2,
        <Ext2 as ExtSize>::EXT_BITS == 1,
        <Ext4 as ExtSize>::EXT_SIZE == 4,
        <Ext4 as ExtSize>::EXT_BITS == 2,
        <Ext8 as ExtSize>::EXT_SIZE == 8,
        <Ext8 as ExtSize>::EXT_BITS == 3,
        <Ext16 as ExtSize>::EXT_SIZE == 16,
        <Ext16 as ExtSize>::EXT_BITS == 4,
        <Ext32 as ExtSize>::EXT_SIZE == 32,
        <Ext32 as ExtSize>::EXT_BITS == 5,
        <Ext64 as ExtSize>::EXT_SIZE == 64,
        <Ext64 as ExtSize>::EXT_BITS == 6,
        <Ext128 as ExtSize>::EXT_SIZE == 128,
        <Ext128 as ExtSize>::EXT_BITS == 7,
        <Ext256 as ExtSize>::EXT_SIZE == 256,
        <Ext256 as ExtSize>::EXT_BITS == 8,
        <Ext512 as ExtSize>::EXT_SIZE == 512,
        <Ext512 as ExtSize>::EXT_BITS == 9,
        <Ext1024 as ExtSize>::EXT_SIZE == 1024,
        <Ext1024 as ExtSize>::EXT_BITS == 10,
{
}

} // verus!
