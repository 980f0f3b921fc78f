//! The multipliers of the recurrence, by the width of the state.
use crate::numops::PcgOps;
use vstd::prelude::*;

verus! {

/// This trait provides the multiplier for the internal LCG of the PCG generator
/// Implementing this trait for a struct will allow providing your own
/// multiplier for the PCG.
pub trait Multiplier<Itype: PcgOps> {
    /// The multiplier, by its value.
    spec fn spec_multiplier() -> nat;

    /// The multiplier is one more than a multiple of four. A step of the
    /// recurrence then loses no state, and with an odd increment the
    /// recurrence is in every state before it is in one twice.
    proof fn lemma_multiplier()
        ensures
            Self::spec_multiplier() % 4 == 1,
    ;

    fn multiplier() -> (m: Itype)
        ensures
            m.val() == Self::spec_multiplier(),
    ;
}

/// Provides the default "good" multiplier that the PCG family names for each
/// width of the state.
pub struct DefaultMultiplier;

impl Multiplier<u8> for DefaultMultiplier {
    open spec fn spec_multiplier() -> nat {
        141
    }

    proof fn lemma_multiplier() {
    }

    #[inline]
    fn multiplier() -> (m: u8) {
        141u8
    }
}

impl Multiplier<u16> for DefaultMultiplier {
    open spec fn spec_multiplier() -> nat {
        12829
    }

    proof fn lemma_multiplier() {
    }

    #[inline]
    fn multiplier() -> (m: u16) {
        12829u16
    }
}

impl Multiplier<u32> for DefaultMultiplier {
    open spec fn spec_multiplier() -> nat {
        747_796_405
    }

    proof fn lemma_multiplier() {
    }

    #[inline]
    fn multiplier() -> (m: u32) {
        747_796_405u32
    }
}

impl Multiplier<u64> for DefaultMultiplier {
    open spec fn spec_multiplier() -> nat {
        6_364_136_223_846_793_005
    }

    proof fn lemma_multiplier() {
    }

    #[inline]
    fn multiplier() -> (m: u64) {
        6_364_136_223_846_793_005u64
    }
}

impl Multiplier<u128> for DefaultMultiplier {
    open spec fn spec_multiplier() -> nat {
        47_026_247_687_942_121_848_144_207_491_837_523_525
    }

    proof fn lemma_multiplier() {
    }

    #[inline]
    fn multiplier() -> (m: u128) {
        47_026_247_687_942_121_848_144_207_491_837_523_525u128
    }
}

/// Provides the multiplier that the PCG family names for the MCG variant of
/// the generator, which steps by no increment.
pub struct McgMultiplier;

impl Multiplier<u8> for McgMultiplier {
    open spec fn spec_multiplier() -> nat {
        217
    }

    proof fn lemma_multiplier() {
    }

    #[inline]
    fn multiplier() -> (m: u8) {
        217u8
    }
}

impl Multiplier<u16> for McgMultiplier {
    open spec fn spec_multiplier() -> nat {
        62169
    }

    proof fn lemma_multiplier() {
    }

    #[inline]
    fn multiplier() -> (m: u16) {
        62169u16
    }
}

impl Multiplier<u32> for McgMultiplier {
    open spec fn spec_multiplier() -> nat {
        277_803_737
    }

    proof fn lemma_multiplier() {
    }

    #[inline]
    fn multiplier() -> (m: u32) {
        277_803_737u32
    }
}

impl Multiplier<u64> for McgMultiplier {
    open spec fn spec_multiplier() -> nat {
        12_605_985_483_714_917_081
    }

    proof fn lemma_multiplier() {
    }

    #[inline]
    fn multiplier() -> (m: u64) {
        12_605_985_483_714_917_081u64
    }
}

impl Multiplier<u128> for McgMultiplier {
    open spec fn spec_multiplier() -> nat {
        327_738_287_884_841_127_335_028_083_622_016_905_945
    }

    proof fn lemma_multiplier() {
    }

    #[inline]
    fn multiplier() -> (m: u128) {
        327_738_287_884_841_127_335_028_083_622_016_905_945u128
    }
}

} // verus!
