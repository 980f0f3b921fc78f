//! What is stored of a generator, and how a generator is restored from it.
//!
//! The record is kept apart from the drawing and the jumping, so that it can be
//! written in any format.
use crate::multiplier::Multiplier;
use crate::numops::PcgOps;
use crate::outputmix::OutputMixin;
use crate::seeds::ReadByteOrder;
use crate::stream::Stream;
use crate::{LcgState, PcgEngine};
use vstd::prelude::*;

verus! {

/// What is stored of a generator: its state, its stream, and the name of its
/// output permutation.
pub struct PcgStateInfo<Itype> {
    pub state: Itype,
    pub stream: Itype,
    pub algorithm: String,
}

/// Why a record does not restore a generator.
#[derive(Debug, PartialEq, Eq, Clone, Copy, Structural)]
pub enum RestoreError {
    /// The record names another output permutation than the generator has.
    AlgorithmMismatch,
    /// The stream of the record is one that the generator cannot step by: an
    /// even one, unless the generator steps by no increment.
    InvalidStream,
}

impl RestoreError {
    /// What went wrong, in words.
    pub fn message(&self) -> (r: &'static str)
        ensures
            r@ == (match self {
                RestoreError::AlgorithmMismatch => "the record names another output permutation"@,
                RestoreError::InvalidStream => "the generator cannot step by the stream of the record"@,
            }),
    {
        match self {
            RestoreError::AlgorithmMismatch => "the record names another output permutation",
            RestoreError::InvalidStream => "the generator cannot step by the stream of the record",
        }
    }
}

impl<Itype, Xtype, StreamMix, MulMix, OutMix> PcgEngine<Itype, Xtype, StreamMix, MulMix, OutMix> where
    Itype: ReadByteOrder,
    Xtype: PcgOps,
    StreamMix: Stream<Itype>,
    MulMix: Multiplier<Itype>,
    OutMix: OutputMixin<Itype, Xtype>,
 {
    /// The record of the generator as it stands.
    pub fn get_state(&self) -> (info: PcgStateInfo<Itype>)
        ensures
            info.state.val() == self.lcg().state,
            info.stream.val() == self.lcg().increment,
            info.algorithm@ == OutMix::spec_serializer_id(),
    {
        proof {
            OutMix::lemma_serializer_id();
        }
        PcgStateInfo {
            state: self.state,
            stream: self.stream_mix.get_stream(),
            algorithm: OutMix::SERIALIZER_ID.to_owned(),
        }
    }

    /// Restores a generator from a record. The record must name the output
    /// permutation of the generator and hold a stream that the generator can
    /// step by; a record that does not is refused, and never repaired. A
    /// generator whose stream is not the one of increment zero steps by odd
    /// streams only, so that it refuses every record with an even stream.
    pub fn restore_state(info: PcgStateInfo<Itype>) -> (r: Result<Self, RestoreError>)
        ensures
            (match r {
                Ok(pcg) => info.algorithm@ == OutMix::spec_serializer_id()
                    && StreamMix::can_step_by(info.stream.val()) && pcg.lcg() == (LcgState {
                    state: info.state.val(),
                    increment: info.stream.val(),
                }),
                Err(RestoreError::AlgorithmMismatch) => info.algorithm@
                    != OutMix::spec_serializer_id(),
                Err(RestoreError::InvalidStream) => info.algorithm@
                    == OutMix::spec_serializer_id() && !StreamMix::can_step_by(info.stream.val()),
            }),
            !StreamMix::zero_increment() && info.stream.val() % 2 == 0 ==> r is Err,
    {
        proof {
            OutMix::lemma_serializer_id();
            if StreamMix::can_step_by(info.stream.val()) {
                StreamMix::lemma_can_step_by(info.stream.val());
            }
        }
        let expected: String = OutMix::SERIALIZER_ID.to_owned();
        if !(info.algorithm == expected) {
            return Err(RestoreError::AlgorithmMismatch);
        }
        match StreamMix::from_increment(info.stream) {
            Some(stream) => Ok(PcgEngine::from_parts(info.state, stream)),
            None => Err(RestoreError::InvalidStream),
        }
    }
}

} // verus!
