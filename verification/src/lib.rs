//! An implementation of the PCG family of random number generators.
//! Details about the PCG generators can be found at
//! [pcg-random.org](http://pcg-random.org)
//!
//! A generator is a linear congruential generator whose state is never handed
//! out: each output is a permutation of the state. `PcgEngine` builds a
//! generator from a stream, which provides the increment of the recurrence, a
//! multiplier, and an output permutation.
//!
//! # Typename Nomenclature
//!
//! Consider the example `OneseqXshRr6432`. This consists of 4 major parts.
//!
//! 1. First is the sequence type
//! 1. Second is the permutation function
//! 1. Third is the state size in bits
//! 1. Fourth is the output size in bits
//!
//! ## Sequence types
//!
//! * `Setseq`: This is a settable stream. The random number stream can be set manually.
//! * `Unique`: This is a unique stream. Each instance of this type can be given a stream
//!   of its own by its owner.
//! * `Oneseq`: This is one fixed random sequence. It is hardcoded into the library and should be
//!   good enough to give good "randomness".
//! * `Mcg`: This has no random sequence it degenerates the internal LCG into a MCG. This is for
//!   speed.
//!
//! ## Permutation functions
//!
//! * `Xsh`: Refers to a High Xorshift function.
//! * `Rr`: Refers to a random rotation. Randomly rotates based on entropy from the state.
//! * `Rs`: Refers to a random shift. Randomly shifts based on entropy from the state.
pub mod extension;
pub mod generator;
pub mod lcg;
pub mod multiplier;
pub mod numops;
pub mod outputmix;
pub mod period;
pub mod seeds;
pub mod serialization;
pub mod stream;

use crate::generator::{
    join_halves, spec_after_u32, spec_after_u64, spec_draws_u32, spec_draws_u64, spec_fill,
    spec_join_halves, Generator,
};
use crate::lcg::{
    jump_mult, jump_plus, lcg_step, lcg_steps, lemma_full_cycle, lemma_increments_part,
    lemma_jump_base, lemma_jump_fold, lemma_jump_is_steps, lemma_step_wraps, lemma_steps_add,
    power,
};
use crate::multiplier::{DefaultMultiplier, McgMultiplier, Multiplier};
use crate::numops::{
    bit_or, is_odd, lemma_or_one, lemma_word_bits, lemma_word_moduli, wrap, AsUsize, PcgOps,
};
use crate::outputmix::{xsh_rr, OutputMixin, XshRrMixin, XshRsMixin};
use crate::period::{lemma_increments_two_apart, lemma_states_differ};
use crate::seeds::{DefaultSeed, PcgSeeder, ReadByteOrder, SeedError};
use crate::stream::{NoSeqStream, OneSeqStream, SpecificSeqStream, Stream, UniqueSeqStream};
use std::marker::PhantomData;
use vstd::arithmetic::div_mod::lemma_fundamental_div_mod;
use vstd::arithmetic::power2::{lemma2_to64, lemma_pow2_pos, lemma_pow2_unfold, pow2};
use vstd::prelude::*;

verus! {

/// What the draws of a generator built on the recurrence depend on: the state
/// and the increment, each by its value.
pub struct LcgState {
    pub state: nat,
    pub increment: nat,
}

/// A generic PCG structure.
///
/// This structure allows the building of many types of PCG generators by using various
/// Mixins for both the stream, multiplier, and permutation function.
pub struct PcgEngine<Itype, Xtype, StreamMix, MulMix, OutMix> where
    Itype: ReadByteOrder,
    Xtype: PcgOps,
    StreamMix: Stream<Itype>,
    MulMix: Multiplier<Itype>,
    OutMix: OutputMixin<Itype, Xtype>,
 {
    state: Itype,
    stream_mix: StreamMix,
    mul_mix: PhantomData<MulMix>,
    out_mix: PhantomData<OutMix>,
    phantom: PhantomData<Xtype>,
}

impl<Itype, Xtype, StreamMix, MulMix, OutMix> PcgEngine<Itype, Xtype, StreamMix, MulMix, OutMix> where
    Itype: ReadByteOrder,
    Xtype: PcgOps,
    StreamMix: Stream<Itype>,
    MulMix: Multiplier<Itype>,
    OutMix: OutputMixin<Itype, Xtype>,
 {
    /// The state and the increment of the generator.
    pub closed spec fn lcg(&self) -> LcgState {
        LcgState { state: self.state.val(), increment: self.stream_mix.spec_increment() }
    }

    /// The state after one step of the recurrence.
    pub open spec fn step_of(s: LcgState) -> LcgState {
        LcgState {
            state: lcg_step(s.state, MulMix::spec_multiplier(), s.increment, Itype::BITS as nat),
            increment: s.increment,
        }
    }

    /// The state after `n` steps of the recurrence.
    pub open spec fn steps_of(s: LcgState, n: nat) -> LcgState {
        LcgState {
            state: lcg_steps(
                s.state,
                MulMix::spec_multiplier(),
                s.increment,
                Itype::BITS as nat,
                n,
            ),
            increment: s.increment,
        }
    }

    /// The output that the generator hands out in a state.
    pub open spec fn output_of(s: LcgState) -> nat {
        OutMix::spec_output(s.state, s.increment, MulMix::spec_multiplier())
    }

    /// The state of the generator that is made of the bytes of a seed from the
    /// index `at` on: its state is the word that stands there, and its stream is
    /// built from the word after it.
    pub open spec fn seeded_at(bytes: Seq<u8>, at: nat) -> LcgState {
        let size = PcgSeeder::<Itype>::word_bytes();
        LcgState {
            state: Itype::spec_decode(bytes.subrange(at as int, (at + size) as int)),
            increment: StreamMix::spec_built(
                Some(
                    Itype::spec_decode(
                        bytes.subrange((at + size) as int, (at + size + size) as int),
                    ),
                ),
            ),
        }
    }

    /// The state of the generator that `from_seed` makes of a seed.
    pub open spec fn seeded(seed: PcgSeeder<Itype>) -> LcgState {
        Self::seeded_at(seed.bytes(), seed.position())
    }

    /// Creates a generator from a seed. The seed must hold the words that the
    /// generator reads: its state, and what its stream takes.
    pub fn from_seed(seed: PcgSeeder<Itype>) -> (r: Self)
        requires
            seed.has_words(1 + StreamMix::seed_words()),
        ensures
            r.lcg() == Self::seeded(seed),
    {
        let ghost words: nat = StreamMix::seed_words();
        let ghost size: nat = PcgSeeder::<Itype>::word_bytes();
        proof {
            StreamMix::lemma_seed_words();
            assert((1 + words) * size == size + words * size) by (nonlinear_arith);
            assert(1 * size == size);
            assert(0 <= words * size) by (nonlinear_arith);
        }
        let mut seed = seed;
        let state: Itype = seed.get();
        PcgEngine {
            state,
            stream_mix: StreamMix::build(Some(&mut seed)),
            mul_mix: PhantomData::<MulMix>,
            out_mix: PhantomData::<OutMix>,
            phantom: PhantomData::<Xtype>,
        }
    }

    /// Creates a generator from the bytes of a seed: a state and, after it, a
    /// stream. Bytes of any other length are refused.
    pub fn from_seed_bytes(bytes: &[u8]) -> (r: Result<Self, SeedError>)
        ensures
            bytes@.len() == 2 * PcgSeeder::<Itype>::word_bytes() <==> r is Ok,
            r matches Ok(pcg) ==> pcg.lcg() == Self::seeded_at(bytes@, 0),
            r matches Err(e) ==> e == SeedError::SizeMismatch,
    {
        match PcgSeeder::<Itype>::from_bytes(bytes) {
            Ok(seed) => {
                proof {
                    StreamMix::lemma_seed_words();
                    let words: nat = StreamMix::seed_words();
                    let size: nat = PcgSeeder::<Itype>::word_bytes();
                    assert((1 + words) * size <= 2 * size) by (nonlinear_arith)
                        requires
                            words <= 1,
                    ;
                }
                Ok(Self::from_seed(seed))
            },
            Err(e) => Err(e),
        }
    }

    /// Creates a generator from a state and a stream.
    pub fn from_parts(state: Itype, stream_mix: StreamMix) -> (r: Self)
        ensures
            r.lcg() == (LcgState { state: state.val(), increment: stream_mix.spec_increment() }),
    {
        PcgEngine {
            state,
            stream_mix,
            mul_mix: PhantomData::<MulMix>,
            out_mix: PhantomData::<OutMix>,
            phantom: PhantomData::<Xtype>,
        }
    }

    /// Creates a new PCG without specifying a seed.
    /// WARNING: Every PCG created with this method will produce the same
    /// output. In most cases a seeded PCG will be more useful.
    pub fn new_unseeded() -> (r: Self) where Itype: DefaultSeed
        ensures
            r.lcg() == (LcgState {
                state: Itype::spec_default_state(),
                increment: StreamMix::spec_built(Some(Itype::spec_default_stream())),
            }),
    {
        proof {
            StreamMix::lemma_seed_words();
            let words: nat = StreamMix::seed_words();
            let size: nat = PcgSeeder::<Itype>::word_bytes();
            assert((1 + words) * size <= 2 * size) by (nonlinear_arith)
                requires
                    words <= 1,
            ;
        }
        let seed: PcgSeeder<Itype> = <PcgSeeder<Itype> as Default>::default();
        PcgEngine::from_seed(seed)
    }

    /// No step leaves the state, and one more step after `n` is a step of the
    /// recurrence.
    pub proof fn lemma_steps_unfold(s: LcgState, n: nat)
        ensures
            Self::steps_of(s, 0) == s,
            Self::steps_of(s, n + 1) == Self::step_of(Self::steps_of(s, n)),
    {
        assert(lcg_steps(s.state, MulMix::spec_multiplier(), s.increment, Itype::BITS as nat, 0)
            == s.state);
    }

    /// Steps compose: `b` steps after `a` steps are `a + b` steps.
    pub proof fn lemma_steps_compose(s: LcgState, a: nat, b: nat)
        ensures
            Self::steps_of(Self::steps_of(s, a), b) == Self::steps_of(s, a + b),
    {
        lemma_steps_add(s.state, MulMix::spec_multiplier(), s.increment, Itype::BITS as nat, a, b);
    }

    /// Wraparound: after `2^BITS` steps a generator is back in the state in
    /// which it began. So one step and then `2^BITS - 1` more, which is the
    /// largest jump that `advance` takes, lead back too.
    pub proof fn lemma_wraparound(pcg: Self)
        ensures
            Self::steps_of(pcg.lcg(), pow2(Itype::BITS as nat)) == pcg.lcg(),
            Self::steps_of(Self::step_of(pcg.lcg()), (pow2(Itype::BITS as nat) - 1) as nat)
                == pcg.lcg(),
    {
        let s: LcgState = pcg.lcg();
        let bits: nat = Itype::BITS as nat;
        pcg.lemma_in_range();
        MulMix::lemma_multiplier();
        lemma_pow2_pos(bits);
        lemma_full_cycle(s.state, MulMix::spec_multiplier(), s.increment, bits);
        Self::lemma_steps_unfold(s, 0);
        Self::lemma_steps_compose(s, 1, (pow2(bits) - 1) as nat);
    }

    /// Seed sensitivity, of the state: two generators on the same stream whose
    /// states differ are in states that differ after any number of steps.
    pub proof fn lemma_states_stay_apart(a: Self, b: Self, n: nat)
        requires
            a.lcg().increment == b.lcg().increment,
            a.lcg().state != b.lcg().state,
        ensures
            Self::steps_of(a.lcg(), n).state != Self::steps_of(b.lcg(), n).state,
    {
        a.lemma_in_range();
        b.lemma_in_range();
        MulMix::lemma_multiplier();
        crate::lcg::lemma_states_stay_apart(
            a.lcg().state,
            b.lcg().state,
            MulMix::spec_multiplier(),
            a.lcg().increment,
            Itype::BITS as nat,
            n,
        );
    }

    /// Stream sensitivity, of the state: two generators in the same state whose
    /// increments differ are in states that differ after one step.
    pub proof fn lemma_streams_part(a: Self, b: Self)
        requires
            a.lcg().state == b.lcg().state,
            a.lcg().increment != b.lcg().increment,
        ensures
            Self::step_of(a.lcg()).state != Self::step_of(b.lcg()).state,
    {
        a.lemma_in_range();
        b.lemma_in_range();
        lemma_increments_part(
            a.lcg().state,
            MulMix::spec_multiplier(),
            a.lcg().increment,
            b.lcg().increment,
            Itype::BITS as nat,
        );
    }

    /// Seed sensitivity, of the state: of two generators on the same stream,
    /// the second `d` states ahead of the first, the second is `d` times the
    /// `n`-th power of the multiplier ahead after `n` steps. The power of an
    /// odd multiplier is odd, so that neighbouring states never meet.
    pub proof fn lemma_states_apart_by_power(a: Self, b: Self, n: nat)
        requires
            a.lcg().increment == b.lcg().increment,
            a.lcg().state <= b.lcg().state,
        ensures
            Self::steps_of(b.lcg(), n).state == wrap(
                Self::steps_of(a.lcg(), n).state + ((b.lcg().state - a.lcg().state) as nat)
                    * power(MulMix::spec_multiplier(), n),
                Itype::BITS as nat,
            ),
    {
        b.lemma_in_range();
        crate::period::lemma_states_apart_by_power(
            a.lcg().state,
            (b.lcg().state - a.lcg().state) as nat,
            MulMix::spec_multiplier(),
            a.lcg().increment,
            Itype::BITS as nat,
            n,
        );
    }

    /// Stream sensitivity, of the state: two generators in the same state
    /// whose increments are two apart are in states that differ after every
    /// number of steps from one up to half the period.
    pub proof fn lemma_streams_two_apart(a: Self, b: Self, n: nat)
        requires
            a.lcg().state == b.lcg().state,
            b.lcg().increment == a.lcg().increment + 2,
            0 < n < pow2((Itype::BITS - 1) as nat),
        ensures
            Self::steps_of(a.lcg(), n).state != Self::steps_of(b.lcg(), n).state,
    {
        a.lemma_in_range();
        Itype::lemma_bits();
        MulMix::lemma_multiplier();
        lemma_increments_two_apart(
            a.lcg().state,
            MulMix::spec_multiplier(),
            a.lcg().increment,
            Itype::BITS as nat,
            n,
        );
    }

    /// Full period: within `2^BITS` steps a generator whose stream is not the
    /// one of increment zero is in no state twice.
    pub proof fn lemma_full_period(pcg: Self, i: nat, j: nat)
        requires
            !StreamMix::zero_increment(),
            i < j < pow2(Itype::BITS as nat),
        ensures
            Self::steps_of(pcg.lcg(), i) != Self::steps_of(pcg.lcg(), j),
    {
        pcg.lemma_in_range();
        MulMix::lemma_multiplier();
        lemma_states_differ(
            pcg.lcg().state,
            MulMix::spec_multiplier(),
            pcg.lcg().increment,
            Itype::BITS as nat,
            i,
            j,
        );
    }

    /// A generator is in a state and on an increment below `2^BITS`. The
    /// increment is odd unless the stream is the one of increment zero, and it
    /// is one that the stream can step by, so that the record of a generator
    /// restores it.
    pub proof fn lemma_in_range(&self)
        ensures
            self.lcg().state < pow2(Itype::BITS as nat),
            self.lcg().increment < pow2(Itype::BITS as nat),
            StreamMix::zero_increment() ==> self.lcg().increment == 0,
            !StreamMix::zero_increment() ==> self.lcg().increment % 2 == 1,
            StreamMix::can_step_by(self.lcg().increment),
    {
        self.state.lemma_range();
        self.stream_mix.lemma_increment();
    }

    /// Draws the next output: the permutation of the state that the generator
    /// is in, which then takes one step.
    pub fn next(&mut self) -> (r: Xtype)
        ensures
            r.val() == Self::output_of(old(self).lcg()),
            final(self).lcg() == Self::step_of(old(self).lcg()),
    {
        let oldstate: Itype = self.state;
        let increment: Itype = self.stream_mix.increment();
        let multiplier: Itype = MulMix::multiplier();
        proof {
            lemma_step_wraps(oldstate.val(), multiplier.val(), increment.val(), Itype::BITS as nat);
            assert(increment.val() + wrap(oldstate.val() * multiplier.val(), Itype::BITS as nat)
                == wrap(oldstate.val() * multiplier.val(), Itype::BITS as nat) + increment.val());
        }
        self.state = increment.wrap_add(oldstate.wrap_mul(multiplier));

        OutMix::output(oldstate, increment, multiplier)
    }

    /// Jumps ahead by `delta` steps, in a number of operations that grows with
    /// the width of the state and not with `delta`. Since the recurrence comes
    /// back to where it began after `2^BITS` steps, a `delta` near the top of
    /// the range steps backwards.
    pub fn advance(&mut self, delta: Itype) where Itype: AsUsize
        ensures
            final(self).lcg() == Self::steps_of(old(self).lcg(), delta.val()),
    {
        let ghost m: nat = MulMix::spec_multiplier();
        let ghost c: nat = self.stream_mix.spec_increment();
        let ghost bits: nat = Itype::BITS as nat;
        let mut acc_mult: Itype = Itype::one();
        let mut acc_plus: Itype = Itype::zero();
        let mut cur_mult: Itype = MulMix::multiplier();
        let mut cur_plus: Itype = self.stream_mix.increment();
        let mut rest: Itype = delta;
        let ghost mut done: nat = 0;
        let mut i: usize = 0;
        proof {
            Itype::lemma_bits();
            cur_mult.lemma_range();
            cur_plus.lemma_range();
            lemma_jump_base(m, c, bits);
            lemma2_to64();
            assert(rest.val() * 1 == rest.val());
        }
        while i < Itype::BITS
            invariant
                i <= Itype::BITS,
                bits == Itype::BITS,
                8 <= bits <= 128,
                m == MulMix::spec_multiplier(),
                c == self.stream_mix.spec_increment(),
                self.lcg() == old(self).lcg(),
                delta.val() == rest.val() * pow2(i as nat) + done,
                done < pow2(i as nat),
                acc_mult.val() == jump_mult(m, bits, done),
                acc_plus.val() == jump_plus(m, c, bits, done),
                cur_mult.val() == jump_mult(m, bits, pow2(i as nat)),
                cur_plus.val() == jump_plus(m, c, bits, pow2(i as nat)),
            decreases Itype::BITS - i,
        {
            let ghost span: nat = pow2(i as nat);
            let ghost before: nat = rest.val();
            proof {
                lemma_pow2_unfold((i + 1) as nat);
                lemma_pow2_pos(i as nat);
                lemma_fundamental_div_mod(before as int, 2);
                assert(before * span == (before / 2) * (2 * span) + (before % 2) * span)
                    by (nonlinear_arith)
                    requires
                        before == 2 * (before / 2) + before % 2,
                ;
            }
            if is_odd(rest) {
                proof {
                    lemma_jump_fold(m, c, bits, done, span);
                    assert(1 * span == span);
                    done = done + span;
                }
                acc_plus = cur_mult.wrap_mul(acc_plus).wrap_add(cur_plus);
                acc_mult = cur_mult.wrap_mul(acc_mult);
            } else {
                assert(0 * span == 0);
            }
            proof {
                lemma_jump_fold(m, c, bits, span, span);
            }
            cur_plus = cur_mult.wrap_mul(cur_plus).wrap_add(cur_plus);
            cur_mult = cur_mult.wrap_mul(cur_mult);
            proof {
                lemma2_to64();
            }
            rest = rest.shr(1);
            i = i + 1;
        }
        proof {
            delta.lemma_range();
            self.state.lemma_range();
            lemma_pow2_pos(bits);
            // nothing is left of `delta` once all its bits are consumed
            assert(rest.val() == 0) by (nonlinear_arith)
                requires
                    delta.val() == rest.val() * pow2(bits) + done,
                    delta.val() < pow2(bits),
            {
            }
            assert(done == delta.val());
            lemma_jump_is_steps(self.state.val(), m, c, bits, done);
            lemma_step_wraps(acc_mult.val(), self.state.val(), acc_plus.val(), bits);
            assert(wrap(acc_mult.val() * self.state.val(), bits) + acc_plus.val() == acc_plus.val()
                + wrap(acc_mult.val() * self.state.val(), bits));
        }
        self.state = acc_mult.wrap_mul(self.state).wrap_add(acc_plus);
    }
}

//Provide random for 32 bit generators
impl<Itype, StreamMix, MulMix, OutMix> Generator for PcgEngine<
    Itype,
    u32,
    StreamMix,
    MulMix,
    OutMix,
> where
    Itype: ReadByteOrder,
    StreamMix: Stream<Itype>,
    MulMix: Multiplier<Itype>,
    OutMix: OutputMixin<Itype, u32>,
 {
    type State = LcgState;

    open spec fn model(&self) -> LcgState {
        self.lcg()
    }

    open spec fn spec_next_u32(s: LcgState) -> (u32, LcgState) {
        (Self::output_of(s) as u32, Self::step_of(s))
    }

    open spec fn spec_next_u64(s: LcgState) -> (u64, LcgState) {
        let low = Self::output_of(s) as u32;
        let high = Self::output_of(Self::step_of(s)) as u32;
        (spec_join_halves(low, high), Self::step_of(Self::step_of(s)))
    }

    fn next_u32(&mut self) -> (r: u32) {
        self.next()
    }

    fn next_u64(&mut self) -> (r: u64) {
        let low: u32 = self.next();
        let high: u32 = self.next();
        join_halves(low, high)
    }
}

impl<Itype, StreamMix, MulMix, OutMix> PcgEngine<Itype, u32, StreamMix, MulMix, OutMix> where
    Itype: ReadByteOrder,
    StreamMix: Stream<Itype>,
    MulMix: Multiplier<Itype>,
    OutMix: OutputMixin<Itype, u32>,
 {
    /// Determinism: two generators made from the same seed hand out the same
    /// numbers and the same bytes, however many are drawn.
    pub proof fn lemma_same_seed_same_draws(a: Self, b: Self, seed: PcgSeeder<Itype>, n: nat)
        requires
            a.lcg() == Self::seeded(seed),
            b.lcg() == Self::seeded(seed),
        ensures
            spec_draws_u32::<Self>(a.model(), n) == spec_draws_u32::<Self>(b.model(), n),
            spec_draws_u64::<Self>(a.model(), n) == spec_draws_u64::<Self>(b.model(), n),
            spec_fill::<Self>(a.model(), n) == spec_fill::<Self>(b.model(), n),
    {
    }

    /// Jump-ahead equivalence: the state that a jump by `delta` leads to is the
    /// state that `delta` draws lead to, so that the next draw after either is
    /// the same.
    pub proof fn lemma_jump_is_draws(s: LcgState, delta: nat)
        ensures
            Self::steps_of(s, delta) == spec_after_u32::<Self>(s, delta),
            Self::spec_next_u32(Self::steps_of(s, delta)) == Self::spec_next_u32(
                spec_after_u32::<Self>(s, delta),
            ),
        decreases delta,
    {
        Self::lemma_steps_unfold(s, 0);
        if delta > 0 {
            let rest: nat = (delta - 1) as nat;
            Self::lemma_jump_is_draws(Self::step_of(s), rest);
            Self::lemma_steps_compose(s, 1, rest);
        }
    }
}

impl<Itype, StreamMix, MulMix, OutMix> PcgEngine<Itype, u64, StreamMix, MulMix, OutMix> where
    Itype: ReadByteOrder,
    StreamMix: Stream<Itype>,
    MulMix: Multiplier<Itype>,
    OutMix: OutputMixin<Itype, u64>,
 {
    /// Determinism: two generators made from the same seed hand out the same
    /// numbers and the same bytes, however many are drawn.
    pub proof fn lemma_same_seed_same_draws(a: Self, b: Self, seed: PcgSeeder<Itype>, n: nat)
        requires
            a.lcg() == Self::seeded(seed),
            b.lcg() == Self::seeded(seed),
        ensures
            spec_draws_u32::<Self>(a.model(), n) == spec_draws_u32::<Self>(b.model(), n),
            spec_draws_u64::<Self>(a.model(), n) == spec_draws_u64::<Self>(b.model(), n),
            spec_fill::<Self>(a.model(), n) == spec_fill::<Self>(b.model(), n),
    {
    }

    /// Jump-ahead equivalence: the state that a jump by `delta` leads to is the
    /// state that `delta` draws lead to, so that the next draw after either is
    /// the same.
    pub proof fn lemma_jump_is_draws(s: LcgState, delta: nat)
        ensures
            Self::steps_of(s, delta) == spec_after_u64::<Self>(s, delta),
            Self::spec_next_u64(Self::steps_of(s, delta)) == Self::spec_next_u64(
                spec_after_u64::<Self>(s, delta),
            ),
        decreases delta,
    {
        Self::lemma_steps_unfold(s, 0);
        if delta > 0 {
            let rest: nat = (delta - 1) as nat;
            Self::lemma_jump_is_draws(Self::step_of(s), rest);
            Self::lemma_steps_compose(s, 1, rest);
        }
    }
}

//Provide random for 64 bit generators
impl<Itype, StreamMix, MulMix, OutMix> Generator for PcgEngine<
    Itype,
    u64,
    StreamMix,
    MulMix,
    OutMix,
> where
    Itype: ReadByteOrder,
    StreamMix: Stream<Itype>,
    MulMix: Multiplier<Itype>,
    OutMix: OutputMixin<Itype, u64>,
 {
    type State = LcgState;

    open spec fn model(&self) -> LcgState {
        self.lcg()
    }

    open spec fn spec_next_u32(s: LcgState) -> (u32, LcgState) {
        ((Self::output_of(s) % 0x1_0000_0000) as u32, Self::step_of(s))
    }

    open spec fn spec_next_u64(s: LcgState) -> (u64, LcgState) {
        (Self::output_of(s) as u64, Self::step_of(s))
    }

    fn next_u32(&mut self) -> (r: u32) {
        let wide: u64 = self.next();
        proof {
            assert(wide as u32 == wide % 0x1_0000_0000) by (bit_vector);
            assert((wide % 0x1_0000_0000) as nat == (wide as nat) % 0x1_0000_0000);
        }
        wide as u32
    }

    fn next_u64(&mut self) -> (r: u64) {
        self.next()
    }
}

pub type OneseqXshRs6432 = PcgEngine<u64, u32, OneSeqStream, DefaultMultiplier, XshRsMixin>;

pub type OneseqXshRr6432 = PcgEngine<u64, u32, OneSeqStream, DefaultMultiplier, XshRrMixin>;

pub type UniqueXshRs6432 = PcgEngine<u64, u32, UniqueSeqStream, DefaultMultiplier, XshRsMixin>;

pub type UniqueXshRr6432 = PcgEngine<u64, u32, UniqueSeqStream, DefaultMultiplier, XshRrMixin>;

pub type SetseqXshRs6432 = PcgEngine<
    u64,
    u32,
    SpecificSeqStream<u64>,
    DefaultMultiplier,
    XshRsMixin,
>;

pub type SetseqXshRr6432 = PcgEngine<
    u64,
    u32,
    SpecificSeqStream<u64>,
    DefaultMultiplier,
    XshRrMixin,
>;

pub type McgXshRs6432 = PcgEngine<u64, u32, NoSeqStream, McgMultiplier, XshRsMixin>;

pub type McgXshRr6432 = PcgEngine<u64, u32, NoSeqStream, McgMultiplier, XshRrMixin>;

/// A helper definition for a simple 32bit PCG which can have multiple random streams
pub type Pcg32 = SetseqXshRr6432;

/// A helper definition for a 32bit PCG which hase a fixed good random stream
pub type Pcg32Oneseq = OneseqXshRr6432;

/// A helper definition for a 32bit PCG which has a unique random stream for each instance
pub type Pcg32Unique = UniqueXshRr6432;

/// A helper definition for a 32bit PCG which is fast but may lack statistical quality.
///
/// This generator sacrifices quality for speed by utilizing a Multiplicative Congruential
/// generator instead of a LCG. Additionally it uses a simpler permutation function so that the
/// compiler can optimize and reduce the number of operations.
pub type Pcg32Fast = McgXshRs6432;

pub type OneseqXshRs12832 = PcgEngine<u128, u32, OneSeqStream, DefaultMultiplier, XshRsMixin>;

pub type OneseqXshRr12832 = PcgEngine<u128, u32, OneSeqStream, DefaultMultiplier, XshRrMixin>;

pub type UniqueXshRs12832 = PcgEngine<u128, u32, UniqueSeqStream, DefaultMultiplier, XshRsMixin>;

pub type UniqueXshRr12832 = PcgEngine<u128, u32, UniqueSeqStream, DefaultMultiplier, XshRrMixin>;

pub type SetseqXshRs12832 = PcgEngine<
    u128,
    u32,
    SpecificSeqStream<u128>,
    DefaultMultiplier,
    XshRsMixin,
>;

pub type SetseqXshRr12832 = PcgEngine<
    u128,
    u32,
    SpecificSeqStream<u128>,
    DefaultMultiplier,
    XshRrMixin,
>;

pub type McgXshRs12832 = PcgEngine<u128, u32, NoSeqStream, McgMultiplier, XshRsMixin>;

pub type McgXshRr12832 = PcgEngine<u128, u32, NoSeqStream, McgMultiplier, XshRrMixin>;

/// A helper definition for a simple 32bit PCG which can have multiple random streams. This version uses 128bits of internal state
/// This makes it potentially slower but it has a longer period.
pub type Pcg32L = SetseqXshRr12832;

/// A helper definition for a 32bit PCG which hase a fixed good random stream. This version uses 128bits of internal state
/// This makes it potentially slower but it has a longer period.
pub type Pcg32LOneseq = OneseqXshRr12832;

/// A helper definition for a 32bit PCG which has a unique random stream for each instance. This version uses 128bits of internal state
/// This makes it potentially slower but it has a longer period.
pub type Pcg32LUnique = UniqueXshRr12832;

/// A helper definition for a 32bit PCG which is fast but may lack statistical quality. This version uses 128bits of internal state
/// This makes it potentially slower but it has a longer period.
pub type Pcg32LFast = McgXshRs12832;

pub type OneseqXshRs12864 = PcgEngine<u128, u64, OneSeqStream, DefaultMultiplier, XshRsMixin>;

pub type OneseqXshRr12864 = PcgEngine<u128, u64, OneSeqStream, DefaultMultiplier, XshRrMixin>;

pub type UniqueXshRs12864 = PcgEngine<u128, u64, UniqueSeqStream, DefaultMultiplier, XshRsMixin>;

pub type UniqueXshRr12864 = PcgEngine<u128, u64, UniqueSeqStream, DefaultMultiplier, XshRrMixin>;

pub type SetseqXshRs12864 = PcgEngine<
    u128,
    u64,
    SpecificSeqStream<u128>,
    DefaultMultiplier,
    XshRsMixin,
>;

pub type SetseqXshRr12864 = PcgEngine<
    u128,
    u64,
    SpecificSeqStream<u128>,
    DefaultMultiplier,
    XshRrMixin,
>;

pub type McgXshRs12864 = PcgEngine<u128, u64, NoSeqStream, McgMultiplier, XshRsMixin>;

pub type McgXshRr12864 = PcgEngine<u128, u64, NoSeqStream, McgMultiplier, XshRrMixin>;

/// A helper definition for a simple 64bit PCG which can have multiple random streams
pub type Pcg64 = SetseqXshRr12864;

/// A helper definition for a 64bit PCG which hase a fixed good random stream
pub type Pcg64Oneseq = OneseqXshRr12864;

/// A helper definition for a 64bit PCG which has a unique random stream for each instance
pub type Pcg64Unique = UniqueXshRr12864;

/// A helper definition for a 64bit PCG which is fast but may lack statistical quality.
pub type Pcg64Fast = McgXshRs12864;

/// A low overhead very simple PCG implementation
///
/// This is mostly useful for demonstrating how PCG works.
/// If you want better statistical performance you should use one of the predefined types like
/// `Pcg32`.
pub struct Pcg32Basic {
    state: u64,
    inc: u64,
}

impl Pcg32Basic {
    /// The state of the generator and the increment that it steps by, which is
    /// the stream that it was seeded with, with its lowest bit set.
    pub closed spec fn lcg(&self) -> LcgState {
        LcgState { state: self.state as nat, increment: bit_or(self.inc as nat, 1) }
    }

    /// The state after one step of the recurrence.
    pub open spec fn step_of(s: LcgState) -> LcgState {
        LcgState {
            state: lcg_step(s.state, 6_364_136_223_846_793_005, s.increment, 64),
            increment: s.increment,
        }
    }

    /// The output that the generator hands out in a state: an xor-shift and a
    /// rotation chosen by the top bits, from 64 bits to 32.
    pub open spec fn output_of(s: LcgState) -> nat {
        xsh_rr(s.state, 64, 32)
    }

    /// The state of the generator that `from_seed` makes of a seed: the state
    /// is the next word of the seed, and the stream the word after it.
    pub open spec fn seeded(seed: PcgSeeder<u64>) -> LcgState {
        LcgState {
            state: seed.word_at(seed.position()),
            increment: bit_or(
                seed.word_at(seed.position() + PcgSeeder::<u64>::word_bytes()),
                1,
            ),
        }
    }

    /// A generator is in a state and on an increment below `2^64`, and the
    /// increment is odd.
    pub proof fn lemma_in_range(&self)
        ensures
            self.lcg().state < pow2(64),
            self.lcg().increment < pow2(64),
            self.lcg().increment % 2 == 1,
    {
        lemma_word_moduli();
        lemma_or_one(self.inc as nat);
    }

    /// Creates a new PCG without specifying a seed.
    /// WARNING: Every PCG created with this method will produce the same
    /// output. In most cases a seeded PCG will be more useful.
    pub fn new_unseeded() -> (r: Pcg32Basic)
        ensures
            r.lcg() == (LcgState {
                state: 0x1801_3CAD_3A48_3F72,
                increment: bit_or(0x51DB_FCDA_0D6B_21D4, 1),
            }),
    {
        proof {
            lemma_word_bits();
        }
        let seed: PcgSeeder<u64> = <PcgSeeder<u64> as Default>::default();
        Pcg32Basic::from_seed(seed)
    }

    /// Creates a generator from a seed, which must hold a state and a stream.
    pub fn from_seed(seed: PcgSeeder<u64>) -> (r: Pcg32Basic)
        requires
            seed.has_words(2),
        ensures
            r.lcg() == Self::seeded(seed),
    {
        proof {
            lemma_word_bits();
        }
        let mut seed = seed;
        let state: u64 = seed.get();
        let inc: u64 = seed.get();
        Pcg32Basic { state, inc }
    }
}

//Pcg32Basic is an rng
impl Generator for Pcg32Basic {
    type State = LcgState;

    open spec fn model(&self) -> LcgState {
        self.lcg()
    }

    open spec fn spec_next_u32(s: LcgState) -> (u32, LcgState) {
        (Self::output_of(s) as u32, Self::step_of(s))
    }

    open spec fn spec_next_u64(s: LcgState) -> (u64, LcgState) {
        let low = Self::output_of(s) as u32;
        let high = Self::output_of(Self::step_of(s)) as u32;
        (spec_join_halves(low, high), Self::step_of(Self::step_of(s)))
    }

    fn next_u32(&mut self) -> (r: u32) {
        let oldstate: u64 = self.state;
        let multiplier: u64 = 6_364_136_223_846_793_005u64;
        let increment: u64 = self.inc | 1;
        proof {
            lemma_word_bits();
            lemma_step_wraps(oldstate as nat, multiplier as nat, increment as nat, 64);
            assert(increment as nat + wrap(oldstate as nat * multiplier as nat, 64) == wrap(
                oldstate as nat * multiplier as nat,
                64,
            ) + increment as nat);
        }
        //Update the state as an lcg
        self.state = oldstate.wrap_mul(multiplier).wrap_add(increment);

        //Produce the permuted output
        <XshRrMixin as OutputMixin<u64, u32>>::output(oldstate, increment, multiplier)
    }

    fn next_u64(&mut self) -> (r: u64) {
        let low: u32 = self.next_u32();
        let high: u32 = self.next_u32();
        join_halves(low, high)
    }
}

} // verus!
