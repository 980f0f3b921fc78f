//! Extended PCG generators utilize a simple method to dramatically extend the
//! period of the genrators. In addition to extending the period of the
//! generator it ensures that the generators have K-dimensional
//! equidistribution. This means that the generator will produce every possible
//! K-tuple uniformly.
//!
//! These generators require `K*sizeof(Xtype)` extra bytes to provide their
//! equidistribution.
pub mod extsizes;

pub use self::extsizes::{
    lemma_ext_sizes, Ext1024, Ext128, Ext16, Ext2, Ext256, Ext32, Ext4, Ext512, Ext64, Ext8,
    ExtSize,
};

use crate::generator::{join_halves, spec_join_halves, Generator};
use crate::lcg::{lcg_step, lcg_steps, lemma_step_wraps};
use crate::multiplier::{DefaultMultiplier, Multiplier};
use crate::numops::{bit_xor, low_mask, wrap, AsUsize, PcgOps};
use crate::outputmix::{OutputMixin, XshRrMixin};
use crate::period::{lemma_visits_add, visits};
use crate::seeds::{DefaultSeed, PcgSeeder, ReadByteOrder};
use crate::stream::{SpecificSeqStream, Stream};
use crate::{LcgState, PcgEngine};
use std::marker::PhantomData;
use vstd::arithmetic::div_mod::{
    lemma_add_mod_noop, lemma_mod_bound, lemma_mod_mod, lemma_small_mod,
};
use vstd::arithmetic::power2::{lemma2_to64, lemma_pow2_adds, lemma_pow2_pos, pow2};
use vstd::bits::lemma_usize_low_bits_mask_is_mod;
use vstd::prelude::*;

verus! {

/// What the draws of an extended generator depend on: the state of the
/// generator that it wraps, and the values of its extension.
pub struct ExtState {
    pub lcg: LcgState,
    pub ext: Seq<nat>,
}

/// An extended PCG generator. These generators provide K-dimensional
/// equidistribution. Where K is specified by the value of the Size parameter
/// which must be an ExtSize type.
pub struct ExtPcg<Itype, Xtype, StreamMix, MulMix, OutMix, Size> where
    Itype: ReadByteOrder + AsUsize,
    Xtype: PcgOps,
    StreamMix: Stream<Itype>,
    MulMix: Multiplier<Itype>,
    OutMix: OutputMixin<Itype, Xtype>,
    Size: ExtSize,
 {
    pcg: PcgEngine<Itype, Xtype, StreamMix, MulMix, OutMix>,
    ext: Vec<Xtype>,
    _size: PhantomData<Size>,
}

impl<Itype, Xtype, StreamMix, MulMix, OutMix, Size> ExtPcg<
    Itype,
    Xtype,
    StreamMix,
    MulMix,
    OutMix,
    Size,
> where
    Itype: ReadByteOrder + AsUsize,
    Xtype: PcgOps,
    StreamMix: Stream<Itype>,
    MulMix: Multiplier<Itype>,
    OutMix: OutputMixin<Itype, Xtype>,
    Size: ExtSize,
 {
    /// The extension has the size that the type names.
    #[verifier::type_invariant]
    spec fn sized(self) -> bool {
        self.ext.len() == Size::EXT_SIZE
    }

    /// The state of the wrapped generator and the values of the extension.
    pub closed spec fn state(&self) -> ExtState {
        ExtState {
            lcg: self.pcg.lcg(),
            ext: Seq::new(self.ext@.len(), |i: int| self.ext@[i].val()),
        }
    }

    /// The state in which `from_pcg` leaves an extended generator made of a
    /// generator in the state `s`: value `i` of the extension is draw `i` of
    /// that generator, which is left after as many draws as the extension has
    /// values.
    pub open spec fn initial(s: LcgState) -> ExtState {
        ExtState {
            lcg: PcgEngine::<Itype, Xtype, StreamMix, MulMix, OutMix>::steps_of(
                s,
                Size::EXT_SIZE as nat,
            ),
            ext: Seq::new(
                Size::EXT_SIZE as nat,
                |i: int|
                    PcgEngine::<Itype, Xtype, StreamMix, MulMix, OutMix>::output_of(
                        PcgEngine::<Itype, Xtype, StreamMix, MulMix, OutMix>::steps_of(s, i as nat),
                    ),
            ),
        }
    }

    /// The index of the value of the extension that the next draw uses: the low
    /// bits of the state that the wrapped generator steps to.
    pub open spec fn pick_of(s: ExtState) -> int {
        (PcgEngine::<Itype, Xtype, StreamMix, MulMix, OutMix>::step_of(s.lcg).state % pow2(
            Size::EXT_BITS as nat,
        )) as int
    }

    /// The output in a state: the output of the wrapped generator, exclusive-or
    /// the value of the extension that is picked.
    pub open spec fn output_of(s: ExtState) -> nat {
        bit_xor(
            PcgEngine::<Itype, Xtype, StreamMix, MulMix, OutMix>::output_of(s.lcg),
            s.ext[Self::pick_of(s)],
        )
    }

    /// The state after a draw: the wrapped generator has taken one step, and
    /// the value of the extension that was picked has grown by one, wrapping.
    pub open spec fn step_of(s: ExtState) -> ExtState {
        let pick = Self::pick_of(s);
        ExtState {
            lcg: PcgEngine::<Itype, Xtype, StreamMix, MulMix, OutMix>::step_of(s.lcg),
            ext: s.ext.update(pick, wrap(s.ext[pick] + 1, Xtype::BITS as nat)),
        }
    }

    /// How often the value `p` of the extension is picked in the first `n` draws
    /// from a state.
    pub open spec fn picks(s: ExtState, p: int, n: nat) -> nat
        decreases n,
    {
        if n == 0 {
            0
        } else {
            Self::picks(Self::step_of(s), p, (n - 1) as nat) + if Self::pick_of(s) == p {
                1nat
            } else {
                0nat
            }
        }
    }

    /// The picks of the extension are the visits of the low bits of the state
    /// of the wrapped generator.
    proof fn lemma_picks_are_visits(s: ExtState, p: int, n: nat)
        requires
            0 <= p,
        ensures
            Self::picks(s, p, n) == visits(
                s.lcg.state,
                MulMix::spec_multiplier(),
                s.lcg.increment,
                Itype::BITS as nat,
                Size::EXT_BITS as nat,
                p as nat,
                n,
            ),
        decreases n,
    {
        let m: nat = MulMix::spec_multiplier();
        let c: nat = s.lcg.increment;
        let bits: nat = Itype::BITS as nat;
        let k: nat = Size::EXT_BITS as nat;
        if n > 0 {
            let rest: nat = (n - 1) as nat;
            Self::lemma_picks_are_visits(Self::step_of(s), p, rest);
            lemma_visits_add(s.lcg.state, m, c, bits, k, p as nat, 1, rest);
            assert(lcg_steps(s.lcg.state, m, c, bits, 1) == lcg_step(s.lcg.state, m, c, bits)) by {
                assert(lcg_steps(s.lcg.state, m, c, bits, 0) == s.lcg.state);
            }
            assert(visits(s.lcg.state, m, c, bits, k, p as nat, 1) == if Self::pick_of(s) == p {
                1nat
            } else {
                0nat
            }) by {
                assert(visits(s.lcg.state, m, c, bits, k, p as nat, 0) == 0);
            }
        }
    }

    /// Equal shares: where the stream of the wrapped generator is not the one
    /// of increment zero, and its state has the bits that pick a value, every
    /// value of the extension is picked once in as many draws as the extension
    /// has values, and so `rounds` times in `rounds` times as many.
    pub proof fn lemma_equal_shares(ext: Self, p: int, rounds: nat)
        requires
            !StreamMix::zero_increment(),
            Size::EXT_BITS <= Itype::BITS,
            0 <= p < Size::EXT_SIZE,
        ensures
            Self::picks(ext.state(), p, rounds * (Size::EXT_SIZE as nat)) == rounds,
    {
        let s: ExtState = ext.state();
        ext.pcg.lemma_in_range();
        Size::lemma_ext_size();
        MulMix::lemma_multiplier();
        Self::lemma_picks_are_visits(s, p, rounds * (Size::EXT_SIZE as nat));
        crate::period::lemma_equal_shares(
            s.lcg.state,
            MulMix::spec_multiplier(),
            s.lcg.increment,
            Itype::BITS as nat,
            Size::EXT_BITS as nat,
            p as nat,
            rounds,
        );
    }

    /// The state after `n` draws from a state.
    pub open spec fn after(s: ExtState, n: nat) -> ExtState
        decreases n,
    {
        if n == 0 {
            s
        } else {
            Self::after(Self::step_of(s), (n - 1) as nat)
        }
    }

    /// A value of the extension grows by one with every draw that picks it:
    /// after `n` draws it has grown, wrapping, by the number of draws that
    /// picked it, and the extension has as many values as it had.
    pub proof fn lemma_grows_by_picks(s: ExtState, p: int, n: nat)
        requires
            s.ext.len() == Size::EXT_SIZE,
            0 <= p < Size::EXT_SIZE,
            s.ext[p] < pow2(Xtype::BITS as nat),
        ensures
            Self::after(s, n).ext.len() == Size::EXT_SIZE,
            Self::after(s, n).ext[p] == wrap(s.ext[p] + Self::picks(s, p, n), Xtype::BITS as nat),
        decreases n,
    {
        let width: nat = Xtype::BITS as nat;
        lemma_pow2_pos(width);
        if n == 0 {
            lemma_small_mod(s.ext[p], pow2(width));
        } else {
            let rest: nat = (n - 1) as nat;
            let next: ExtState = Self::step_of(s);
            let pick: int = Self::pick_of(s);
            Size::lemma_ext_size();
            lemma_pow2_pos(Size::EXT_BITS as nat);
            lemma_mod_bound(
                PcgEngine::<Itype, Xtype, StreamMix, MulMix, OutMix>::step_of(s.lcg).state as int,
                pow2(Size::EXT_BITS as nat) as int,
            );
            assert(0 <= pick < s.ext.len());
            lemma_mod_bound((s.ext[p] + 1) as int, pow2(width) as int);
            Self::lemma_grows_by_picks(next, p, rest);
            let more: nat = Self::picks(next, p, rest);
            if pick == p {
                assert(next.ext[p] == wrap(s.ext[p] + 1, width));
                lemma_add_mod_noop((s.ext[p] + 1) as int, more as int, pow2(width) as int);
                lemma_add_mod_noop(next.ext[p] as int, more as int, pow2(width) as int);
                lemma_small_mod(next.ext[p], pow2(width));
            } else {
                assert(next.ext[p] == s.ext[p]);
            }
        }
    }

    /// Equal growth: where the stream of the wrapped generator is not the one
    /// of increment zero, and its state has the bits that pick a value, every
    /// value of the extension has grown, wrapping, by `rounds` after `rounds`
    /// times as many draws as the extension has values.
    pub proof fn lemma_equal_growth(ext: Self, p: int, rounds: nat)
        requires
            !StreamMix::zero_increment(),
            Size::EXT_BITS <= Itype::BITS,
            ext.state().ext.len() == Size::EXT_SIZE,
            0 <= p < Size::EXT_SIZE,
        ensures
            Self::after(ext.state(), rounds * (Size::EXT_SIZE as nat)).ext[p] == wrap(
                ext.state().ext[p] + rounds,
                Xtype::BITS as nat,
            ),
    {
        ext.ext@[p].lemma_range();
        Self::lemma_equal_shares(ext, p, rounds);
        Self::lemma_grows_by_picks(ext.state(), p, rounds * (Size::EXT_SIZE as nat));
    }

    /// Create a new ExtPcg from an existing PCG. This will consume
    /// Size random values to initialize the extension array.
    pub fn from_pcg(pcg: PcgEngine<Itype, Xtype, StreamMix, MulMix, OutMix>) -> (r: ExtPcg<
        Itype,
        Xtype,
        StreamMix,
        MulMix,
        OutMix,
        Size,
    >)
        ensures
            r.state() == Self::initial(pcg.lcg()),
    {
        let mut pcg = pcg;
        let ghost start: LcgState = pcg.lcg();

        //Create the starting extension array
        let mut ext: Vec<Xtype> = Vec::with_capacity(Size::EXT_SIZE);
        let mut i: usize = 0;
        proof {
            PcgEngine::<Itype, Xtype, StreamMix, MulMix, OutMix>::lemma_steps_unfold(start, 0);
        }
        while i < Size::EXT_SIZE
            invariant
                i <= Size::EXT_SIZE,
                ext@.len() == i,
                pcg.lcg() == PcgEngine::<Itype, Xtype, StreamMix, MulMix, OutMix>::steps_of(
                    start,
                    i as nat,
                ),
                forall|j: int|
                    0 <= j < i ==> (#[trigger] ext@[j]).val() == PcgEngine::<
                        Itype,
                        Xtype,
                        StreamMix,
                        MulMix,
                        OutMix,
                    >::output_of(
                        PcgEngine::<Itype, Xtype, StreamMix, MulMix, OutMix>::steps_of(
                            start,
                            j as nat,
                        ),
                    ),
            decreases Size::EXT_SIZE - i,
        {
            proof {
                PcgEngine::<Itype, Xtype, StreamMix, MulMix, OutMix>::lemma_steps_unfold(
                    start,
                    (i + 1) as nat,
                );
            }
            let value: Xtype = pcg.next();
            ext.push(value);
            i = i + 1;
        }

        let r = ExtPcg { pcg, ext, _size: PhantomData::<Size> };
        proof {
            assert(r.state().ext =~= Self::initial(start).ext);
        }
        r
    }

    /// Creates a new ePCG without specifying a seed.
    /// WARNING: Every PCG created with this method will produce the same
    /// output. In most cases a seeded PCG will be more useful.
    pub fn new_unseeded() -> (r: ExtPcg<Itype, Xtype, StreamMix, MulMix, OutMix, Size>) where
        Itype: DefaultSeed,

        ensures
            r.state() == Self::initial(
                (LcgState {
                    state: Itype::spec_default_state(),
                    increment: StreamMix::spec_built(Some(Itype::spec_default_stream())),
                }),
            ),
    {
        let pcg = PcgEngine::<Itype, Xtype, StreamMix, MulMix, OutMix>::new_unseeded();
        Self::from_pcg(pcg)
    }

    /// Creates an extended generator from a seed, which must hold the words
    /// that the wrapped generator reads.
    pub fn from_seed(seed: PcgSeeder<Itype>) -> (r: Self)
        requires
            seed.has_words(1 + StreamMix::seed_words()),
        ensures
            r.state() == Self::initial(
                PcgEngine::<Itype, Xtype, StreamMix, MulMix, OutMix>::seeded(seed),
            ),
    {
        let pcg = PcgEngine::from_seed(seed);
        ExtPcg::from_pcg(pcg)
    }

    /// The values of the extension.
    pub fn extension(&self) -> (r: &[Xtype])
        ensures
            r@.len() == Size::EXT_SIZE,
            r@.len() == self.state().ext.len(),
            forall|i: int| 0 <= i < r@.len() ==> (#[trigger] r@[i]).val() == self.state().ext[i],
            forall|i: int|
                0 <= i < r@.len() ==> (#[trigger] self.state().ext[i]) < pow2(Xtype::BITS as nat),
    {
        proof {
            use_type_invariant(self);
            assert forall|i: int| 0 <= i < self.ext@.len() implies (
            #[trigger] self.state().ext[i]) < pow2(Xtype::BITS as nat) by {
                self.ext@[i].lemma_range();
            }
        }
        self.ext.as_slice()
    }

    /// Draws the next output: the output of the wrapped generator, mixed with
    /// the value of the extension that the state it steps to picks. That value
    /// then grows by one.
    pub fn next(&mut self) -> (r: Xtype)
        ensures
            r.val() == Self::output_of(old(self).state()),
            final(self).state() == Self::step_of(old(self).state()),
    {
        proof {
            use_type_invariant(&*self);
            Size::lemma_ext_size();
            lemma2_to64();
        }
        let ghost before: ExtState = self.state();
        let oldstate: Itype = self.pcg.state;
        let increment: Itype = self.pcg.stream_mix.increment();
        let multiplier: Itype = MulMix::multiplier();
        proof {
            lemma_step_wraps(oldstate.val(), multiplier.val(), increment.val(), Itype::BITS as nat);
            assert(increment.val() + wrap(oldstate.val() * multiplier.val(), Itype::BITS as nat)
                == wrap(oldstate.val() * multiplier.val(), Itype::BITS as nat) + increment.val());
        }
        self.pcg.state = increment.wrap_add(oldstate.wrap_mul(multiplier));
        let raw: Xtype = OutMix::output(oldstate, increment, multiplier);

        let mask: usize = low_mask(Size::EXT_BITS as usize);
        let word: usize = self.pcg.state.as_usize();
        let pick: usize = word & mask;
        proof {
            let bits: nat = Size::EXT_BITS as nat;
            let width: nat = usize::BITS as nat;
            let state: nat = self.pcg.lcg().state;
            lemma_usize_low_bits_mask_is_mod(word, bits);
            // the low bits of the low bits of the state are the low bits of the state
            lemma_pow2_adds(bits, (width - bits) as nat);
            lemma_pow2_pos(bits);
            lemma_pow2_pos((width - bits) as nat);
            lemma_mod_mod(state as int, pow2(bits) as int, pow2((width - bits) as nat) as int);
            lemma_mod_bound(state as int, pow2(bits) as int);
            assert(pick == Self::pick_of(before));
        }

        let ext_val: Xtype = self.ext[pick];
        self.ext[pick] = ext_val.wrap_add(Xtype::one());
        proof {
            assert(self.state().ext =~= Self::step_of(before).ext);
        }
        raw.xor(ext_val)
    }
}

impl<Itype, StreamMix, MulMix, OutMix, Size> Generator for ExtPcg<
    Itype,
    u32,
    StreamMix,
    MulMix,
    OutMix,
    Size,
> where
    Itype: ReadByteOrder + AsUsize,
    StreamMix: Stream<Itype>,
    MulMix: Multiplier<Itype>,
    OutMix: OutputMixin<Itype, u32>,
    Size: ExtSize,
 {
    type State = ExtState;

    open spec fn model(&self) -> ExtState {
        self.state()
    }

    open spec fn spec_next_u32(s: ExtState) -> (u32, ExtState) {
        (Self::output_of(s) as u32, Self::step_of(s))
    }

    open spec fn spec_next_u64(s: ExtState) -> (u64, ExtState) {
        let low = Self::output_of(s) as u32;
        let high = Self::output_of(Self::step_of(s)) as u32;
        (spec_join_halves(low, high), Self::step_of(Self::step_of(s)))
    }

    #[inline]
    fn next_u32(&mut self) -> (r: u32) {
        self.next()
    }

    fn next_u64(&mut self) -> (r: u64) {
        let low: u32 = self.next();
        let high: u32 = self.next();
        join_halves(low, high)
    }
}

impl<Itype, StreamMix, MulMix, OutMix, Size> Generator for ExtPcg<
    Itype,
    u64,
    StreamMix,
    MulMix,
    OutMix,
    Size,
> where
    Itype: ReadByteOrder + AsUsize,
    StreamMix: Stream<Itype>,
    MulMix: Multiplier<Itype>,
    OutMix: OutputMixin<Itype, u64>,
    Size: ExtSize,
 {
    type State = ExtState;

    open spec fn model(&self) -> ExtState {
        self.state()
    }

    open spec fn spec_next_u32(s: ExtState) -> (u32, ExtState) {
        ((Self::output_of(s) % 0x1_0000_0000) as u32, Self::step_of(s))
    }

    open spec fn spec_next_u64(s: ExtState) -> (u64, ExtState) {
        (Self::output_of(s) as u64, Self::step_of(s))
    }

    fn next_u32(&mut self) -> (r: u32) {
        let wide: u64 = self.next();
        proof {
            assert(wide as u32 == wide % 0x1_0000_0000) by (bit_vector);
            assert((wide % 0x1_0000_0000) as nat == (wide as nat) % 0x1_0000_0000);
        }
        wide as u32
    }

    fn next_u64(&mut self) -> (r: u64) {
        self.next()
    }
}

pub type SetseqXshRr6432ext<Size> = ExtPcg<
    u64,
    u32,
    SpecificSeqStream<u64>,
    DefaultMultiplier,
    XshRrMixin,
    Size,
>;

pub type SetseqXshRr12832ext<Size> = ExtPcg<
    u128,
    u32,
    SpecificSeqStream<u128>,
    DefaultMultiplier,
    XshRrMixin,
    Size,
>;

pub type SetseqXshRr12864ext<Size> = ExtPcg<
    u128,
    u64,
    SpecificSeqStream<u128>,
    DefaultMultiplier,
    XshRrMixin,
    Size,
>;

/// The extended version of the Pcg32 generator
pub type Pcg32Ext<Size> = SetseqXshRr6432ext<Size>;

/// The extended version of the Pcg32L generator
pub type Pcg32LExt<Size> = SetseqXshRr12832ext<Size>;

/// The extended version of the Pcg64 generator
pub type Pcg64Ext<Size> = SetseqXshRr12864ext<Size>;

} // verus!
