//! The streams: a stream provides the increment of the recurrence.
use crate::numops::{bit_or, lemma_or_one, lemma_word_bits, lemma_word_moduli, BitSize, PcgOps};
use crate::seeds::{PcgSeeder, ReadByteOrder};
use vstd::arithmetic::power2::{lemma_pow2_pos, pow2};
use vstd::prelude::*;

verus! {

/// A stream provides the increment to the LCG. This increment should be
/// an odd number or the period of the generator will not be the full size
/// of the state.
pub trait Stream<Itype: ReadByteOrder>: Sized {
    /// The increment, by its value.
    spec fn spec_increment(&self) -> nat;

    /// The number of words that `build` takes from a seed.
    spec fn seed_words() -> nat;

    /// The increment of the stream that `build` makes, by the word that the
    /// seed holds next; `None` stands for no seed.
    spec fn spec_built(word: Option<nat>) -> nat;

    /// `build` takes one word from a seed, or none.
    proof fn lemma_seed_words()
        ensures
            Self::seed_words() <= 1,
    ;

    /// Whether the increment is zero, which leaves a multiplicative generator.
    /// The increment of every other stream is odd.
    spec fn zero_increment() -> bool;

    /// Whether a stream of this kind can step by the increment `v`.
    spec fn can_step_by(v: nat) -> bool;

    /// A stream steps by zero where it is the one of increment zero, and by odd
    /// increments only where it is not.
    proof fn lemma_can_step_by(v: nat)
        requires
            Self::can_step_by(v),
        ensures
            Self::zero_increment() ==> v == 0,
            !Self::zero_increment() ==> v % 2 == 1,
    ;

    /// The increment is below `2^BITS`, it is zero or odd as `zero_increment`
    /// says, and it is one that a stream of this kind can step by.
    proof fn lemma_increment(&self)
        ensures
            self.spec_increment() < pow2(Itype::BITS as nat),
            Self::zero_increment() ==> self.spec_increment() == 0,
            !Self::zero_increment() ==> self.spec_increment() % 2 == 1,
            Self::can_step_by(self.spec_increment()),
    ;

    fn build(seed: Option<&mut PcgSeeder<Itype>>) -> (r: Self)
        requires
            seed matches Some(s) ==> s.has_words(Self::seed_words()),
        ensures
            r.spec_increment() == Self::spec_built(
                match seed {
                    Some(s) => Some(s.word_at(s.position())),
                    None => None,
                },
            ),
            seed matches Some(s) ==> final(s).bytes() == s.bytes() && final(s).position()
                == s.position() + Self::seed_words() * PcgSeeder::<Itype>::word_bytes(),
    ;

    /// A stream that steps by `increment`, where a stream of this kind can. An
    /// increment that it cannot step by is refused, not repaired.
    fn from_increment(increment: Itype) -> (r: Option<Self>)
        ensures
            Self::can_step_by(increment.val()) <==> r is Some,
            r matches Some(stream) ==> stream.spec_increment() == increment.val(),
    ;

    fn increment(&self) -> (r: Itype)
        ensures
            r.val() == self.spec_increment(),
            Self::zero_increment() ==> r.val() == 0,
            !Self::zero_increment() ==> r.val() % 2 == 1,
    ;

    fn get_stream(&self) -> (r: Itype)
        ensures
            r.val() == self.spec_increment(),
    ;
}

/// This sequence stream steps by one constant for each width of the state,
/// which is odd.
pub struct OneSeqStream;

impl Stream<u32> for OneSeqStream {
    open spec fn spec_increment(&self) -> nat {
        2_891_336_453
    }

    open spec fn seed_words() -> nat {
        0
    }

    open spec fn spec_built(word: Option<nat>) -> nat {
        2_891_336_453
    }

    proof fn lemma_seed_words() {
    }

    proof fn lemma_increment(&self) {
        lemma_word_bits();
        lemma_word_moduli();
    }

    open spec fn zero_increment() -> bool {
        false
    }

    fn build(_seed: Option<&mut PcgSeeder<u32>>) -> (r: Self) {
        OneSeqStream
    }

    open spec fn can_step_by(v: nat) -> bool {
        v == 2_891_336_453
    }

    proof fn lemma_can_step_by(v: nat) {
    }

    fn from_increment(increment: u32) -> (r: Option<Self>) {
        if increment == 2_891_336_453u32 {
            Some(OneSeqStream)
        } else {
            None
        }
    }

    #[inline(always)]
    fn increment(&self) -> (r: u32) {
        2_891_336_453u32
    }

    fn get_stream(&self) -> (r: u32) {
        2_891_336_453u32
    }
}

impl Stream<u64> for OneSeqStream {
    open spec fn spec_increment(&self) -> nat {
        1_442_695_040_888_963_407
    }

    open spec fn seed_words() -> nat {
        0
    }

    open spec fn spec_built(word: Option<nat>) -> nat {
        1_442_695_040_888_963_407
    }

    proof fn lemma_seed_words() {
    }

    proof fn lemma_increment(&self) {
        lemma_word_bits();
        lemma_word_moduli();
    }

    open spec fn zero_increment() -> bool {
        false
    }

    fn build(_seed: Option<&mut PcgSeeder<u64>>) -> (r: Self) {
        OneSeqStream
    }

    open spec fn can_step_by(v: nat) -> bool {
        v == 1_442_695_040_888_963_407
    }

    proof fn lemma_can_step_by(v: nat) {
    }

    fn from_increment(increment: u64) -> (r: Option<Self>) {
        if increment == 1_442_695_040_888_963_407u64 {
            Some(OneSeqStream)
        } else {
            None
        }
    }

    #[inline(always)]
    fn increment(&self) -> (r: u64) {
        1_442_695_040_888_963_407u64
    }

    fn get_stream(&self) -> (r: u64) {
        1_442_695_040_888_963_407u64
    }
}

impl Stream<u128> for OneSeqStream {
    open spec fn spec_increment(&self) -> nat {
        117_397_592_171_526_113_268_558_934_119_004_209_487
    }

    open spec fn seed_words() -> nat {
        0
    }

    open spec fn spec_built(word: Option<nat>) -> nat {
        117_397_592_171_526_113_268_558_934_119_004_209_487
    }

    proof fn lemma_seed_words() {
    }

    proof fn lemma_increment(&self) {
        lemma_word_bits();
        lemma_word_moduli();
    }

    open spec fn zero_increment() -> bool {
        false
    }

    fn build(_seed: Option<&mut PcgSeeder<u128>>) -> (r: Self) {
        OneSeqStream
    }

    open spec fn can_step_by(v: nat) -> bool {
        v == 117_397_592_171_526_113_268_558_934_119_004_209_487
    }

    proof fn lemma_can_step_by(v: nat) {
    }

    fn from_increment(increment: u128) -> (r: Option<Self>) {
        if increment == 117_397_592_171_526_113_268_558_934_119_004_209_487u128 {
            Some(OneSeqStream)
        } else {
            None
        }
    }

    #[inline(always)]
    fn increment(&self) -> (r: u128) {
        117_397_592_171_526_113_268_558_934_119_004_209_487u128
    }

    fn get_stream(&self) -> (r: u128) {
        117_397_592_171_526_113_268_558_934_119_004_209_487u128
    }
}

/// This stream provides an increment of 0 to the LCG. This turns the
/// LCG into a MCG, which while being less statistically sound than an LCG,
/// it is faster.
pub struct NoSeqStream;

impl Stream<u32> for NoSeqStream {
    open spec fn spec_increment(&self) -> nat {
        0
    }

    open spec fn seed_words() -> nat {
        0
    }

    open spec fn spec_built(word: Option<nat>) -> nat {
        0
    }

    proof fn lemma_seed_words() {
    }

    proof fn lemma_increment(&self) {
        lemma_pow2_pos(<u32 as BitSize>::BITS as nat);
    }

    open spec fn zero_increment() -> bool {
        true
    }

    fn build(_seed: Option<&mut PcgSeeder<u32>>) -> (r: Self) {
        NoSeqStream
    }

    open spec fn can_step_by(v: nat) -> bool {
        v == 0
    }

    proof fn lemma_can_step_by(v: nat) {
    }

    fn from_increment(increment: u32) -> (r: Option<Self>) {
        if increment == 0 {
            Some(NoSeqStream)
        } else {
            None
        }
    }

    #[inline(always)]
    fn increment(&self) -> (r: u32) {
        0
    }

    fn get_stream(&self) -> (r: u32) {
        0
    }
}

impl Stream<u64> for NoSeqStream {
    open spec fn spec_increment(&self) -> nat {
        0
    }

    open spec fn seed_words() -> nat {
        0
    }

    open spec fn spec_built(word: Option<nat>) -> nat {
        0
    }

    proof fn lemma_seed_words() {
    }

    proof fn lemma_increment(&self) {
        lemma_pow2_pos(<u64 as BitSize>::BITS as nat);
    }

    open spec fn zero_increment() -> bool {
        true
    }

    fn build(_seed: Option<&mut PcgSeeder<u64>>) -> (r: Self) {
        NoSeqStream
    }

    open spec fn can_step_by(v: nat) -> bool {
        v == 0
    }

    proof fn lemma_can_step_by(v: nat) {
    }

    fn from_increment(increment: u64) -> (r: Option<Self>) {
        if increment == 0 {
            Some(NoSeqStream)
        } else {
            None
        }
    }

    #[inline(always)]
    fn increment(&self) -> (r: u64) {
        0
    }

    fn get_stream(&self) -> (r: u64) {
        0
    }
}

impl Stream<u128> for NoSeqStream {
    open spec fn spec_increment(&self) -> nat {
        0
    }

    open spec fn seed_words() -> nat {
        0
    }

    open spec fn spec_built(word: Option<nat>) -> nat {
        0
    }

    proof fn lemma_seed_words() {
    }

    proof fn lemma_increment(&self) {
        lemma_pow2_pos(<u128 as BitSize>::BITS as nat);
    }

    open spec fn zero_increment() -> bool {
        true
    }

    fn build(_seed: Option<&mut PcgSeeder<u128>>) -> (r: Self) {
        NoSeqStream
    }

    open spec fn can_step_by(v: nat) -> bool {
        v == 0
    }

    proof fn lemma_can_step_by(v: nat) {
    }

    fn from_increment(increment: u128) -> (r: Option<Self>) {
        if increment == 0 {
            Some(NoSeqStream)
        } else {
            None
        }
    }

    #[inline(always)]
    fn increment(&self) -> (r: u128) {
        0
    }

    fn get_stream(&self) -> (r: u128) {
        0
    }
}

/// By default this stream provides the same stream as OneSeqStream. The
/// advantage to this stream is it can be changed at runtime. This incurs an
/// extra Itype of storage overhead. The increment that it holds is always odd.
pub struct SpecificSeqStream<Itype: PcgOps> {
    inc: Itype,
}

impl<Itype: PcgOps> SpecificSeqStream<Itype> {
    #[verifier::type_invariant]
    spec fn odd(self) -> bool {
        self.inc.val() % 2 == 1
    }

    /// The increment that the stream holds, by its value. It is odd.
    pub closed spec fn held(&self) -> nat {
        bit_or(self.inc.val(), 1)
    }
}

impl SpecificSeqStream<u32> {
    /// Sets the stream to `stream_seq` with its lowest bit set.
    pub fn set_stream(&mut self, stream_seq: u32)
        ensures
            final(self).held() == bit_or(stream_seq.val(), 1),
    {
        proof {
            lemma_or_one(stream_seq as nat);
            lemma_or_one((stream_seq | 1) as nat);
        }
        self.inc = stream_seq | 1;
    }
}

impl Stream<u32> for SpecificSeqStream<u32> {
    open spec fn spec_increment(&self) -> nat {
        self.held()
    }

    open spec fn seed_words() -> nat {
        1
    }

    open spec fn spec_built(word: Option<nat>) -> nat {
        match word {
            None => 2_891_336_453,
            Some(w) => bit_or(w, 1),
        }
    }

    proof fn lemma_seed_words() {
    }

    proof fn lemma_increment(&self) {
        lemma_word_bits();
        lemma_word_moduli();
        lemma_or_one(self.inc as nat);
    }

    open spec fn zero_increment() -> bool {
        false
    }

    fn build(seed: Option<&mut PcgSeeder<u32>>) -> (r: Self) {
        match seed {
            None => {
                proof {
                    lemma_or_one(2_891_336_453u32 as nat);
                }
                SpecificSeqStream { inc: 2_891_336_453u32 }
            },
            Some(seed) => {
                let word: u32 = seed.get();
                proof {
                    lemma_or_one(word as nat);
                    lemma_or_one((word | 1) as nat);
                }
                SpecificSeqStream { inc: word | 1 }
            },
        }
    }

    open spec fn can_step_by(v: nat) -> bool {
        v % 2 == 1
    }

    proof fn lemma_can_step_by(v: nat) {
    }

    fn from_increment(increment: u32) -> (r: Option<Self>) {
        proof {
            lemma_or_one(increment as nat);
        }
        if increment % 2 == 1 {
            Some(SpecificSeqStream { inc: increment })
        } else {
            None
        }
    }

    #[inline(always)]
    fn increment(&self) -> (r: u32) {
        proof {
            use_type_invariant(self);
            lemma_or_one(self.inc as nat);
        }
        self.inc
    }

    fn get_stream(&self) -> (r: u32) {
        proof {
            use_type_invariant(self);
            lemma_or_one(self.inc as nat);
        }
        self.inc
    }
}

impl SpecificSeqStream<u64> {
    /// Sets the stream to `stream_seq` with its lowest bit set.
    pub fn set_stream(&mut self, stream_seq: u64)
        ensures
            final(self).held() == bit_or(stream_seq.val(), 1),
    {
        proof {
            lemma_or_one(stream_seq as nat);
            lemma_or_one((stream_seq | 1) as nat);
        }
        self.inc = stream_seq | 1;
    }
}

impl Stream<u64> for SpecificSeqStream<u64> {
    open spec fn spec_increment(&self) -> nat {
        self.held()
    }

    open spec fn seed_words() -> nat {
        1
    }

    open spec fn spec_built(word: Option<nat>) -> nat {
        match word {
            None => 1_442_695_040_888_963_407,
            Some(w) => bit_or(w, 1),
        }
    }

    proof fn lemma_seed_words() {
    }

    proof fn lemma_increment(&self) {
        lemma_word_bits();
        lemma_word_moduli();
        lemma_or_one(self.inc as nat);
    }

    open spec fn zero_increment() -> bool {
        false
    }

    fn build(seed: Option<&mut PcgSeeder<u64>>) -> (r: Self) {
        match seed {
            None => {
                proof {
                    lemma_or_one(1_442_695_040_888_963_407u64 as nat);
                }
                SpecificSeqStream { inc: 1_442_695_040_888_963_407u64 }
            },
            Some(seed) => {
                let word: u64 = seed.get();
                proof {
                    lemma_or_one(word as nat);
                    lemma_or_one((word | 1) as nat);
                }
                SpecificSeqStream { inc: word | 1 }
            },
        }
    }

    open spec fn can_step_by(v: nat) -> bool {
        v % 2 == 1
    }

    proof fn lemma_can_step_by(v: nat) {
    }

    fn from_increment(increment: u64) -> (r: Option<Self>) {
        proof {
            lemma_or_one(increment as nat);
        }
        if increment % 2 == 1 {
            Some(SpecificSeqStream { inc: increment })
        } else {
            None
        }
    }

    #[inline(always)]
    fn increment(&self) -> (r: u64) {
        proof {
            use_type_invariant(self);
            lemma_or_one(self.inc as nat);
        }
        self.inc
    }

    fn get_stream(&self) -> (r: u64) {
        proof {
            use_type_invariant(self);
            lemma_or_one(self.inc as nat);
        }
        self.inc
    }
}

impl SpecificSeqStream<u128> {
    /// Sets the stream to `stream_seq` with its lowest bit set.
    pub fn set_stream(&mut self, stream_seq: u128)
        ensures
            final(self).held() == bit_or(stream_seq.val(), 1),
    {
        proof {
            lemma_or_one(stream_seq as nat);
            lemma_or_one((stream_seq | 1) as nat);
        }
        self.inc = stream_seq | 1;
    }
}

impl Stream<u128> for SpecificSeqStream<u128> {
    open spec fn spec_increment(&self) -> nat {
        self.held()
    }

    open spec fn seed_words() -> nat {
        1
    }

    open spec fn spec_built(word: Option<nat>) -> nat {
        match word {
            None => 117_397_592_171_526_113_268_558_934_119_004_209_487,
            Some(w) => bit_or(w, 1),
        }
    }

    proof fn lemma_seed_words() {
    }

    proof fn lemma_increment(&self) {
        lemma_word_bits();
        lemma_word_moduli();
        lemma_or_one(self.inc as nat);
    }

    open spec fn zero_increment() -> bool {
        false
    }

    fn build(seed: Option<&mut PcgSeeder<u128>>) -> (r: Self) {
        match seed {
            None => {
                proof {
                    lemma_or_one(117_397_592_171_526_113_268_558_934_119_004_209_487u128 as nat);
                }
                SpecificSeqStream { inc: 117_397_592_171_526_113_268_558_934_119_004_209_487u128 }
            },
            Some(seed) => {
                let word: u128 = seed.get();
                proof {
                    lemma_or_one(word as nat);
                    lemma_or_one((word | 1) as nat);
                }
                SpecificSeqStream { inc: word | 1 }
            },
        }
    }

    open spec fn can_step_by(v: nat) -> bool {
        v % 2 == 1
    }

    proof fn lemma_can_step_by(v: nat) {
    }

    fn from_increment(increment: u128) -> (r: Option<Self>) {
        proof {
            lemma_or_one(increment as nat);
        }
        if increment % 2 == 1 {
            Some(SpecificSeqStream { inc: increment })
        } else {
            None
        }
    }

    #[inline(always)]
    fn increment(&self) -> (r: u128) {
        proof {
            use_type_invariant(self);
            lemma_or_one(self.inc as nat);
        }
        self.inc
    }

    fn get_stream(&self) -> (r: u128) {
        proof {
            use_type_invariant(self);
            lemma_or_one(self.inc as nat);
        }
        self.inc
    }
}

/// `num_traits::FromPrimitive::from_usize` for `u64`: the number itself, since
/// every `usize` can be represented in a `u64`.
#[verifier::external_body]
fn u64_from_usize(n: usize) -> (r: Option<u64>)
    ensures
        r == Some(n as u64),
{
    num_traits::FromPrimitive::from_usize(n)
}

/// `num_traits::FromPrimitive::from_usize` for `u128`: the number itself, since
/// every `usize` can be represented in a `u128`.
#[verifier::external_body]
fn u128_from_usize(n: usize) -> (r: Option<u128>)
    ensures
        r == Some(n as u128),
{
    num_traits::FromPrimitive::from_usize(n)
}

/// This stream provides a stream based on an identity that the owner of the
/// generator gives it: two generators with the same seed and different
/// identities produce different sequences of numbers. A stream that was not
/// given an identity has the identity zero.
pub struct UniqueSeqStream {
    id: usize,
}

impl UniqueSeqStream {
    /// The identity of the stream.
    pub closed spec fn spec_identity(&self) -> usize {
        self.id
    }

    /// A stream with the identity `id`.
    pub fn with_identity(id: usize) -> (r: UniqueSeqStream)
        ensures
            r.spec_identity() == id,
    {
        UniqueSeqStream { id }
    }

    /// A stream with an identity made of an index, so that two streams made
    /// of different indices step by different increments: the identity is
    /// twice the index.
    pub fn with_index(index: usize) -> (r: UniqueSeqStream)
        requires
            index <= usize::MAX / 2,
        ensures
            r.spec_identity() == 2 * index,
            bit_or(r.spec_identity() as nat, 1) == 2 * index + 1,
    {
        proof {
            lemma_or_one((2 * index) as nat);
        }
        UniqueSeqStream { id: 2 * index }
    }

    /// The identity of the stream.
    pub fn identity(&self) -> (id: usize)
        ensures
            id == self.spec_identity(),
    {
        self.id
    }

    /// The identity with its lowest bit set, which is the increment.
    fn odd_identity(&self) -> (r: usize)
        ensures
            r as nat == bit_or(self.id as nat, 1),
            r % 2 == 1,
    {
        proof {
            lemma_or_one(self.id as nat);
        }
        self.id | 1
    }
}

impl Stream<u64> for UniqueSeqStream {
    open spec fn spec_increment(&self) -> nat {
        bit_or(self.spec_identity() as nat, 1)
    }

    open spec fn seed_words() -> nat {
        0
    }

    open spec fn spec_built(word: Option<nat>) -> nat {
        1
    }

    proof fn lemma_seed_words() {
    }

    proof fn lemma_increment(&self) {
        lemma_word_bits();
        lemma_word_moduli();
        lemma_or_one(self.id as nat);
    }

    open spec fn zero_increment() -> bool {
        false
    }

    fn build(_seed: Option<&mut PcgSeeder<u64>>) -> (r: Self) {
        proof {
            lemma_or_one(0);
        }
        UniqueSeqStream { id: 0 }
    }

    open spec fn can_step_by(v: nat) -> bool {
        v % 2 == 1 && v <= usize::MAX
    }

    proof fn lemma_can_step_by(v: nat) {
    }

    fn from_increment(increment: u64) -> (r: Option<Self>) {
        proof {
            lemma_or_one(increment as nat);
        }
        if increment % 2 == 1 && increment <= usize::MAX as u64 {
            Some(UniqueSeqStream { id: increment as usize })
        } else {
            None
        }
    }

    #[inline(always)]
    fn increment(&self) -> (r: u64) {
        u64_from_usize(self.odd_identity()).unwrap()
    }

    fn get_stream(&self) -> (r: u64) {
        u64_from_usize(self.odd_identity()).unwrap()
    }
}

impl Stream<u128> for UniqueSeqStream {
    open spec fn spec_increment(&self) -> nat {
        bit_or(self.spec_identity() as nat, 1)
    }

    open spec fn seed_words() -> nat {
        0
    }

    open spec fn spec_built(word: Option<nat>) -> nat {
        1
    }

    proof fn lemma_seed_words() {
    }

    proof fn lemma_increment(&self) {
        lemma_word_bits();
        lemma_word_moduli();
        lemma_or_one(self.id as nat);
    }

    open spec fn zero_increment() -> bool {
        false
    }

    fn build(_seed: Option<&mut PcgSeeder<u128>>) -> (r: Self) {
        proof {
            lemma_or_one(0);
        }
        UniqueSeqStream { id: 0 }
    }

    open spec fn can_step_by(v: nat) -> bool {
        v % 2 == 1 && v <= usize::MAX
    }

    proof fn lemma_can_step_by(v: nat) {
    }

    fn from_increment(increment: u128) -> (r: Option<Self>) {
        proof {
            lemma_or_one(increment as nat);
        }
        if increment % 2 == 1 && increment <= usize::MAX as u128 {
            Some(UniqueSeqStream { id: increment as usize })
        } else {
            None
        }
    }

    #[inline(always)]
    fn increment(&self) -> (r: u128) {
        u128_from_usize(self.odd_identity()).unwrap()
    }

    fn get_stream(&self) -> (r: u128) {
        u128_from_usize(self.odd_identity()).unwrap()
    }
}

} // verus!
