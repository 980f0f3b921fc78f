//! What every generator of this library offers: draws of 32 and of 64 bits and
//! the filling of a buffer with bytes, each a function of the generator's state
//! alone.
use crate::seeds::{le_bytes, lemma_le_bytes_index, lemma_le_round_trip};
use vstd::bits::lemma_u64_shr_is_div;
use vstd::prelude::*;

verus! {

/// The error type of `rand_core`'s generators, which `try_fill_bytes` names in
/// its result. Nothing is known of a value of it.
#[verifier::external_type_specification]
#[verifier::external_body]
pub struct ExRandError(rand_core::Error);

/// A generator of random numbers whose draws are a function of its state.
pub trait Generator: Sized {
    /// What the draws of the generator depend on.
    type State;

    /// The state of the generator.
    spec fn model(&self) -> Self::State;

    /// The next draw of 32 bits from a state, and the state after it.
    spec fn spec_next_u32(s: Self::State) -> (u32, Self::State);

    /// The next draw of 64 bits from a state, and the state after it.
    spec fn spec_next_u64(s: Self::State) -> (u64, Self::State);

    /// Draws 32 bits.
    fn next_u32(&mut self) -> (r: u32)
        ensures
            (r, final(self).model()) == Self::spec_next_u32(old(self).model()),
    ;

    /// Draws 64 bits.
    fn next_u64(&mut self) -> (r: u64)
        ensures
            (r, final(self).model()) == Self::spec_next_u64(old(self).model()),
    ;
}

/// A value of 64 bits made of two draws of 32 bits, little-endian order: the
/// first draw is the low half and the second the high half.
pub open spec fn spec_join_halves(low: u32, high: u32) -> u64 {
    (low as nat + high as nat * 0x1_0000_0000) as u64
}

/// Joins two draws of 32 bits to one value of 64 bits, the first draw low.
pub fn join_halves(low: u32, high: u32) -> (r: u64)
    ensures
        r == spec_join_halves(low, high),
{
    let x: u64 = low as u64;
    let y: u64 = high as u64;
    proof {
        assert(x < 0x1_0000_0000 && y < 0x1_0000_0000 ==> (y << 32) | x == x + y * 0x1_0000_0000)
            by (bit_vector);
    }
    (y << 32) | x
}

/// The bytes that fill a buffer of `len` bytes from a state, and the state
/// after them. While eight bytes or more are missing, a draw of 64 bits gives
/// eight, least significant first. Of what is left, more than four bytes are
/// the first bytes of one more draw of 64 bits, and four or less the first
/// bytes of a draw of 32 bits.
pub open spec fn spec_fill<G: Generator>(s: G::State, len: nat) -> (Seq<u8>, G::State)
    decreases len,
{
    if len == 0 {
        (Seq::empty(), s)
    } else if len >= 8 {
        let (v, s1) = G::spec_next_u64(s);
        let (rest, s2) = spec_fill::<G>(s1, (len - 8) as nat);
        (le_bytes(v as nat, 8) + rest, s2)
    } else if len > 4 {
        let (v, s1) = G::spec_next_u64(s);
        (le_bytes(v as nat, 8).subrange(0, len as int), s1)
    } else {
        let (v, s1) = G::spec_next_u32(s);
        (le_bytes(v as nat, 4).subrange(0, len as int), s1)
    }
}

/// The filling of buffers, which every generator has from its draws.
pub trait FillBytes: Generator {
    /// Fills `dest` with bytes drawn from the generator.
    fn fill_bytes(&mut self, dest: &mut [u8])
        ensures
            (final(dest)@, final(self).model()) == spec_fill::<Self>(
                old(self).model(),
                old(dest)@.len(),
            ),
    ;

    /// Fills `dest` with bytes drawn from the generator. It never fails.
    fn try_fill_bytes(&mut self, dest: &mut [u8]) -> (r: Result<(), rand_core::Error>)
        ensures
            r is Ok,
            (final(dest)@, final(self).model()) == spec_fill::<Self>(
                old(self).model(),
                old(dest)@.len(),
            ),
    ;
}

impl<G: Generator> FillBytes for G {
    fn fill_bytes(&mut self, dest: &mut [u8]) {
        fill_from_draws(self, dest)
    }

    fn try_fill_bytes(&mut self, dest: &mut [u8]) -> (r: Result<(), rand_core::Error>) {
        self.fill_bytes(dest);
        Ok(())
    }
}

/// The values of the first `n` draws of 32 bits from a state.
pub open spec fn spec_draws_u32<G: Generator>(s: G::State, n: nat) -> Seq<u32>
    decreases n,
{
    if n == 0 {
        Seq::empty()
    } else {
        let (v, s1) = G::spec_next_u32(s);
        seq![v] + spec_draws_u32::<G>(s1, (n - 1) as nat)
    }
}

/// The values of the first `n` draws of 64 bits from a state.
pub open spec fn spec_draws_u64<G: Generator>(s: G::State, n: nat) -> Seq<u64>
    decreases n,
{
    if n == 0 {
        Seq::empty()
    } else {
        let (v, s1) = G::spec_next_u64(s);
        seq![v] + spec_draws_u64::<G>(s1, (n - 1) as nat)
    }
}

/// The state after `n` draws of 32 bits from a state.
pub open spec fn spec_after_u32<G: Generator>(s: G::State, n: nat) -> G::State
    decreases n,
{
    if n == 0 {
        s
    } else {
        spec_after_u32::<G>(G::spec_next_u32(s).1, (n - 1) as nat)
    }
}

/// The state after `n` draws of 64 bits from a state.
pub open spec fn spec_after_u64<G: Generator>(s: G::State, n: nat) -> G::State
    decreases n,
{
    if n == 0 {
        s
    } else {
        spec_after_u64::<G>(G::spec_next_u64(s).1, (n - 1) as nat)
    }
}

/// Two generators in the same state hand out the same numbers and the same
/// bytes, however many are drawn: what a generator hands out depends on
/// nothing but its state.
pub proof fn lemma_same_state_same_draws<G: Generator>(a: G, b: G, n: nat)
    requires
        a.model() == b.model(),
    ensures
        spec_draws_u32::<G>(a.model(), n) == spec_draws_u32::<G>(b.model(), n),
        spec_draws_u64::<G>(a.model(), n) == spec_draws_u64::<G>(b.model(), n),
        spec_fill::<G>(a.model(), n) == spec_fill::<G>(b.model(), n),
{
}

/// Writes the first `count` bytes of `v`, least significant first, into `dest`
/// from the index `at` on.
fn write_le(dest: &mut [u8], at: usize, v: u64, count: usize)
    requires
        count <= 8,
        at + count <= old(dest)@.len(),
    ensures
        final(dest)@.len() == old(dest)@.len(),
        forall|i: int| 0 <= i < at ==> final(dest)@[i] == old(dest)@[i],
        forall|i: int| at + count <= i < old(dest)@.len() ==> final(dest)@[i] == old(dest)@[i],
        forall|k: int|
            0 <= k < count ==> #[trigger] final(dest)@[at + k] == le_bytes(v as nat, 8)[k],
{
    let len: usize = dest.len();
    let mut k: usize = 0;
    while k < count
        invariant
            k <= count <= 8,
            at + count <= len,
            dest@.len() == len,
            dest@.len() == old(dest)@.len(),
            forall|i: int| 0 <= i < at ==> dest@[i] == old(dest)@[i],
            forall|i: int| at + k <= i < old(dest)@.len() ==> dest@[i] == old(dest)@[i],
            forall|j: int| 0 <= j < k ==> #[trigger] dest@[at + j] == le_bytes(v as nat, 8)[j],
        decreases count - k,
    {
        let shifted: u64 = v >> (8 * k);
        let byte: u8 = (shifted & 0xff) as u8;
        proof {
            lemma_u64_shr_is_div(v, (8 * k) as u64);
            assert(shifted & 0xff == shifted % 256) by (bit_vector);
            lemma_le_bytes_index(v as nat, 8, k as nat);
        }
        dest[at + k] = byte;
        k = k + 1;
    }
}

/// Fills `dest` with bytes of draws of `rng`: eight at a time from draws of 64
/// bits, and what is left at the end from one last draw.
fn fill_from_draws<G: Generator>(rng: &mut G, dest: &mut [u8])
    ensures
        (final(dest)@, final(rng).model()) == spec_fill::<G>(old(rng).model(), old(dest)@.len()),
{
    let len: usize = dest.len();
    let mut at: usize = 0;
    while len - at >= 8
        invariant
            at <= len,
            dest@.len() == len,
            len == old(dest)@.len(),
            spec_fill::<G>(old(rng).model(), len as nat) == (
                dest@.subrange(0, at as int) + spec_fill::<G>(rng.model(), (len - at) as nat).0,
                spec_fill::<G>(rng.model(), (len - at) as nat).1,
            ),
        decreases len - at,
    {
        let ghost before = dest@;
        let ghost state = rng.model();
        let v: u64 = rng.next_u64();
        write_le(dest, at, v, 8);
        proof {
            lemma_le_round_trip(v as nat, 8);
            let rest = spec_fill::<G>(rng.model(), (len - at - 8) as nat);
            assert(spec_fill::<G>(state, (len - at) as nat) == (
                le_bytes(v as nat, 8) + rest.0,
                rest.1,
            ));
            assert(dest@.subrange(0, at + 8) =~= before.subrange(0, at as int) + le_bytes(
                v as nat,
                8,
            )) by {
                assert forall|i: int| at <= i < at + 8 implies dest@[i] == le_bytes(v as nat, 8)[i
                    - at] by {
                    assert(dest@[at + (i - at)] == le_bytes(v as nat, 8)[i - at]);
                }
            }
            assert((before.subrange(0, at as int) + le_bytes(v as nat, 8)) + rest.0
                =~= before.subrange(0, at as int) + (le_bytes(v as nat, 8) + rest.0));
        }
        at = at + 8;
    }
    let n: usize = len - at;
    let ghost before = dest@;
    let ghost state = rng.model();
    if n > 4 {
        let v: u64 = rng.next_u64();
        write_le(dest, at, v, n);
        proof {
            lemma_le_round_trip(v as nat, 8);
            let tail = le_bytes(v as nat, 8).subrange(0, n as int);
            assert(spec_fill::<G>(state, n as nat) == (tail, rng.model()));
            assert(dest@ =~= before.subrange(0, at as int) + tail) by {
                assert forall|i: int| at <= i < at + n implies dest@[i] == tail[i - at] by {
                    assert(dest@[at + (i - at)] == le_bytes(v as nat, 8)[i - at]);
                }
            }
        }
    } else if n > 0 {
        let v: u32 = rng.next_u32();
        write_le(dest, at, v as u64, n);
        proof {
            lemma_le_round_trip(v as nat, 8);
            lemma_le_round_trip(v as nat, 4);
            let tail = le_bytes(v as nat, 4).subrange(0, n as int);
            assert(spec_fill::<G>(state, n as nat) == (tail, rng.model()));
            assert(dest@ =~= before.subrange(0, at as int) + tail) by {
                assert forall|i: int| at <= i < at + n implies dest@[i] == tail[i - at] by {
                    assert(dest@[at + (i - at)] == le_bytes(v as nat, 8)[i - at]);
                    lemma_le_bytes_index(v as nat, 8, (i - at) as nat);
                    lemma_le_bytes_index(v as nat, 4, (i - at) as nat);
                }
            }
        }
    } else {
        assert(dest@ =~= before.subrange(0, at as int) + Seq::<u8>::empty());
    }
}

} // verus!
