//! The output permutations: each maps the state of the recurrence, taken before
//! it advances, to the value that the generator hands out.
use crate::numops::{
    bit_or, bit_xor, low_mask, rotate_right, shift_right, wrap, AsSmaller, AsUsize, PcgOps,
};
use vstd::arithmetic::div_mod::{lemma_mod_bound, lemma_multiply_divide_lt, lemma_small_mod};
use vstd::arithmetic::power2::{
    lemma2_to64, lemma_pow2_adds, lemma_pow2_pos, lemma_pow2_strictly_increases, pow2,
};
use vstd::bits::{lemma_usize_low_bits_mask_is_mod, lemma_usize_shl_is_mul};
use vstd::prelude::*;

verus! {

/// The output mixin trait provides the permutation function for the output
/// of the PCG. The state that the recurrence is about to leave is run through
/// `output` to produce the output.
pub trait OutputMixin<Itype: PcgOps, Xtype: PcgOps> {
    /// The name under which a stored generator records this permutation.
    const SERIALIZER_ID: &'static str;

    /// The characters of `SERIALIZER_ID`.
    spec fn spec_serializer_id() -> Seq<char>;

    /// `SERIALIZER_ID` holds the characters that `spec_serializer_id` names.
    proof fn lemma_serializer_id()
        ensures
            Self::SERIALIZER_ID@ == Self::spec_serializer_id(),
    ;

    /// The output for a state, an increment and a multiplier, each by its value.
    spec fn spec_output(state: nat, increment: nat, multiplier: nat) -> nat;

    fn output(state: Itype, increment: Itype, multiplier: Itype) -> (r: Xtype)
        ensures
            r.val() == Self::spec_output(state.val(), increment.val(), multiplier.val()),
    ;
}

/// The number of top bits of the state that select the shift of `XshRsMixin`,
/// by the number of bits that the state has over the output.
pub open spec fn xsh_rs_opbits(sparebits: nat) -> nat {
    if sparebits >= 69 {
        5
    } else if sparebits >= 36 {
        4
    } else if sparebits >= 19 {
        3
    } else if sparebits >= 6 {
        2
    } else if sparebits >= 2 {
        1
    } else {
        0
    }
}

/// Xor-shift, then a shift chosen by the top bits of the state, from a state of
/// `w` bits to an output of `x` bits.
pub open spec fn xsh_rs(state: nat, w: nat, x: nat) -> nat {
    let sparebits = (w - x) as nat;
    let opbits = xsh_rs_opbits(sparebits);
    let maxrandshift = (pow2(opbits) - 1) as nat;
    let bottomspare = (sparebits - opbits) as nat;
    let xshift = opbits + (x + maxrandshift) / 2;
    let rshift = shift_right(state, (w - opbits) as nat) % pow2(opbits);
    let mixed = bit_xor(state, shift_right(state, xshift));
    wrap(shift_right(mixed, (bottomspare - maxrandshift + rshift) as nat), x)
}

/// The number of top bits of the state that `XshRrMixin` would use to select
/// the rotation, by the width of the output.
pub open spec fn xsh_rr_wanted_opbits(x: nat) -> nat {
    if x >= 128 {
        7
    } else if x >= 64 {
        6
    } else if x >= 32 {
        5
    } else if x >= 16 {
        4
    } else {
        3
    }
}

/// Xor-shift, then a rotation chosen by the top bits of the state, from a state
/// of `w` bits to an output of `x` bits.
pub open spec fn xsh_rr(state: nat, w: nat, x: nat) -> nat {
    let sparebits = (w - x) as nat;
    let wantedopbits = xsh_rr_wanted_opbits(x);
    let opbits = if sparebits >= wantedopbits {
        wantedopbits
    } else {
        sparebits
    };
    let amplifier = (wantedopbits - opbits) as nat;
    let bottomspare = (sparebits - opbits) as nat;
    let xshift = (opbits + x) / 2;
    let rot = shift_right(state, (w - opbits) as nat) % pow2(opbits);
    let amprot = (rot * pow2(amplifier)) % pow2(opbits);
    let mixed = bit_xor(state, shift_right(state, xshift));
    rotate_right(wrap(shift_right(mixed, bottomspare), x), amprot, x)
}

/// Double xor-shift and multiply, from a state of `w` bits to an output of `x`
/// bits.
pub open spec fn dxsm(state: nat, multiplier: nat, w: nat, x: nat) -> nat {
    let hi = wrap(shift_right(state, (w - x) as nat), x);
    let low = bit_or(wrap(state, x), 1);
    let hi = bit_xor(hi, shift_right(hi, x / 2));
    let hi = wrap(hi * wrap(multiplier, x), x);
    let hi = bit_xor(hi, shift_right(hi, 3 * x / 4));
    wrap(hi * low, x)
}

/// The top `opbits` bits of a word of `w` bits are a value below `2^opbits`.
proof fn lemma_top_bits(state: nat, w: nat, opbits: nat)
    requires
        state < pow2(w),
        opbits <= w,
    ensures
        shift_right(state, (w - opbits) as nat) < pow2(opbits),
{
    let low: nat = (w - opbits) as nat;
    lemma_pow2_pos(low);
    lemma_pow2_adds(low, opbits);
    assert(pow2(w) == pow2(low) * pow2(opbits));
    assert(pow2(low) * pow2(opbits) == pow2(opbits) * pow2(low)) by (nonlinear_arith);
    lemma_multiply_divide_lt(state as int, pow2(low) as int, pow2(opbits) as int);
}

/// The top `opbits` bits of `state`, for `opbits` from 1 to 7: shifted down,
/// converted, and masked.
fn top_bits<Itype: PcgOps + AsUsize>(state: Itype, opbits: usize, mask: usize) -> (r: usize)
    requires
        0 < opbits <= 7,
        mask == pow2(opbits as nat) - 1,
    ensures
        r == shift_right(state.val(), (Itype::BITS - opbits) as nat) % pow2(opbits as nat),
        r < pow2(opbits as nat),
        r <= mask,
{
    proof {
        state.lemma_range();
        Itype::lemma_bits();
    }
    let top: usize = state.shr(Itype::BITS - opbits).as_usize();
    proof {
        let t: nat = shift_right(state.val(), (Itype::BITS - opbits) as nat);
        lemma_top_bits(state.val(), Itype::BITS as nat, opbits as nat);
        lemma2_to64();
        lemma_pow2_strictly_increases(opbits as nat, 32);
        assert(pow2(32) <= pow2(usize::BITS as nat)) by {
            if usize::BITS != 32 {
                lemma_pow2_strictly_increases(32, usize::BITS as nat);
            }
        }
        lemma_small_mod(t, pow2(usize::BITS as nat));
        assert(top == t);
        lemma_usize_low_bits_mask_is_mod(top, opbits as nat);
        lemma_small_mod(t, pow2(opbits as nat));
    }
    top & mask
}

/// This output uses an Xor-shift followed by a right shift
pub struct XshRsMixin;

impl<Itype, Xtype> OutputMixin<Itype, Xtype> for XshRsMixin where
    Itype: PcgOps + AsUsize + AsSmaller<Xtype>,
    Xtype: PcgOps,
 {
    const SERIALIZER_ID: &'static str = "XshRs";

    open spec fn spec_serializer_id() -> Seq<char> {
        "XshRs"@
    }

    proof fn lemma_serializer_id() {
    }

    open spec fn spec_output(state: nat, increment: nat, multiplier: nat) -> nat {
        xsh_rs(state, Itype::BITS as nat, Xtype::BITS as nat)
    }

    #[inline(always)]
    fn output(state: Itype, _increment: Itype, _multiplier: Itype) -> (r: Xtype) {
        proof {
            state.lemma_range();
            Itype::lemma_bits();
            Xtype::lemma_bits();
            Itype::lemma_narrower();
            lemma2_to64();
        }
        let sparebits: usize = Itype::BITS - Xtype::BITS;

        let opbits: usize = if sparebits >= 69 {
            5
        } else if sparebits >= 36 {
            4
        } else if sparebits >= 19 {
            3
        } else if sparebits >= 6 {
            2
        } else if sparebits > 1 {
            1
        } else {
            0
        };
        let mask: usize = low_mask(opbits);
        let maxrandshift: usize = mask;
        let topspare: usize = opbits;
        let bottomspare: usize = sparebits - topspare;
        let xshift: usize = topspare + (Xtype::BITS + maxrandshift) / 2;

        let rshift: usize = if opbits != 0 {
            top_bits(state, opbits, mask)
        } else {
            proof {
                lemma_top_bits(state.val(), Itype::BITS as nat, 0);
            }
            0
        };

        let mixed: Itype = state.xor(state.shr(xshift));
        mixed.shr(bottomspare - maxrandshift + rshift).shrink()
    }
}

/// This output uses an xor-shift followed by a random rotation.
pub struct XshRrMixin;

impl<Itype, Xtype> OutputMixin<Itype, Xtype> for XshRrMixin where
    Itype: PcgOps + AsUsize + AsSmaller<Xtype>,
    Xtype: PcgOps,
 {
    const SERIALIZER_ID: &'static str = "XshRr";

    open spec fn spec_serializer_id() -> Seq<char> {
        "XshRr"@
    }

    proof fn lemma_serializer_id() {
    }

    open spec fn spec_output(state: nat, increment: nat, multiplier: nat) -> nat {
        xsh_rr(state, Itype::BITS as nat, Xtype::BITS as nat)
    }

    #[inline(always)]
    fn output(state: Itype, _increment: Itype, _multiplier: Itype) -> (r: Xtype) {
        proof {
            state.lemma_range();
            Itype::lemma_bits();
            Xtype::lemma_bits();
            Itype::lemma_narrower();
            lemma2_to64();
        }
        let sparebits: usize = Itype::BITS - Xtype::BITS;
        let xtypebits: usize = Xtype::BITS;
        let wantedopbits: usize = if xtypebits >= 128 {
            7
        } else if xtypebits >= 64 {
            6
        } else if xtypebits >= 32 {
            5
        } else if xtypebits >= 16 {
            4
        } else {
            3
        };

        let opbits: usize = if sparebits >= wantedopbits {
            wantedopbits
        } else {
            sparebits
        };

        let amplifier: usize = wantedopbits - opbits;
        let mask: usize = low_mask(opbits);
        let topspare: usize = opbits;
        let bottomspare: usize = sparebits - topspare;
        let xshift: usize = (topspare + xtypebits) / 2;

        let rot: usize = if opbits != 0 {
            top_bits(state, opbits, mask)
        } else {
            proof {
                lemma_top_bits(state.val(), Itype::BITS as nat, 0);
            }
            0
        };

        proof {
            // rot << amplifier stays below 2^14
            lemma_pow2_adds(opbits as nat, amplifier as nat);
            assert(rot * pow2(amplifier as nat) < pow2(opbits as nat) * pow2(amplifier as nat))
                by (nonlinear_arith)
                requires
                    rot < pow2(opbits as nat),
                    0 < pow2(amplifier as nat),
            {
            }
            lemma_usize_shl_is_mul(rot, amplifier);
            lemma_usize_low_bits_mask_is_mod((rot << amplifier), opbits as nat);
            lemma_mod_bound((rot << amplifier) as int, pow2(opbits as nat) as int);
        }
        let amprot: usize = (rot << amplifier) & mask;
        let mixed: Itype = state.xor(state.shr(xshift));

        let result: Xtype = mixed.shr(bottomspare).shrink();
        proof {
            lemma_small_mod(amprot as nat, Xtype::BITS as nat);
        }
        result.rotr(amprot as u32)
    }
}

/// The Double Xor-shift multiply output
/// This is a newer output which is meant to be more powerful.
pub struct DXsMMixin;

impl<Itype, Xtype> OutputMixin<Itype, Xtype> for DXsMMixin where
    Itype: PcgOps + AsSmaller<Xtype>,
    Xtype: PcgOps,
 {
    const SERIALIZER_ID: &'static str = "DXsM";

    open spec fn spec_serializer_id() -> Seq<char> {
        "DXsM"@
    }

    proof fn lemma_serializer_id() {
    }

    open spec fn spec_output(state: nat, increment: nat, multiplier: nat) -> nat {
        dxsm(state, multiplier, Itype::BITS as nat, Xtype::BITS as nat)
    }

    #[inline(always)]
    fn output(state: Itype, _increment: Itype, multiplier: Itype) -> (r: Xtype) {
        proof {
            state.lemma_range();
            Itype::lemma_bits();
            Xtype::lemma_bits();
            Itype::lemma_narrower();
        }
        let hi: Xtype = state.shr(Itype::BITS - Xtype::BITS).shrink();
        let low: Xtype = state.shrink();

        let low: Xtype = low.or(Xtype::one());
        let hi: Xtype = hi.xor(hi.shr(Xtype::BITS / 2));

        let hi: Xtype = hi.wrap_mul(multiplier.shrink());

        let hi: Xtype = hi.xor(hi.shr(3 * Xtype::BITS / 4));

        hi.wrap_mul(low)
    }
}

} // verus!
