//! The period of the recurrence. With a multiplier that is one more than a
//! multiple of four and an odd increment, the recurrence on words of `bits`
//! bits visits every one of the `2^bits` states before it comes back to where
//! it began, and so do its low `k` bits for every `k`: they take each of their
//! `2^k` values once in every `2^k` steps.
use crate::lcg::{
    geometric_sum, lcg_step, lcg_steps, lemma_full_cycle, lemma_jump_is_steps, lemma_power_adds,
    lemma_states_stay_apart, lemma_steps_add, lemma_wrap_mul_add, power,
};
use crate::numops::wrap;
use vstd::arithmetic::div_mod::{
    lemma_add_mod_noop, lemma_fundamental_div_mod, lemma_mod_bound, lemma_mod_equivalence,
    lemma_mod_mod, lemma_mod_multiples_vanish, lemma_small_mod, lemma_truncate_middle,
};
use vstd::arithmetic::power2::{
    lemma2_to64, lemma_pow2_adds, lemma_pow2_pos, lemma_pow2_unfold, pow2,
};
use vstd::prelude::*;
use vstd::relations::injective_on;
use vstd::set_lib::{lemma_int_range, lemma_map_size, lemma_subset_equality, set_int_range};

verus! {

/// A number that is one more than a multiple of four, raised to `2^j`, is one
/// more than a multiple of `2^(j+2)`, and the geometric sum of `2^j` of its
/// powers is `2^j` more than a multiple of `2^(j+1)`.
proof fn lemma_power_of_two_steps(m: nat, j: nat)
    requires
        m % 4 == 1,
    ensures
        power(m, pow2(j)) % pow2(j + 2) == 1,
        geometric_sum(m, pow2(j)) % pow2(j + 1) == pow2(j),
    decreases j,
{
    lemma2_to64();
    lemma_pow2_pos(j);
    lemma_pow2_unfold(j + 1);
    lemma_pow2_unfold(j + 2);
    if j == 0 {
        assert(power(m, 1) == m) by {
            assert(power(m, 0) == 1);
            assert(m * 1 == m);
        }
        assert(geometric_sum(m, 1) == 1) by {
            assert(geometric_sum(m, 0) == 0);
            assert(m * 0 + 1 == 1);
        }
    } else {
        let i: nat = (j - 1) as nat;
        lemma_power_of_two_steps(m, i);
        lemma_pow2_pos(i);
        lemma_pow2_unfold(j);
        let h: nat = pow2(i);
        assert(pow2(j) == 2 * h);
        assert(pow2(j + 1) == 4 * h);
        assert(pow2(j + 2) == 8 * h);
        lemma_power_adds(m, h, h);
        let y: nat = power(m, h);
        let g: nat = geometric_sum(m, h);
        assert(power(m, 2 * h) == y * y);
        assert(geometric_sum(m, 2 * h) == y * g + g);
        // y = 1 + 4 h t, g = h + 2 h v
        let t: int = y as int / (4 * h) as int;
        lemma_fundamental_div_mod(y as int, (4 * h) as int);
        assert(y == (4 * h) * t + 1);
        let v: int = g as int / (2 * h) as int;
        lemma_fundamental_div_mod(g as int, (2 * h) as int);
        assert(g == (2 * h) * v + h);
        assert(y * y == (8 * h) * (t + 2 * h * t * t) + 1) by (nonlinear_arith)
            requires
                y == (4 * h) * t + 1,
        ;
        lemma_mod_multiples_vanish(t + 2 * h * t * t, 1, (8 * h) as int);
        lemma_small_mod(1, 8 * h);
        assert(y * g + g == (4 * h) * (h * t + v + 2 * h * t * v) + 2 * h) by (nonlinear_arith)
            requires
                y == (4 * h) * t + 1,
                g == (2 * h) * v + h,
        ;
        lemma_mod_multiples_vanish(h * t + v + 2 * h * t * v, (2 * h) as int, (4 * h) as int);
        lemma_small_mod(2 * h, 4 * h);
    }
}

/// After half of the `2^k` steps the state has moved by `2^(k-1)`: its top bit
/// has changed and nothing else.
proof fn lemma_half_period(s: nat, m: nat, c: nat, k: nat)
    requires
        m % 4 == 1,
        c % 2 == 1,
        k >= 1,
        s < pow2(k),
    ensures
        lcg_steps(s, m, c, k, pow2((k - 1) as nat)) == (s + pow2((k - 1) as nat)) % pow2(k),
        lcg_steps(s, m, c, k, pow2((k - 1) as nat)) != s,
{
    let j: nat = (k - 1) as nat;
    let h: nat = pow2(j);
    let p: nat = pow2(k);
    lemma_pow2_pos(j);
    lemma_pow2_unfold(k);
    lemma_pow2_unfold(k + 1);
    assert(p == 2 * h);
    assert(pow2(j + 2) == 2 * p);
    lemma_power_of_two_steps(m, j);
    lemma_jump_is_steps(s, m, c, k, h);
    let y: nat = power(m, h);
    let g: nat = geometric_sum(m, h);
    let t: int = y as int / (2 * p) as int;
    lemma_fundamental_div_mod(y as int, (2 * p) as int);
    assert(y == (2 * p) * t + 1);
    let v: int = g as int / p as int;
    lemma_fundamental_div_mod(g as int, p as int);
    assert(g == p * v + h);
    let u: int = c as int / 2;
    assert(c == 2 * u + 1);
    assert(y * s + c * g == p * (2 * t * s + v + u * (2 * v + 1)) + (s + h)) by (nonlinear_arith)
        requires
            y == (2 * p) * t + 1,
            g == p * v + h,
            c == 2 * u + 1,
            p == 2 * h,
    ;
    lemma_mod_multiples_vanish(2 * t * s + v + u * (2 * v + 1), (s + h) as int, p as int);
    if s < h {
        lemma_small_mod(s + h, p);
    } else {
        lemma_small_mod((s - h) as nat, p);
        lemma_mod_multiples_vanish(1, s - h, p as int);
    }
}

/// The low `k` bits of the state step on their own: they form the same
/// recurrence on words of `k` bits.
pub proof fn lemma_low_bits_step_alone(s: nat, m: nat, c: nat, bits: nat, k: nat, n: nat)
    requires
        k <= bits,
    ensures
        wrap(lcg_steps(s, m, c, bits, n), k) == lcg_steps(wrap(s, k), m, c, k, n),
    decreases n,
{
    lemma_pow2_pos(k);
    lemma_pow2_pos((bits - k) as nat);
    lemma_pow2_adds(k, (bits - k) as nat);
    if n == 0 {
        assert(lcg_steps(s, m, c, bits, 0) == s);
        assert(lcg_steps(wrap(s, k), m, c, k, 0) == wrap(s, k));
    } else {
        let n1: nat = (n - 1) as nat;
        lemma_low_bits_step_alone(s, m, c, bits, k, n1);
        let wide: nat = lcg_steps(s, m, c, bits, n1);
        let x: nat = wide * m + c;
        // reducing to `bits` bits and then to `k` bits is reducing to `k` bits
        lemma_mod_mod(x as int, pow2(k) as int, pow2((bits - k) as nat) as int);
        assert(wrap(lcg_step(wide, m, c, bits), k) == wrap(x, k));
        // and the step only sees the low bits of the state that it leaves
        lemma_wrap_mul_add(wide, m, c, k);
        assert(wrap(x, k) == lcg_step(wrap(wide, k), m, c, k));
    }
}

/// The recurrence does not come back to a state before it has taken `2^k`
/// steps.
pub proof fn lemma_no_early_return(s: nat, m: nat, c: nat, k: nat, n: nat)
    requires
        m % 4 == 1,
        c % 2 == 1,
        s < pow2(k),
        0 < n < pow2(k),
    ensures
        lcg_steps(s, m, c, k, n) != s,
    decreases k,
{
    lemma2_to64();
    if k > 0 {
        let j: nat = (k - 1) as nat;
        let h: nat = pow2(j);
        lemma_pow2_pos(j);
        lemma_pow2_unfold(k);
        let low: nat = wrap(s, j);
        lemma_mod_bound(s as int, h as int);
        if lcg_steps(s, m, c, k, n) == s {
            lemma_low_bits_step_alone(s, m, c, k, j, n);
            assert(lcg_steps(low, m, c, j, n) == low);
            if n < h {
                lemma_no_early_return(low, m, c, j, n);
            } else if n == h {
                lemma_half_period(s, m, c, k);
            } else {
                let more: nat = (n - h) as nat;
                lemma_steps_add(low, m, c, j, h, more);
                lemma_full_cycle(low, m, c, j);
                lemma_no_early_return(low, m, c, j, more);
            }
        }
    }
}

/// Within `2^k` steps the recurrence is in no state twice.
pub proof fn lemma_states_differ(s: nat, m: nat, c: nat, k: nat, i: nat, j: nat)
    requires
        m % 4 == 1,
        c % 2 == 1,
        s < pow2(k),
        i < j < pow2(k),
    ensures
        lcg_steps(s, m, c, k, i) != lcg_steps(s, m, c, k, j),
{
    let gap: nat = (j - i) as nat;
    let t: nat = lcg_steps(s, m, c, k, gap);
    lemma_no_early_return(s, m, c, k, gap);
    lemma_jump_is_steps(s, m, c, k, gap);
    lemma_states_stay_apart(s, t, m, c, k, i);
    lemma_steps_add(s, m, c, k, gap, i);
}

/// Within `2^k` steps the recurrence is in every state: there is a number of
/// steps below `2^k` after which it is in the state `p`.
pub proof fn lemma_every_state_is_met(s: nat, m: nat, c: nat, k: nat, p: nat) -> (n: nat)
    requires
        m % 4 == 1,
        c % 2 == 1,
        s < pow2(k),
        p < pow2(k),
    ensures
        n < pow2(k),
        lcg_steps(s, m, c, k, n) == p,
{
    let size: int = pow2(k) as int;
    lemma_pow2_pos(k);
    let steps = set_int_range(0, size);
    let state_after = |i: int| lcg_steps(s, m, c, k, i as nat) as int;
    let met = steps.map(state_after);
    lemma_int_range(0, size);
    assert(injective_on(state_after, steps)) by {
        assert forall|a: int, b: int|
            steps.contains(a) && steps.contains(b) && #[trigger] state_after(a)
                == #[trigger] state_after(b) implies a == b by {
            if a < b {
                lemma_states_differ(s, m, c, k, a as nat, b as nat);
            } else if b < a {
                lemma_states_differ(s, m, c, k, b as nat, a as nat);
            }
        }
    }
    lemma_map_size(steps, met, state_after);
    assert(met.subset_of(steps)) by {
        assert forall|x: int| met.contains(x) implies steps.contains(x) by {
            let i = choose|i: int| steps.contains(i) && state_after(i) == x;
            lemma_jump_is_steps(s, m, c, k, i as nat);
        }
    }
    lemma_subset_equality(met, steps);
    assert(met.contains(p as int));
    let i = choose|i: int| steps.contains(i) && state_after(i) == p as int;
    i as nat
}

/// How often, in the first `n` steps from `s`, the recurrence on words of
/// `bits` bits steps to a state whose low `k` bits are `p`.
pub open spec fn visits(s: nat, m: nat, c: nat, bits: nat, k: nat, p: nat, n: nat) -> nat
    decreases n,
{
    if n == 0 {
        0
    } else {
        visits(s, m, c, bits, k, p, (n - 1) as nat) + if wrap(lcg_steps(s, m, c, bits, n), k)
            == p {
            1nat
        } else {
            0nat
        }
    }
}

/// The visits of `a` steps and of `b` more steps add up.
pub proof fn lemma_visits_add(s: nat, m: nat, c: nat, bits: nat, k: nat, p: nat, a: nat, b: nat)
    ensures
        visits(s, m, c, bits, k, p, a + b) == visits(s, m, c, bits, k, p, a) + visits(
            lcg_steps(s, m, c, bits, a),
            m,
            c,
            bits,
            k,
            p,
            b,
        ),
    decreases b,
{
    if b > 0 {
        let b1: nat = (b - 1) as nat;
        lemma_visits_add(s, m, c, bits, k, p, a, b1);
        lemma_steps_add(s, m, c, bits, a, b);
        assert((a + b - 1) as nat == a + b1);
    }
}

/// In the first `n` steps, where `n` is at most `2^k`, the low `k` bits are
/// `p` once if they are `p` after one of these steps, and never if not.
proof fn lemma_visits_in_a_round(s: nat, m: nat, c: nat, bits: nat, k: nat, p: nat, n: nat)
    requires
        m % 4 == 1,
        c % 2 == 1,
        k <= bits,
        n <= pow2(k),
    ensures
        visits(s, m, c, bits, k, p, n) == (if exists|i: nat|
            0 < i <= n && wrap(#[trigger] lcg_steps(s, m, c, bits, i), k) == p {
            1nat
        } else {
            0nat
        }),
    decreases n,
{
    if n > 0 {
        let n1: nat = (n - 1) as nat;
        lemma_visits_in_a_round(s, m, c, bits, k, p, n1);
        let low: nat = wrap(s, k);
        lemma_pow2_pos(k);
        lemma_mod_bound(s as int, pow2(k) as int);
        let earlier: bool = exists|i: nat|
            0 < i <= n1 && wrap(#[trigger] lcg_steps(s, m, c, bits, i), k) == p;
        if wrap(lcg_steps(s, m, c, bits, n), k) == p {
            if earlier {
                let i: nat = choose|i: nat|
                    0 < i <= n1 && wrap(#[trigger] lcg_steps(s, m, c, bits, i), k) == p;
                lemma_low_bits_step_alone(s, m, c, bits, k, i);
                lemma_low_bits_step_alone(s, m, c, bits, k, n);
                if n == pow2(k) {
                    // the round ends where it began, and it was not there before
                    lemma_full_cycle(low, m, c, k);
                    lemma_no_early_return(low, m, c, k, i);
                } else {
                    lemma_states_differ(low, m, c, k, i, n);
                }
            }
        } else {
            assert forall|i: nat|
                0 < i <= n && wrap(#[trigger] lcg_steps(s, m, c, bits, i), k) == p implies 0 < i
                <= n1 by {}
        }
    }
}

/// In `2^k` steps the low `k` bits of the state are `p` exactly once.
pub proof fn lemma_one_visit_in_a_round(s: nat, m: nat, c: nat, bits: nat, k: nat, p: nat)
    requires
        m % 4 == 1,
        c % 2 == 1,
        k <= bits,
        p < pow2(k),
    ensures
        visits(s, m, c, bits, k, p, pow2(k)) == 1,
{
    let size: nat = pow2(k);
    let low: nat = wrap(s, k);
    lemma_pow2_pos(k);
    lemma_mod_bound(s as int, size as int);
    lemma_visits_in_a_round(s, m, c, bits, k, p, size);
    let n: nat = lemma_every_state_is_met(low, m, c, k, p);
    // the state `p` is met after `n` steps, or after the whole round if `n` is zero
    let i: nat = if n == 0 {
        size
    } else {
        n
    };
    if n == 0 {
        assert(lcg_steps(low, m, c, k, 0) == low);
        lemma_full_cycle(low, m, c, k);
    }
    lemma_low_bits_step_alone(s, m, c, bits, k, i);
    assert(0 < i <= size && wrap(lcg_steps(s, m, c, bits, i), k) == p);
}

/// Equal shares: in `rounds` times `2^k` steps, the low `k` bits of the state
/// are `p` exactly `rounds` times, for every `p` below `2^k`.
pub proof fn lemma_equal_shares(s: nat, m: nat, c: nat, bits: nat, k: nat, p: nat, rounds: nat)
    requires
        m % 4 == 1,
        c % 2 == 1,
        k <= bits,
        p < pow2(k),
    ensures
        visits(s, m, c, bits, k, p, rounds * pow2(k)) == rounds,
    decreases rounds,
{
    let size: nat = pow2(k);
    if rounds == 0 {
        assert(0 * size == 0);
    } else {
        let before: nat = (rounds - 1) as nat;
        lemma_equal_shares(s, m, c, bits, k, p, before);
        lemma_visits_add(s, m, c, bits, k, p, before * size, size);
        lemma_one_visit_in_a_round(lcg_steps(s, m, c, bits, before * size), m, c, bits, k, p);
        assert(before * size + size == rounds * size) by (nonlinear_arith)
            requires
                before + 1 == rounds,
        ;
    }
}

/// Two states that are `d` apart are `d` times the `n`-th power of the
/// multiplier apart after `n` steps with the same increment.
pub proof fn lemma_states_apart_by_power(s: nat, d: nat, m: nat, c: nat, bits: nat, n: nat)
    requires
        s + d < pow2(bits),
    ensures
        lcg_steps(s + d, m, c, bits, n) == wrap(
            lcg_steps(s, m, c, bits, n) + d * power(m, n),
            bits,
        ),
{
    let p: int = pow2(bits) as int;
    lemma_pow2_pos(bits);
    let pw: nat = power(m, n);
    let g: nat = geometric_sum(m, n);
    lemma_jump_is_steps(s, m, c, bits, n);
    lemma_jump_is_steps(s + d, m, c, bits, n);
    let x: nat = pw * s + c * g;
    assert(pw * (s + d) + c * g == x + d * pw) by (nonlinear_arith)
        requires
            x == pw * s + c * g,
    ;
    lemma_add_mod_noop(x as int, (d * pw) as int, p);
    lemma_add_mod_noop((x % (p as nat)) as int, (d * pw) as int, p);
    lemma_small_mod(x % (p as nat), p as nat);
}

/// From one state, two increments that are two apart lead to states that
/// differ after every number of steps up to half the period.
pub proof fn lemma_increments_two_apart(s: nat, m: nat, c: nat, bits: nat, n: nat)
    requires
        m % 4 == 1,
        bits >= 1,
        s < pow2(bits),
        0 < n < pow2((bits - 1) as nat),
    ensures
        lcg_steps(s, m, c, bits, n) != lcg_steps(s, m, c + 2, bits, n),
{
    let half: nat = (bits - 1) as nat;
    let h: int = pow2(half) as int;
    let p: int = pow2(bits) as int;
    lemma_pow2_pos(half);
    lemma_pow2_unfold(bits);
    assert(p == 2 * h);
    let pw: nat = power(m, n);
    let g: nat = geometric_sum(m, n);
    lemma_jump_is_steps(s, m, c, bits, n);
    lemma_jump_is_steps(s, m, c + 2, bits, n);
    let x: nat = pw * s + c * g;
    assert(pw * s + (c + 2) * g == x + 2 * g) by (nonlinear_arith)
        requires
            x == pw * s + c * g,
    ;
    if lcg_steps(s, m, c, bits, n) == lcg_steps(s, m, c + 2, bits, n) {
        // then twice the geometric sum is a multiple of `2^bits`, and the sum
        // itself one of half of that
        lemma_mod_equivalence((x + 2 * g) as int, x as int, p);
        lemma_truncate_middle(g as int, 2, h);
        assert(g % (h as nat) == 0);
        // but the sum is where the recurrence of one bit less, with the
        // increment one, is after `n` steps from zero
        lemma_jump_is_steps(0, m, 1, half, n);
        assert(pw * 0 + 1 * g == g) by (nonlinear_arith);
        lemma_no_early_return(0, m, 1, half, n);
    }
}

} // verus!
