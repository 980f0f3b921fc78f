//! The arithmetic of a linear congruential generator on words of `bits` bits.
//!
//! One step takes a state `s` to `(s * m + c) mod 2^bits`. This module defines
//! the step, its iteration, and the closed form of `n` steps, and proves what
//! the generators build on: that the closed form is the iteration, that steps
//! compose, that a step with an odd multiplier loses no state, and that the
//! state returns to where it began after `2^bits` steps.
use crate::numops::wrap;
use vstd::arithmetic::div_mod::{
    lemma_add_mod_noop, lemma_fundamental_div_mod, lemma_mod_equivalence,
    lemma_mod_multiples_basic,
    lemma_mod_multiples_vanish, lemma_mul_mod_noop_general, lemma_small_mod,
};
use vstd::arithmetic::power2::{lemma2_to64, lemma_pow2_pos, lemma_pow2_unfold, pow2};
use vstd::prelude::*;

verus! {

/// One step of the recurrence: `(s * m + c) mod 2^bits`.
pub open spec fn lcg_step(s: nat, m: nat, c: nat, bits: nat) -> nat {
    wrap(s * m + c, bits)
}

/// The state after `n` steps from `s`.
pub open spec fn lcg_steps(s: nat, m: nat, c: nat, bits: nat, n: nat) -> nat
    decreases n,
{
    if n == 0 {
        s
    } else {
        lcg_step(lcg_steps(s, m, c, bits, (n - 1) as nat), m, c, bits)
    }
}

/// `m^n`.
pub open spec fn power(m: nat, n: nat) -> nat
    decreases n,
{
    if n == 0 {
        1
    } else {
        m * power(m, (n - 1) as nat)
    }
}

/// `1 + m + m^2 + ... + m^(n-1)`, which is `(m^n - 1) / (m - 1)` where `m > 1`.
pub open spec fn geometric_sum(m: nat, n: nat) -> nat
    decreases n,
{
    if n == 0 {
        0
    } else {
        m * geometric_sum(m, (n - 1) as nat) + 1
    }
}

/// The multiplier of the affine map that `n` steps amount to: `m^n mod 2^bits`.
pub open spec fn jump_mult(m: nat, bits: nat, n: nat) -> nat {
    wrap(power(m, n), bits)
}

/// The increment of the affine map that `n` steps amount to:
/// `c * (1 + m + ... + m^(n-1)) mod 2^bits`.
pub open spec fn jump_plus(m: nat, c: nat, bits: nat, n: nat) -> nat {
    wrap(c * geometric_sum(m, n), bits)
}

/// The closed form of `n` steps from `s`.
pub open spec fn lcg_jump(s: nat, m: nat, c: nat, bits: nat, n: nat) -> nat {
    wrap(jump_mult(m, bits, n) * s + jump_plus(m, c, bits, n), bits)
}

/// `wrap(wrap(a) * wrap(b) + wrap(c)) == wrap(a * b + c)`: reducing the operands
/// of a multiply-and-add first changes nothing.
pub proof fn lemma_wrap_mul_add(a: nat, b: nat, c: nat, bits: nat)
    ensures
        wrap(wrap(a, bits) * wrap(b, bits) + wrap(c, bits), bits) == wrap(a * b + c, bits),
        wrap(wrap(a, bits) * b + wrap(c, bits), bits) == wrap(a * b + c, bits),
        wrap(wrap(a, bits) * b + c, bits) == wrap(a * b + c, bits),
        wrap(wrap(wrap(a, bits) * wrap(b, bits), bits) + wrap(c, bits), bits) == wrap(
            a * b + c,
            bits,
        ),
        wrap(wrap(a, bits) * wrap(b, bits), bits) == wrap(a * b, bits),
{
    let p: int = pow2(bits) as int;
    lemma_pow2_pos(bits);
    let a: int = a as int;
    let b: int = b as int;
    let c: int = c as int;
    lemma_mul_mod_noop_general(a, b, p);
    assert(((a % p) * (b % p)) % p == (a * b) % p);
    assert(((a % p) * b) % p == (a * b) % p);
    lemma_add_mod_noop((a % p) * (b % p), c % p, p);
    lemma_add_mod_noop((a % p) * b, c % p, p);
    lemma_add_mod_noop((a % p) * b, c, p);
    lemma_add_mod_noop(a * b, c, p);
    lemma_add_mod_noop(a * b, c % p, p);
    lemma_add_mod_noop(((a % p) * (b % p)) % p, c % p, p);
    assert((c % p) % p == c % p) by {
        lemma_small_mod((c % p) as nat, p as nat);
    }
    assert(0 <= (a % p) * (b % p)) by (nonlinear_arith)
        requires
            0 <= a % p,
            0 <= b % p,
    ;
    assert(0 <= (a % p) * b) by (nonlinear_arith)
        requires
            0 <= a % p,
            0 <= b,
    ;
    assert(0 <= a * b) by (nonlinear_arith)
        requires
            0 <= a,
            0 <= b,
    ;
}

/// One step as the generators compute it: the product is reduced first, then
/// the sum.
pub proof fn lemma_step_wraps(s: nat, m: nat, c: nat, bits: nat)
    ensures
        wrap(c + wrap(s * m, bits), bits) == lcg_step(s, m, c, bits),
        lcg_step(s, m, c, bits) < pow2(bits),
{
    let p: int = pow2(bits) as int;
    lemma_pow2_pos(bits);
    let x: int = (s * m) as int;
    let r: int = x % p;
    lemma_add_mod_noop(x, c as int, p);
    lemma_add_mod_noop(r, c as int, p);
    lemma_small_mod(r as nat, p as nat);
    assert((r + c) % p == (x + c) % p);
    assert(c + r == r + c);
}

/// The affine maps of no step and of one step.
pub proof fn lemma_jump_base(m: nat, c: nat, bits: nat)
    requires
        bits > 0,
        m < pow2(bits),
        c < pow2(bits),
    ensures
        jump_mult(m, bits, 0) == 1,
        jump_plus(m, c, bits, 0) == 0,
        jump_mult(m, bits, 1) == m,
        jump_plus(m, c, bits, 1) == c,
{
    lemma_pow2_pos(bits);
    lemma_pow2_unfold(bits);
    lemma_pow2_pos((bits - 1) as nat);
    assert(power(m, 0) == 1);
    assert(power(m, 1) == m) by {
        assert(m * 1 == m);
    }
    assert(geometric_sum(m, 0) == 0);
    assert(geometric_sum(m, 1) == 1) by {
        assert(m * 0 + 1 == 1);
    }
    assert(c * 0 == 0);
    assert(c * 1 == c);
    lemma_small_mod(1, pow2(bits));
    lemma_small_mod(0, pow2(bits));
    lemma_small_mod(m, pow2(bits));
    lemma_small_mod(c, pow2(bits));
}

/// Powers and geometric sums of a sum of exponents.
pub proof fn lemma_power_adds(m: nat, a: nat, b: nat)
    ensures
        power(m, a + b) == power(m, a) * power(m, b),
        geometric_sum(m, a + b) == power(m, a) * geometric_sum(m, b) + geometric_sum(m, a),
    decreases a,
{
    if a == 0 {
        assert(power(m, 0) == 1);
        assert(geometric_sum(m, 0) == 0);
        assert(a + b == b);
        assert(1 * power(m, b) == power(m, b));
        assert(1 * geometric_sum(m, b) == geometric_sum(m, b));
    } else {
        let a1: nat = (a - 1) as nat;
        lemma_power_adds(m, a1, b);
        assert((a + b - 1) as nat == a1 + b);
        let pa: nat = power(m, a1);
        let pb: nat = power(m, b);
        let ga: nat = geometric_sum(m, a1);
        let gb: nat = geometric_sum(m, b);
        assert(power(m, a + b) == m * (pa * pb));
        assert(power(m, a) == m * pa);
        assert(m * (pa * pb) == (m * pa) * pb) by (nonlinear_arith);
        assert(geometric_sum(m, a + b) == m * (pa * gb + ga) + 1);
        assert(geometric_sum(m, a) == m * ga + 1);
        assert(m * (pa * gb + ga) + 1 == (m * pa) * gb + (m * ga + 1)) by (nonlinear_arith);
    }
}

/// The closed form is the iteration: `n` steps from `s` give
/// `(m^n * s + c * (1 + m + ... + m^(n-1))) mod 2^bits`.
pub proof fn lemma_jump_is_steps(s: nat, m: nat, c: nat, bits: nat, n: nat)
    requires
        s < pow2(bits),
    ensures
        lcg_jump(s, m, c, bits, n) == lcg_steps(s, m, c, bits, n),
        lcg_steps(s, m, c, bits, n) == wrap(power(m, n) * s + c * geometric_sum(m, n), bits),
        lcg_steps(s, m, c, bits, n) < pow2(bits),
    decreases n,
{
    lemma_pow2_pos(bits);
    let pn: nat = power(m, n);
    let gn: nat = geometric_sum(m, n);
    lemma_wrap_mul_add(pn, s, c * gn, bits);
    if n == 0 {
        assert(1 * s + c * 0 == s) by (nonlinear_arith);
        lemma_small_mod(s, pow2(bits));
    } else {
        let n1: nat = (n - 1) as nat;
        lemma_jump_is_steps(s, m, c, bits, n1);
        let pw: nat = power(m, n1);
        let gs: nat = geometric_sum(m, n1);
        let x: nat = pw * s + c * gs;
        assert(lcg_steps(s, m, c, bits, n1) == wrap(x, bits));
        assert(lcg_steps(s, m, c, bits, n) == wrap(wrap(x, bits) * m + c, bits));
        lemma_wrap_mul_add(x, m, c, bits);
        assert(x * m + c == (m * pw) * s + c * (m * gs + 1)) by (nonlinear_arith)
            requires
                x == pw * s + c * gs,
        ;
    }
}

/// Steps compose: `b` steps after `a` steps are `a + b` steps.
pub proof fn lemma_steps_add(s: nat, m: nat, c: nat, bits: nat, a: nat, b: nat)
    ensures
        lcg_steps(lcg_steps(s, m, c, bits, a), m, c, bits, b) == lcg_steps(s, m, c, bits, a + b),
    decreases b,
{
    if b > 0 {
        lemma_steps_add(s, m, c, bits, a, (b - 1) as nat);
        assert((a + b - 1) as nat == a + (b - 1) as nat);
    }
}

/// Folding one affine map into another, as the jump-ahead loop does: where
/// `(am, ap)` stands for `a` steps and `(bm, bp)` for `b` steps, the map
/// `(bm * am, bm * ap + bp)` stands for `a + b` steps.
pub proof fn lemma_jump_fold(m: nat, c: nat, bits: nat, a: nat, b: nat)
    ensures
        wrap(jump_mult(m, bits, b) * jump_mult(m, bits, a), bits) == jump_mult(m, bits, a + b),
        wrap(
            wrap(jump_mult(m, bits, b) * jump_plus(m, c, bits, a), bits) + jump_plus(
                m,
                c,
                bits,
                b,
            ),
            bits,
        ) == jump_plus(m, c, bits, a + b),
{
    let pa: nat = power(m, a);
    let pb: nat = power(m, b);
    let ga: nat = geometric_sum(m, a);
    let gb: nat = geometric_sum(m, b);
    lemma_power_adds(m, b, a);
    assert(b + a == a + b);
    lemma_wrap_mul_add(pb, pa, 0, bits);
    lemma_wrap_mul_add(pb, c * ga, c * gb, bits);
    assert(pb * (c * ga) + c * gb == c * (pb * ga + gb)) by (nonlinear_arith);
}

/// An odd number raised to `2^k` is one more than a multiple of `2^(k+1)`, and
/// the geometric sum of `2^k` of its powers is a multiple of `2^k`.
proof fn lemma_odd_power_of_two(m: nat, k: nat)
    requires
        m % 2 == 1,
    ensures
        power(m, pow2(k)) % pow2(k + 1) == 1,
        geometric_sum(m, pow2(k)) % pow2(k) == 0,
    decreases k,
{
    lemma_pow2_pos(k);
    lemma_pow2_pos(k + 1);
    lemma_pow2_unfold(k + 1);
    if k == 0 {
        assert(pow2(0) == 1) by {
            lemma2_to64();
        }
        assert(pow2(1) == 2) by {
            lemma2_to64();
        }
        assert(power(m, 1) == m) by {
            assert(power(m, 0) == 1);
            assert(m * 1 == m);
        }
        assert(geometric_sum(m, 1) == 1) by {
            assert(geometric_sum(m, 0) == 0);
            assert(m * 0 + 1 == 1);
        }
    } else {
        let k1: nat = (k - 1) as nat;
        lemma_odd_power_of_two(m, k1);
        lemma_pow2_unfold(k);
        lemma_pow2_pos(k1);
        let h: nat = pow2(k1);
        let q: nat = pow2(k);
        assert(q == 2 * h);
        assert(pow2(k + 1) == 2 * q);
        lemma_power_adds(m, h, h);
        let y: nat = power(m, h);
        let g: nat = geometric_sum(m, h);
        assert(power(m, q) == y * y);
        assert(geometric_sum(m, q) == y * g + g);
        // y = 1 + t * q
        let t: int = y as int / q as int;
        lemma_fundamental_div_mod(y as int, q as int);
        assert(y == q * t + 1);
        assert(y * y == (2 * q) * (t + t * t * h) + 1) by (nonlinear_arith)
            requires
                y == q * t + 1,
                q == 2 * h,
        ;
        lemma_mod_multiples_vanish(t + t * t * h, 1, (2 * q) as int);
        lemma_small_mod(1, 2 * q);
        // g = v * h
        let v: int = g as int / h as int;
        lemma_fundamental_div_mod(g as int, h as int);
        assert(g == h * v);
        assert(y * g + g == q * ((q * t / 2 + 1) * v)) by (nonlinear_arith)
            requires
                y == q * t + 1,
                g == h * v,
                q == 2 * h,
        {
            assert(q * t / 2 == h * t);
            assert(y * g + g == (q * t + 2) * (h * v));
            assert((q * t + 2) * (h * v) == (2 * h) * ((h * t + 1) * v));
        }
        lemma_mod_multiples_basic((q * t / 2 + 1) * v, q as int);
        assert(((q * t / 2 + 1) * v) * q == q * ((q * t / 2 + 1) * v)) by (nonlinear_arith);
    }
}

/// With an odd multiplier the state is back where it began after `2^bits`
/// steps, whatever the increment.
pub proof fn lemma_full_cycle(s: nat, m: nat, c: nat, bits: nat)
    requires
        m % 2 == 1,
        s < pow2(bits),
    ensures
        jump_mult(m, bits, pow2(bits)) == (if bits == 0 {
            0nat
        } else {
            1nat
        }),
        jump_plus(m, c, bits, pow2(bits)) == 0,
        lcg_steps(s, m, c, bits, pow2(bits)) == s,
{
    let p: nat = pow2(bits);
    lemma_pow2_pos(bits);
    lemma_pow2_unfold(bits + 1);
    lemma_odd_power_of_two(m, bits);
    let y: nat = power(m, p);
    let g: nat = geometric_sum(m, p);
    // y % (2p) == 1, so y % p == 1 % p
    let t: int = y as int / (2 * p) as int;
    lemma_fundamental_div_mod(y as int, (2 * p) as int);
    assert(y == (2 * p) * t + 1);
    assert(y == p * (2 * t) + 1) by (nonlinear_arith)
        requires
            y == (2 * p) * t + 1,
    ;
    lemma_mod_multiples_vanish(2 * t, 1, p as int);
    assert(y % p == 1nat % p);
    // c * g is a multiple of p
    let v: int = g as int / p as int;
    lemma_fundamental_div_mod(g as int, p as int);
    assert(g == p * v);
    assert(c * g == (c * v) * p) by (nonlinear_arith)
        requires
            g == p * v,
    ;
    lemma_mod_multiples_basic(c * v, p as int);
    assert(wrap(c * g, bits) == 0);
    lemma_jump_is_steps(s, m, c, bits, p);
    lemma_small_mod(s, p);
    if bits == 0 {
        assert(p == 1) by {
            lemma2_to64();
        }
        assert(s == 0);
    } else {
        assert(p >= 2) by {
            lemma_pow2_unfold(bits);
            lemma_pow2_pos((bits - 1) as nat);
        }
        lemma_small_mod(1, p);
        assert(jump_mult(m, bits, p) == 1);
        assert(1 * s + 0 == s);
    }
}

/// With an odd multiplier a step loses no state: two states that differ give
/// states that differ.
pub proof fn lemma_step_injective(s1: nat, s2: nat, m: nat, c: nat, bits: nat)
    requires
        m % 2 == 1,
        s1 < pow2(bits),
        s2 < pow2(bits),
        lcg_step(s1, m, c, bits) == lcg_step(s2, m, c, bits),
    ensures
        s1 == s2,
{
    let p: nat = pow2(bits);
    lemma_pow2_pos(bits);
    if bits == 0 {
        assert(p == 1) by {
            lemma2_to64();
        }
    } else {
        // 2^bits - 1 further steps bring both states back to where they began
        let n: nat = (p - 1) as nat;
        lemma_steps_add(s1, m, c, bits, 1, n);
        lemma_steps_add(s2, m, c, bits, 1, n);
        lemma_full_cycle(s1, m, c, bits);
        lemma_full_cycle(s2, m, c, bits);
        assert(lcg_steps(s1, m, c, bits, 1) == lcg_step(s1, m, c, bits)) by {
            assert(lcg_steps(s1, m, c, bits, 0) == s1);
        }
        assert(lcg_steps(s2, m, c, bits, 1) == lcg_step(s2, m, c, bits)) by {
            assert(lcg_steps(s2, m, c, bits, 0) == s2);
        }
        assert(1 + n == p);
    }
}

/// With an odd multiplier, two states that differ still differ after any
/// number of steps with the same increment.
pub proof fn lemma_states_stay_apart(s1: nat, s2: nat, m: nat, c: nat, bits: nat, n: nat)
    requires
        m % 2 == 1,
        s1 < pow2(bits),
        s2 < pow2(bits),
        s1 != s2,
    ensures
        lcg_steps(s1, m, c, bits, n) != lcg_steps(s2, m, c, bits, n),
    decreases n,
{
    if n > 0 {
        let n1: nat = (n - 1) as nat;
        lemma_states_stay_apart(s1, s2, m, c, bits, n1);
        lemma_jump_is_steps(s1, m, c, bits, n1);
        lemma_jump_is_steps(s2, m, c, bits, n1);
        let t1: nat = lcg_steps(s1, m, c, bits, n1);
        let t2: nat = lcg_steps(s2, m, c, bits, n1);
        if lcg_step(t1, m, c, bits) == lcg_step(t2, m, c, bits) {
            lemma_step_injective(t1, t2, m, c, bits);
        }
    }
}

/// Two increments below `2^bits` that differ take a state to two states that
/// differ.
pub proof fn lemma_increments_part(s: nat, m: nat, c1: nat, c2: nat, bits: nat)
    requires
        c1 < pow2(bits),
        c2 < pow2(bits),
        c1 != c2,
    ensures
        lcg_step(s, m, c1, bits) != lcg_step(s, m, c2, bits),
{
    let p: int = pow2(bits) as int;
    lemma_pow2_pos(bits);
    let x: int = (s * m) as int;
    if lcg_step(s, m, c1, bits) == lcg_step(s, m, c2, bits) {
        lemma_mod_equivalence(x + c1, x + c2, p);
        lemma_mod_equivalence(x + c2, x + c1, p);
        if c1 > c2 {
            lemma_small_mod((c1 - c2) as nat, p as nat);
        } else {
            lemma_small_mod((c2 - c1) as nat, p as nat);
        }
    }
}

} // verus!
