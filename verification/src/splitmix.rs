//! The mathematics of SplitMix64: the state walk, the output mixer, and why
//! rejection sampling on its output always stops.

use vstd::prelude::*;
use vstd::arithmetic::div_mod::{
    lemma_add_mod_noop, lemma_fundamental_div_mod, lemma_fundamental_div_mod_converse,
    lemma_mod_bound, lemma_mul_mod_noop_left, lemma_mul_mod_noop_right, lemma_small_mod,
    lemma_sub_mod_noop,
};
use vstd::arithmetic::mul::lemma_mul_is_associative;
use vstd::set_lib::{lemma_int_range, lemma_len_subset, lemma_map_size, set_int_range};

verus! {

/// The Weyl-sequence increment added to the state on every draw.
pub const GAMMA: u64 = 0x9E37_79B9_7F4A_7C15;

/// First multiplier of the output mixer.
pub const MIX_MUL_1: u64 = 0xBF58_476D_1CE4_E5B9;

/// Second multiplier of the output mixer.
pub const MIX_MUL_2: u64 = 0x94D0_49BB_1331_11EB;

/// 2^64, the modulus of all state arithmetic.
pub open spec fn modulus() -> int {
    0x1_0000_0000_0000_0000
}

/// The state that follows `state`.
pub open spec fn spec_advance(state: u64) -> u64 {
    vstd::wrapping::u64_specs::wrapping_add(state, GAMMA)
}

/// The state reached from `state` after `n` draws.
pub open spec fn spec_step(state: u64, n: nat) -> u64 {
    ((state + n * GAMMA) % modulus()) as u64
}

/// The SplitMix64 output function applied to a state.
pub open spec fn spec_mix(z: u64) -> u64 {
    let z1 = vstd::wrapping::u64_specs::wrapping_mul(z ^ (z >> 30u64), MIX_MUL_1);
    let z2 = vstd::wrapping::u64_specs::wrapping_mul(z1 ^ (z1 >> 27u64), MIX_MUL_2);
    z2 ^ (z2 >> 31u64)
}

/// The number of rejected draws after which rejection sampling below a
/// bound of at least 2^63 is known to have stopped.
pub open spec fn draw_limit() -> nat {
    0x8000_0000_0000_0000
}

/// Rejection sampling: draw until an output below `zone` comes up, giving
/// the state after the accepted draw and the accepted output; `None` when
/// more than `fuel` draws are rejected.
pub open spec fn spec_draw_below(state: u64, zone: u64, fuel: nat) -> Option<(u64, u64)>
    decreases fuel,
{
    let next = spec_advance(state);
    let v = spec_mix(next);
    if v < zone {
        Some((next, v))
    } else if fuel == 0 {
        None
    } else {
        spec_draw_below(next, zone, (fuel - 1) as nat)
    }
}

/// The acceptance bound used to draw uniformly among `span` values.
pub open spec fn spec_zone(span: u64) -> u64 {
    (u64::MAX - u64::MAX % span) as u64
}

/// Each draw moves the state one step along the walk `state + n * GAMMA`
/// (modulo 2^64).
pub proof fn lemma_step_succ(state: u64, n: nat)
    ensures
        spec_advance(spec_step(state, n)) == spec_step(state, n + 1),
{
    let m = modulus();
    let x = state + n * GAMMA;
    lemma_add_mod_noop(x, GAMMA as int, m);
    lemma_small_mod(GAMMA as nat, m as nat);
    assert((n + 1) * GAMMA == n * GAMMA + GAMMA) by (nonlinear_arith);
}

/// Draws `a` and `b` of one walk reach different states while they are less
/// than 2^64 apart: the walk visits every state once per period.
pub proof fn lemma_step_injective(state: u64, a: nat, b: nat)
    requires
        a < b,
        b - a < modulus(),
    ensures
        spec_step(state, a) != spec_step(state, b),
{
    let m = modulus();
    let inv: int = 0xf1de_83e1_9937_733d;
    let x = state + a * GAMMA;
    let y = state + b * GAMMA;
    let d: int = b - a;
    if spec_step(state, a) == spec_step(state, b) {
        assert(x % m == y % m);
        lemma_sub_mod_noop(y, x, m);
        assert(y - x == d * GAMMA) by (nonlinear_arith)
            requires x == state + a * GAMMA, y == state + b * GAMMA, d == b - a;
        assert((d * GAMMA) % m == 0);
        lemma_mul_mod_noop_left(d * GAMMA, inv, m);
        assert((0 * inv) % m == 0);
        lemma_mul_is_associative(d, GAMMA as int, inv);
        lemma_mul_mod_noop_right(d, GAMMA * inv, m);
        assert((GAMMA * inv) % m == 1);
        assert(d * 1 == d);
        lemma_small_mod(d as nat, m as nat);
        assert(false);
    }
}

proof fn lemma_xorshift30_injective(x: u64, y: u64)
    requires
        x ^ (x >> 30u64) == y ^ (y >> 30u64),
    ensures
        x == y,
{
    assert(x ^ (x >> 30u64) == y ^ (y >> 30u64) ==> x == y) by (bit_vector);
}

proof fn lemma_xorshift27_injective(x: u64, y: u64)
    requires
        x ^ (x >> 27u64) == y ^ (y >> 27u64),
    ensures
        x == y,
{
    assert(x ^ (x >> 27u64) == y ^ (y >> 27u64) ==> x == y) by (bit_vector);
}

proof fn lemma_xorshift31_injective(x: u64, y: u64)
    requires
        x ^ (x >> 31u64) == y ^ (y >> 31u64),
    ensures
        x == y,
{
    assert(x ^ (x >> 31u64) == y ^ (y >> 31u64) ==> x == y) by (bit_vector);
}

/// Multiplying by `c` modulo 2^64 is undone by multiplying by `inv`.
proof fn lemma_mul_undone(x: u64, c: u64, inv: int)
    requires
        0 <= inv,
        (c * inv) % modulus() == 1,
    ensures
        (vstd::wrapping::u64_specs::wrapping_mul(x, c) * inv) % modulus() == x,
{
    let m = modulus();
    lemma_mul_mod_noop_left(x * c, inv, m);
    lemma_mul_is_associative(x as int, c as int, inv);
    lemma_mul_mod_noop_right(x as int, c * inv, m);
    lemma_small_mod(x as nat, m as nat);
}

proof fn lemma_mul1_injective(x: u64, y: u64)
    requires
        vstd::wrapping::u64_specs::wrapping_mul(x, MIX_MUL_1)
            == vstd::wrapping::u64_specs::wrapping_mul(y, MIX_MUL_1),
    ensures
        x == y,
{
    let inv: int = 0x96de_1b17_3f11_9089;
    assert((MIX_MUL_1 * inv) % modulus() == 1);
    lemma_mul_undone(x, MIX_MUL_1, inv);
    lemma_mul_undone(y, MIX_MUL_1, inv);
}

proof fn lemma_mul2_injective(x: u64, y: u64)
    requires
        vstd::wrapping::u64_specs::wrapping_mul(x, MIX_MUL_2)
            == vstd::wrapping::u64_specs::wrapping_mul(y, MIX_MUL_2),
    ensures
        x == y,
{
    let inv: int = 0x3196_42b2_d24d_8ec3;
    assert((MIX_MUL_2 * inv) % modulus() == 1);
    lemma_mul_undone(x, MIX_MUL_2, inv);
    lemma_mul_undone(y, MIX_MUL_2, inv);
}

/// The output mixer is a bijection on 64-bit words: different states never
/// give the same output.
pub proof fn lemma_mix_injective(x: u64, y: u64)
    requires
        spec_mix(x) == spec_mix(y),
    ensures
        x == y,
{
    let x1 = vstd::wrapping::u64_specs::wrapping_mul(x ^ (x >> 30u64), MIX_MUL_1);
    let y1 = vstd::wrapping::u64_specs::wrapping_mul(y ^ (y >> 30u64), MIX_MUL_1);
    let x2 = vstd::wrapping::u64_specs::wrapping_mul(x1 ^ (x1 >> 27u64), MIX_MUL_2);
    let y2 = vstd::wrapping::u64_specs::wrapping_mul(y1 ^ (y1 >> 27u64), MIX_MUL_2);
    lemma_xorshift31_injective(x2, y2);
    lemma_mul2_injective(x1 ^ (x1 >> 27u64), y1 ^ (y1 >> 27u64));
    lemma_xorshift27_injective(x1, y1);
    lemma_mul1_injective(x ^ (x >> 30u64), y ^ (y >> 30u64));
    lemma_xorshift30_injective(x, y);
}

/// Every acceptance bound is at least 2^63.
pub proof fn lemma_zone_large(span: u64)
    requires
        span > 0,
    ensures
        spec_zone(span) >= 0x8000_0000_0000_0000u64,
{
    let max = u64::MAX as int;
    let s = span as int;
    let r = max % s;
    let q = max / s;
    lemma_fundamental_div_mod(max, s);
    lemma_mod_bound(max, s);
    if s > 0x8000_0000_0000_0000 {
        assert(q == 1) by (nonlinear_arith)
            requires
                max == s * q + r,
                0 <= r < s,
                s > 0x8000_0000_0000_0000,
                s <= max,
                max == 0xffff_ffff_ffff_ffff;
    }
}

/// When rejection sampling fails within `fuel` draws, every one of the
/// first `fuel + 1` outputs was rejected.
proof fn lemma_draw_none_rejects_all(state: u64, zone: u64, fuel: nat, k: nat)
    requires
        spec_draw_below(state, zone, fuel) is None,
        k <= fuel,
    ensures
        spec_mix(spec_step(state, k + 1)) >= zone,
    decreases fuel,
{
    let next = spec_advance(state);
    assert(spec_step(state, 0) == state) by {
        lemma_small_mod(state as nat, modulus() as nat);
    }
    if k == 0 {
        lemma_step_succ(state, 0);
    } else {
        lemma_draw_none_rejects_all(next, zone, (fuel - 1) as nat, (k - 1) as nat);
        lemma_walk_shift(state, k as nat);
    }
}

/// Walking `n + 1` draws from `state` is walking `n` draws from its successor.
proof fn lemma_walk_shift(state: u64, n: nat)
    ensures
        spec_step(spec_advance(state), n) == spec_step(state, n + 1),
{
    let m = modulus();
    let next = spec_advance(state);
    lemma_step_succ(state, 0);
    lemma_small_mod(state as nat, m as nat);
    assert(state + 0 * GAMMA == state);
    assert(next as int == (state + GAMMA) % m);
    lemma_add_mod_noop(state + GAMMA, n * GAMMA, m);
    lemma_small_mod((n * GAMMA % m) as nat, m as nat);
    assert((n * GAMMA) % m == (n * GAMMA % m) % m);
    lemma_add_mod_noop(next as int, n * GAMMA, m);
    assert(state + GAMMA + n * GAMMA == state + (n + 1) * GAMMA) by (nonlinear_arith);
}

/// Rejection sampling below a bound of at least 2^63 accepts within
/// `draw_limit()` rejected draws: among 2^63 + 1 consecutive outputs, all
/// distinct, at least one lies below 2^63.
pub proof fn lemma_draw_terminates(state: u64, zone: u64)
    requires
        zone >= 0x8000_0000_0000_0000u64,
    ensures
        spec_draw_below(state, zone, draw_limit()) is Some,
{
    if spec_draw_below(state, zone, draw_limit()) is None {
        let n: int = 0x8000_0000_0000_0001;
        let f = |k: int| spec_mix(spec_step(state, (k + 1) as nat)) as int;
        let ks = set_int_range(0, n);
        let outs = ks.map(f);
        let high = set_int_range(0x8000_0000_0000_0000, modulus());
        lemma_int_range(0, n);
        lemma_int_range(0x8000_0000_0000_0000, modulus());
        assert(vstd::relations::injective_on(f, ks)) by {
            assert forall|a: int, b: int|
                ks.contains(a) && ks.contains(b) && #[trigger] f(a) == #[trigger] f(b) implies a
                == b by {
                if a != b {
                    lemma_mix_injective(
                        spec_step(state, (a + 1) as nat),
                        spec_step(state, (b + 1) as nat),
                    );
                    if a < b {
                        lemma_step_injective(state, (a + 1) as nat, (b + 1) as nat);
                    } else {
                        lemma_step_injective(state, (b + 1) as nat, (a + 1) as nat);
                    }
                }
            }
        }
        lemma_map_size(ks, outs, f);
        assert(outs.subset_of(high)) by {
            assert forall|o: int| outs.contains(o) implies high.contains(o) by {
                let k = choose|k: int| ks.contains(k) && f(k) == o;
                lemma_draw_none_rejects_all(state, zone, draw_limit(), k as nat);
            }
        }
        lemma_len_subset(outs, high);
        assert(false);
    }
}

/// Within one period of 2^64 draws, a generator never gives the same output
/// twice: the walk visits each state once and the mixer is a bijection.
pub proof fn lemma_outputs_distinct(state: u64, a: nat, b: nat)
    requires
        a < b,
        b - a < modulus(),
    ensures
        spec_mix(spec_step(state, a)) != spec_mix(spec_step(state, b)),
{
    lemma_step_injective(state, a, b);
    if spec_mix(spec_step(state, a)) == spec_mix(spec_step(state, b)) {
        lemma_mix_injective(spec_step(state, a), spec_step(state, b));
    }
}

/// The acceptance bound is a whole number of spans, so every value of
/// `[0, span)` is the remainder of exactly `spec_zone(span) / span` accepted
/// outputs: rejection sampling draws without modulo bias.
pub proof fn lemma_zone_unbiased(span: u64, r: int)
    requires
        span > 0,
        0 <= r < span,
    ensures
        spec_zone(span) % span == 0,
        Set::new(|v: int| 0 <= v < spec_zone(span) && v % span as int == r).len() == spec_zone(span)
            / span,
{
    let max = u64::MAX as int;
    let sp = span as int;
    let q = max / sp;
    lemma_fundamental_div_mod(max, sp);
    lemma_mod_bound(max, sp);
    let zone = spec_zone(span) as int;
    assert(zone == q * sp);
    lemma_fundamental_div_mod_converse(zone, sp, q, 0);
    assert(zone / sp == q) by {
        lemma_fundamental_div_mod(zone, sp);
        lemma_mod_bound(zone, sp);
        assert(zone / sp == q) by (nonlinear_arith)
            requires zone == q * sp, zone == sp * (zone / sp) + zone % sp, zone % sp == 0, sp > 0;
    }
    let target = Set::new(|v: int| 0 <= v < zone && v % sp == r);
    let ks = set_int_range(0, q);
    let f = |k: int| k * sp + r;
    lemma_int_range(0, q);
    assert(vstd::relations::injective_on(f, ks)) by {
        assert forall|a: int, b: int|
            ks.contains(a) && ks.contains(b) && #[trigger] f(a) == #[trigger] f(b) implies a == b by {
            assert(a == b) by (nonlinear_arith)
                requires a * sp + r == b * sp + r, sp > 0;
        }
    }
    assert(ks.map(f) =~= target) by {
        assert forall|v: int| target.contains(v) implies ks.map(f).contains(v) by {
            lemma_fundamental_div_mod(v, sp);
            let k = v / sp;
            assert(0 <= k < q) by (nonlinear_arith)
                requires v == sp * k + r, 0 <= v < zone, zone == q * sp, 0 <= r < sp;
            assert(v % sp == r);
            assert(v == sp * k + r);
            assert(k * sp + r == v) by (nonlinear_arith)
                requires v == sp * k + r;
            assert(ks.contains(k));
        }
        assert forall|v: int| ks.map(f).contains(v) implies target.contains(v) by {
            let k = choose|k: int| ks.contains(k) && f(k) == v;
            lemma_fundamental_div_mod_converse(v, sp, k, r);
            assert(0 <= v < zone) by (nonlinear_arith)
                requires v == k * sp + r, 0 <= k < q, zone == q * sp, 0 <= r < sp;
        }
    }
    lemma_map_size(ks, target, f);
}

/// Adding to a remainder modulo 2^64 is adding to the number itself.
proof fn lemma_mod_add_left(x: int, y: int)
    ensures
        ((x % modulus()) + y) % modulus() == (x + y) % modulus(),
{
    let m = modulus();
    lemma_add_mod_noop(x, y, m);
    lemma_add_mod_noop(x % m, y, m);
    lemma_mod_bound(x, m);
    lemma_small_mod((x % m) as nat, m as nat);
}

/// The inverse of `GAMMA` modulo 2^64.
pub open spec fn gamma_inverse() -> int {
    0xf1de_83e1_9937_733d
}

/// How many steps along the walk lead from `from` to `to`.
pub open spec fn walk_distance(from: u64, to: u64) -> nat {
    (((to - from) * gamma_inverse()) % modulus()) as nat
}

/// Walking `walk_distance(from, to)` steps from `from` reaches `to`.
pub proof fn lemma_walk_distance(from: u64, to: u64)
    ensures
        walk_distance(from, to) < modulus(),
        spec_step(from, walk_distance(from, to)) == to,
{
    let m = modulus();
    let e: int = to - from;
    let inv = gamma_inverse();
    let d = (e * inv) % m;
    lemma_mod_bound(e * inv, m);
    assert((d * GAMMA) % m == e % m) by {
        lemma_mul_mod_noop_left(e * inv, GAMMA as int, m);
        lemma_mul_is_associative(e, inv, GAMMA as int);
        lemma_mul_mod_noop_right(e, inv * GAMMA, m);
        assert((inv * GAMMA) % m == 1);
        assert(e * 1 == e);
    }
    assert((from + d * GAMMA) % m == to) by {
        lemma_add_mod_noop(from as int, d * GAMMA, m);
        lemma_add_mod_noop(from as int, e, m);
        lemma_small_mod(from as nat, m as nat);
        lemma_small_mod(to as nat, m as nat);
    }
}

/// Walking `a` steps from the state `walk_distance(from, to)` steps ahead
/// is walking `walk_distance(from, to) + a` steps from `from`.
proof fn lemma_walk_ahead(from: u64, to: u64, a: nat)
    ensures
        spec_step(to, a) == spec_step(from, walk_distance(from, to) + a),
{
    let d = walk_distance(from, to);
    lemma_walk_distance(from, to);
    lemma_mod_add_left(from + d * GAMMA, a * GAMMA);
    assert(from + d * GAMMA + a * GAMMA == from + (d + a) * GAMMA) by (nonlinear_arith);
}

/// After `split`, the parent continues from `parent` and the child from
/// `child`; the child's seed lies `walk_distance(parent, child)` steps ahead
/// on the same cycle of 2^64 states. While each makes at most `n` draws and
/// that distance is at least `n` either way round the cycle, the states
/// they visit (`spec_step(child, a)` and `spec_step(parent, b)` for draws
/// `a` and `b` from 1 to `n`) never coincide. Runs longer than 2^63 draws
/// always overlap, so no such bound holds for them.
pub proof fn lemma_split_streams_disjoint(parent: u64, child: u64, n: nat, a: nat, b: nat)
    requires
        n <= walk_distance(parent, child) <= modulus() - n,
        1 <= a <= n,
        1 <= b <= n,
    ensures
        spec_step(child, a) != spec_step(parent, b),
{
    let d = walk_distance(parent, child);
    lemma_walk_ahead(parent, child, a);
    lemma_step_injective(parent, b, d + a);
}

} // verus!
