//! A SplitMix64 pseudo random number generator.

use std::hash::{BuildHasher, DefaultHasher, Hasher, RandomState};
use vstd::prelude::*;
use crate::splitmix::{
    draw_limit, lemma_draw_terminates, lemma_split_streams_disjoint, lemma_zone_large, modulus,
    spec_advance, spec_draw_below, spec_mix, spec_step, spec_zone, walk_distance, GAMMA, MIX_MUL_1,
    MIX_MUL_2,
};

verus! {

/// A SplitMix64 generator: its whole state is one 64-bit word.
pub struct Rng {
    state: u64,
}

impl View for Rng {
    type V = u64;

    closed spec fn view(&self) -> u64 {
        self.state
    }
}

/// The output of the draw that `state` makes next.
pub open spec fn spec_next_u64(state: u64) -> u64 {
    spec_mix(spec_advance(state))
}

/// Uniform draw in `[low, high)` from `state`: the state after the draw and
/// the value drawn.
pub open spec fn spec_range(state: u64, low: u64, high: u64) -> (u64, u64) {
    let span = (high - low) as u64;
    match spec_draw_below(state, spec_zone(span), draw_limit()) {
        Some((s, v)) => (s, (low + v % span) as u64),
        None => (state, low),
    }
}

/// The Fisher-Yates pass over positions `i` down to 1 of `s`, drawing from
/// `state`: the resulting sequence and state.
pub open spec fn spec_shuffle_from<T>(s: Seq<T>, state: u64, i: nat) -> (Seq<T>, u64)
    decreases i,
{
    if i == 0 {
        (s, state)
    } else {
        let (next, j) = spec_range(state, 0, (i + 1) as u64);
        let swapped = s.update(i as int, s[j as int]).update(j as int, s[i as int]);
        spec_shuffle_from(swapped, next, (i - 1) as nat)
    }
}

/// The shuffle of `s` drawn from `state`: the permuted sequence and the
/// state afterwards.
pub open spec fn spec_shuffle<T>(s: Seq<T>, state: u64) -> (Seq<T>, u64) {
    if s.len() <= 1 {
        (s, state)
    } else {
        spec_shuffle_from(s, state, (s.len() - 1) as nat)
    }
}

/// `<[T]>::swap`: exchanges two elements of a slice.
#[verifier::external_body]
fn slice_swap<T>(xs: &mut [T], a: usize, b: usize)
    requires
        a < old(xs)@.len(),
        b < old(xs)@.len(),
    ensures
        final(xs)@ == old(xs)@.update(a as int, old(xs)@[b as int]).update(
            b as int,
            old(xs)@[a as int],
        ),
{
    xs.swap(a, b)
}

impl Rng {
    /// Creates a generator from a seed, so that a render can be reproduced.
    #[must_use]
    pub fn seed_from_u64(seed: u64) -> (r: Self)
        ensures
            r@ == seed,
    {
        Self { state: seed }
    }

    /// The upper 32 bits of the next 64-bit draw.
    pub fn next_u32(&mut self) -> (r: u32)
        ensures
            final(self)@ == spec_advance(old(self)@),
            r == spec_next_u64(old(self)@) >> 32u64,
    {
        let v = self.next_u64();
        let r = (v >> 32) as u32;
        assert(v >> 32u64 <= 0xffff_ffffu64) by (bit_vector);
        r
    }

    /// Advances the state by the Weyl increment and returns the mixed state.
    #[must_use]
    pub fn next_u64(&mut self) -> (r: u64)
        ensures
            final(self)@ == spec_advance(old(self)@),
            r == spec_next_u64(old(self)@),
    {
        self.state = self.state.wrapping_add(GAMMA);
        let mut z = self.state;
        z = (z ^ (z >> 30)).wrapping_mul(MIX_MUL_1);
        z = (z ^ (z >> 27)).wrapping_mul(MIX_MUL_2);
        z ^ (z >> 31)
    }

    /// A uniform draw in `[low, high)`, by rejection sampling to avoid
    /// modulo bias. `low < high` is required: the draw panics otherwise.
    pub fn range_u64(&mut self, low: u64, high: u64) -> (r: u64)
        requires
            low < high,
        ensures
            (final(self)@, r) == spec_range(old(self)@, low, high),
            low <= r < high,
    {
        let span = high - low;
        let zone = u64::MAX - (u64::MAX % span);
        let ghost start = self@;
        let ghost mut fuel: nat = draw_limit();
        proof {
            lemma_zone_large(span);
            lemma_draw_terminates(start, zone);
        }
        loop
            invariant
                zone == spec_zone(span),
                span == high - low,
                low < high,
                start == old(self)@,
                spec_draw_below(self@, zone, fuel) is Some,
                spec_draw_below(start, zone, draw_limit()) == spec_draw_below(self@, zone, fuel),
            decreases fuel,
        {
            let ghost before = self@;
            let v = self.next_u64();
            assert(spec_draw_below(before, zone, fuel) == if v < zone {
                Some((self@, v))
            } else if fuel == 0 {
                None
            } else {
                spec_draw_below(self@, zone, (fuel - 1) as nat)
            });
            if v < zone {
                assert(v % span < span) by (nonlinear_arith)
                    requires span > 0;
                return low + v % span;
            }
            proof {
                fuel = (fuel - 1) as nat;
            }
        }
    }

    /// Shuffles `xs` in place with the Fisher-Yates algorithm.
    pub fn shuffle<T>(&mut self, xs: &mut [T])
        ensures
            (final(xs)@, final(self)@) == spec_shuffle(old(xs)@, old(self)@),
            final(xs)@.to_multiset() == old(xs)@.to_multiset(),
    {
        let n = xs.len();
        if n <= 1 {
            return;
        }
        let mut i: usize = n - 1;
        while i >= 1
            invariant
                n == xs@.len(),
                n >= 2,
                i < n,
                spec_shuffle(old(xs)@, old(self)@) == spec_shuffle_from(xs@, self@, i as nat),
                xs@.to_multiset() == old(xs)@.to_multiset(),
            decreases i,
        {
            let j = self.range_u64(0, i as u64 + 1) as usize;
            proof {
                lemma_swap_to_multiset(xs@, i as int, j as int);
            }
            slice_swap(xs, i, j);
            i = i - 1;
        }
    }

    /// A new generator seeded by the next draw of this one, for example to
    /// give each thread its own stream.
    #[must_use]
    pub fn split(&mut self) -> (r: Self)
        ensures
            final(self)@ == spec_advance(old(self)@),
            r@ == spec_next_u64(old(self)@),
    {
        Self { state: self.next_u64() }
    }
}

/// `RandomState::new`: hashing keys seeded from system entropy, different in
/// each process; nothing is promised of the keys.
#[verifier::external_body]
fn random_state_new() -> RandomState {
    RandomState::new()
}

/// `<RandomState as BuildHasher>::build_hasher`: a hasher keyed by `state`;
/// nothing is promised of it.
#[verifier::external_body]
fn random_state_build_hasher(state: &RandomState) -> DefaultHasher {
    state.build_hasher()
}

/// `Hasher::write_u64`: feeds a word to the hasher; nothing is promised of
/// the hasher afterwards.
#[verifier::external_body]
fn hasher_write_u64(hasher: &mut DefaultHasher, word: u64) {
    hasher.write_u64(word)
}

impl Default for Rng {
    /// A generator seeded from system entropy; nothing is promised of the
    /// seed.
    fn default() -> Self {
        let keys = random_state_new();
        let mut hasher = random_state_build_hasher(&keys);
        hasher_write_u64(&mut hasher, 0);
        Self { state: hasher.finish() }
    }
}

/// Exchanging two elements keeps the multiset of elements.
pub proof fn lemma_swap_to_multiset<T>(s: Seq<T>, a: int, b: int)
    requires
        0 <= a < s.len(),
        0 <= b < s.len(),
    ensures
        s.update(a, s[b]).update(b, s[a]).to_multiset() == s.to_multiset(),
{
    broadcast use vstd::multiset::group_multiset_axioms;

    let t = s.update(a, s[b]);
    let m = s.to_multiset();
    vstd::seq_lib::to_multiset_update(s, a, s[b]);
    vstd::seq_lib::to_multiset_update(t, b, s[a]);
    vstd::seq_lib::to_multiset_contains(s, s[a]);
    assert(s.contains(s[a]));
    assert(t.len() == s.len());
    assert(t[b] == s[b]);
    assert(m.count(s[a]) > 0);
    assert(t.update(b, s[a]).to_multiset() =~= m);
}

/// Generators seeded alike draw alike: `seed_from_u64` makes renders
/// reproducible, since every draw (`next_u64`, `range_u64`, `shuffle`,
/// `split`) is a function of the state alone.
pub proof fn lemma_same_seed_same_draws(a: Rng, b: Rng, low: u64, high: u64, s: Seq<u64>)
    requires
        a@ == b@,
    ensures
        spec_next_u64(a@) == spec_next_u64(b@),
        spec_advance(a@) == spec_advance(b@),
        spec_range(a@, low, high) == spec_range(b@, low, high),
        spec_shuffle(s, a@) == spec_shuffle(s, b@),
{
}

/// A draw in `[low, high)` lies in that range and comes from the first
/// output below the acceptance bound.
pub proof fn lemma_range_in_bounds(state: u64, low: u64, high: u64)
    requires
        low < high,
    ensures
        low <= spec_range(state, low, high).1 < high,
        spec_draw_below(state, spec_zone((high - low) as u64), draw_limit()) is Some,
{
    let span = (high - low) as u64;
    lemma_zone_large(span);
    lemma_draw_terminates(state, spec_zone(span));
    let v = spec_draw_below(state, spec_zone(span), draw_limit()).unwrap().1;
    assert(v % span < span) by (nonlinear_arith)
        requires span > 0;
}

/// `split` gives a generator whose stream does not overlap its parent's:
/// after `split` from `state`, the parent continues from
/// `spec_advance(state)` and the child from `spec_next_u64(state)`, and while
/// each makes at most `n` draws the states they visit differ, provided the
/// child's seed lies at least `n` steps from the parent's state either way
/// round their common cycle of 2^64 states. Longer runs always overlap.
pub proof fn lemma_split_streams_apart(state: u64, n: nat, a: nat, b: nat)
    requires
        n <= walk_distance(spec_advance(state), spec_next_u64(state)) <= modulus() - n,
        1 <= a <= n,
        1 <= b <= n,
    ensures
        spec_step(spec_next_u64(state), a) != spec_step(spec_advance(state), b),
{
    lemma_split_streams_disjoint(spec_advance(state), spec_next_u64(state), n, a, b);
}

/// The Fisher-Yates pass over positions `i` down to 1 touches only the
/// first `i + 1` elements: it shuffles that prefix on its own and leaves the
/// rest in place.
proof fn lemma_shuffle_from_prefix<T>(s: Seq<T>, state: u64, i: nat)
    requires
        i < s.len() <= u64::MAX,
    ensures
        spec_shuffle_from(s, state, i).0 == spec_shuffle_from(s.take(i + 1int), state, i).0 + s.skip(i + 1int),
        spec_shuffle_from(s, state, i).1 == spec_shuffle_from(s.take(i + 1int), state, i).1,
    decreases i,
{
    if i == 0 {
        assert(s =~= s.take(1) + s.skip(1));
    } else {
        let p = s.take(i + 1int);
        lemma_range_in_bounds(state, 0, (i + 1) as u64);
        let (next, j) = spec_range(state, 0, (i + 1) as u64);
        let sw = s.update(i as int, s[j as int]).update(j as int, s[i as int]);
        let pw = p.update(i as int, p[j as int]).update(j as int, p[i as int]);
        lemma_shuffle_from_prefix(sw, next, (i - 1) as nat);
        lemma_shuffle_from_prefix(pw, next, (i - 1) as nat);
        assert(sw.take(i as int) =~= pw.take(i as int));
        assert(sw.skip(i as int) =~= pw.skip(i as int) + s.skip(i + 1int));
        let inner = spec_shuffle_from(pw.take(i as int), next, (i - 1) as nat).0;
        assert(inner + sw.skip(i as int) =~= inner + pw.skip(i as int) + s.skip(i + 1int));
    }
}

/// The shuffle of `n >= 2` elements draws the element for the last position
/// uniformly from all `n` positions (`range_u64(0, n)`, so the last element
/// may stay), swaps it there, and then shuffles the first `n - 1` elements
/// with the generator as that draw left it.
pub proof fn lemma_shuffle_last_position<T>(s: Seq<T>, state: u64)
    requires
        2 <= s.len() <= u64::MAX,
    ensures
        ({
            let n = s.len();
            let (next, j) = spec_range(state, 0, n as u64);
            let t = s.update(n - 1, s[j as int]).update(j as int, s[n - 1]);
            &&& 0 <= j < n
            &&& spec_shuffle(s, state).0 == spec_shuffle(t.take(n - 1), next).0 + seq![t[n - 1]]
            &&& spec_shuffle(s, state).1 == spec_shuffle(t.take(n - 1), next).1
        }),
{
    let n = s.len();
    lemma_range_in_bounds(state, 0, n as u64);
    let (next, j) = spec_range(state, 0, n as u64);
    let t = s.update(n - 1, s[j as int]).update(j as int, s[n - 1]);
    let i = (n - 1) as nat;
    assert(spec_shuffle(s, state) == spec_shuffle_from(t, next, (i - 1) as nat));
    if n == 2 {
        assert(t =~= t.take(1) + seq![t[1]]);
    } else {
        lemma_shuffle_from_prefix(t, next, (i - 1) as nat);
        assert(t.take(i as int).len() == i);
        assert(t.skip(i as int) =~= seq![t[n - 1]]);
    }
}

/// Once rejection sampling succeeds with some number of spare draws, more
/// spare draws do not change its result.
proof fn lemma_draw_fuel_irrelevant(state: u64, zone: u64, f: nat, g: nat)
    requires
        spec_draw_below(state, zone, f) is Some,
        f <= g,
    ensures
        spec_draw_below(state, zone, g) == spec_draw_below(state, zone, f),
    decreases f,
{
    let next = spec_advance(state);
    if spec_mix(next) >= zone {
        lemma_draw_fuel_irrelevant(next, zone, (f - 1) as nat, (g - 1) as nat);
    }
}

/// `range_u64(low, high)` is rejection sampling on `next_u64`: when the next
/// 64-bit draw `v` is below the acceptance bound it returns `low + v % span`
/// after that one draw; otherwise it discards the draw and acts as a fresh
/// call from the state that draw left.
pub proof fn lemma_range_is_rejection_sampling(state: u64, low: u64, high: u64)
    requires
        low < high,
    ensures
        ({
            let span = (high - low) as u64;
            let v = spec_next_u64(state);
            if v < spec_zone(span) {
                spec_range(state, low, high) == (spec_advance(state), (low + v % span) as u64)
            } else {
                spec_range(state, low, high) == spec_range(spec_advance(state), low, high)
            }
        }),
{
    let span = (high - low) as u64;
    let zone = spec_zone(span);
    let next = spec_advance(state);
    lemma_zone_large(span);
    lemma_draw_terminates(state, zone);
    lemma_draw_terminates(next, zone);
    if spec_next_u64(state) >= zone {
        let limit = draw_limit();
        assert(spec_draw_below(state, zone, limit) == spec_draw_below(
            next,
            zone,
            (limit - 1) as nat,
        ));
        lemma_draw_fuel_irrelevant(next, zone, (limit - 1) as nat, limit);
    }
}

} // verus!
