//! The generator: a single non-zero 128-bit state and the pure
//! transformations that construct and advance it.

use crate::words;
use vstd::prelude::*;

verus! {

/// Odd multiplier used by the hash expansion in `Rng::from_u64`: a frozen
/// design parameter chosen for its bit-mixing quality. Oddness is what the
/// non-zero proof relies on.
pub const EXPAND_MUL: u128 = 0x487e_d511_0b46_11a6_2633_145c_06e0_e689;

/// Multiplicative inverse of `EXPAND_MUL` modulo 2^128; it witnesses that
/// multiplying by `EXPAND_MUL` and truncating is invertible.
const EXPAND_MUL_INV: u128 = 0xc87a_52e6_e889_c791_db85_aea0_4664_6fb9;

/// Quotient `(EXPAND_MUL * EXPAND_MUL_INV - 1) / 2^128`, the other witness
/// of the inverse equation.
const EXPAND_MUL_QUOT: u128 = 0x38c5_ba60_defa_f596_2799_0249_051b_4f04;

/// `a` rotated right by 7 bit positions.
pub open spec fn rotr7(a: u64) -> u64 {
    (a >> 7) | (a << 57)
}

/// The value emitted by one scalar draw from state `s`.
pub open spec fn draw_out(s: u128) -> u64 {
    let a = words::lo64(s);
    let b = words::hi64(s);
    let t = words::widemul(b, b);
    a ^ words::lo64(t).wrapping_add(words::hi64(t))
}

/// The state left behind by one scalar draw from state `s`.
pub open spec fn step(s: u128) -> u128 {
    let a = words::lo64(s);
    let b = words::hi64(s);
    words::concat128(rotr7(a) ^ b, a ^ (a >> 19))
}

/// The state left behind by `k` scalar draws from state `s`.
pub open spec fn step_n(s: u128, k: nat) -> u128
    decreases k,
{
    if k == 0 {
        s
    } else {
        step(step_n(s, (k - 1) as nat))
    }
}

/// The 16 bytes `b` read as a little-endian 128-bit integer.
pub open spec fn le128(b: Seq<u8>) -> u128
    recommends
        b.len() == 16,
{
    (b[0] as u128) | ((b[1] as u128) << 8) | ((b[2] as u128) << 16) | ((b[3] as u128) << 24)
        | ((b[4] as u128) << 32) | ((b[5] as u128) << 40) | ((b[6] as u128) << 48)
        | ((b[7] as u128) << 56) | ((b[8] as u128) << 64) | ((b[9] as u128) << 72)
        | ((b[10] as u128) << 80) | ((b[11] as u128) << 88) | ((b[12] as u128) << 96)
        | ((b[13] as u128) << 104) | ((b[14] as u128) << 112) | ((b[15] as u128) << 120)
}

/// The state produced by seeding: the little-endian value of the seed, with
/// the all-zero seed remapped to 1.
pub open spec fn seed_state(b: Seq<u8>) -> u128
    recommends
        b.len() == 16,
{
    if le128(b) == 0 {
        1
    } else {
        le128(b)
    }
}

/// The state produced by hash-expanding a 64-bit integer: `n` packed with a
/// low word of 1, then three rounds of multiply-by-`EXPAND_MUL` with a
/// byte-order reversal between rounds.
pub open spec fn expand(n: u64) -> u128 {
    let s0 = words::concat128(n, 1);
    let s1 = words::swap128(s0.wrapping_mul(EXPAND_MUL));
    let s2 = words::swap128(s1.wrapping_mul(EXPAND_MUL));
    s2.wrapping_mul(EXPAND_MUL)
}

/// The state of a generator split off from two draws `x` and `y`: the two
/// words packed, with an all-zero packing remapped to 1.
pub open spec fn split_state(x: u64, y: u64) -> u128 {
    if words::concat128(x, y) == 0 {
        1
    } else {
        words::concat128(x, y)
    }
}

/// Law: scalar advancement never reaches the all-zero state from a non-zero
/// state. The new high half `a ^ (a >> 19)` vanishes only when the old low
/// half `a` is zero, and in that case the new low half equals the old high
/// half `b`; so both halves vanish only when the old state was zero.
pub proof fn lemma_step_nonzero(s: u128)
    requires
        s != 0,
    ensures
        step(s) != 0,
{
    let a = words::lo64(s);
    let b = words::hi64(s);
    words::lemma_split128(s);
    words::lemma_concat128_halves(a, b);
    assert(a != 0 || b != 0);
    assert(a != 0 || b != 0 ==> (((a >> 7) | (a << 57)) ^ b) != 0 || (a ^ (a >> 19)) != 0)
        by (bit_vector);
    words::lemma_concat128_halves(rotr7(a) ^ b, a ^ (a >> 19));
}

/// Multiplying a non-zero word by the odd constant `EXPAND_MUL` modulo
/// 2^128 gives a non-zero word, because the constant is invertible.
proof fn lemma_expand_mul_nonzero(x: u128)
    requires
        x != 0,
    ensures
        x.wrapping_mul(EXPAND_MUL) != 0,
{
    let p = 0x1_0000_0000_0000_0000_0000_0000_0000_0000int;
    let xi = x as int;
    let m = EXPAND_MUL as int;
    let mi = EXPAND_MUL_INV as int;
    let k = EXPAND_MUL_QUOT as int;
    assert(m * mi == 1 + k * p);
    vstd::arithmetic::div_mod::lemma_mod_bound(xi * m, p);
    let w = (xi * m) % p;
    assert(x.wrapping_mul(EXPAND_MUL) == w);
    if w == 0 {
        vstd::arithmetic::div_mod::lemma_mul_mod_noop_left(xi * m, mi, p);
        assert((xi * m) * mi % p == 0);
        vstd::arithmetic::mul::lemma_mul_is_associative(xi, m, mi);
        assert(xi * (m * mi) % p == 0);
        vstd::arithmetic::mul::lemma_mul_is_distributive_add(xi, 1, k * p);
        assert(xi * (1 + k * p) == xi + xi * (k * p));
        vstd::arithmetic::mul::lemma_mul_is_associative(xi, k, p);
        vstd::arithmetic::mul::lemma_mul_is_commutative(xi * k, p);
        vstd::arithmetic::div_mod::lemma_mod_multiples_vanish(xi * k, xi, p);
        assert((p * (xi * k) + xi) % p == xi % p);
        vstd::arithmetic::div_mod::lemma_small_mod(x as nat, p as nat);
        assert(xi == 0);
        assert(false);
    }
}

/// Law: the hash expansion of any 64-bit integer is a non-zero state. The
/// packed input has a high word of 1, and each round preserves being
/// non-zero: the multiplier is odd and byte reversal is a permutation.
pub proof fn lemma_expand_nonzero(n: u64)
    ensures
        expand(n) != 0,
{
    let s0 = words::concat128(n, 1);
    words::lemma_concat128_halves(n, 1);
    lemma_expand_mul_nonzero(s0);
    words::lemma_swap128_zero(s0.wrapping_mul(EXPAND_MUL));
    let s1 = words::swap128(s0.wrapping_mul(EXPAND_MUL));
    lemma_expand_mul_nonzero(s1);
    words::lemma_swap128_zero(s1.wrapping_mul(EXPAND_MUL));
    let s2 = words::swap128(s1.wrapping_mul(EXPAND_MUL));
    lemma_expand_mul_nonzero(s2);
}

/// A fast non-cryptographic random number generator. Its only data is a
/// 128-bit state that is never the all-zero bit pattern.
#[derive(Clone, Copy, PartialEq, Eq, Structural)]
pub struct Rng {
    s: u128,
}

impl View for Rng {
    type V = u128;

    /// A generator is abstractly its current state.
    closed spec fn view(&self) -> u128 {
        self.s
    }
}

impl Rng {
    /// The state is never the all-zero bit pattern: zero is a fixed point of
    /// the mixing function and would make every future draw degenerate.
    #[verifier::type_invariant]
    pub(crate) closed spec fn nonzero_state(self) -> bool {
        self.s != 0
    }

    /// The type invariant, restated on the abstract view: a generator's
    /// state is never zero.
    pub(crate) proof fn lemma_view_nonzero(self)
        requires
            self.nonzero_state(),
        ensures
            self@ != 0,
    {
    }

    /// Creates a new random number generator with the given initial state. A
    /// good state should be drawn from a distribution with sufficient
    /// entropy.
    pub fn new(state: u128) -> (r: Self)
        requires
            state != 0,
        ensures
            r@ == state,
    {
        Rng { s: state }
    }

    /// Retrieves the random number generator's current state, which is never
    /// zero.
    pub fn state(&self) -> (r: u128)
        ensures
            r == self@,
            r != 0,
    {
        proof {
            use_type_invariant(self);
        }
        self.s
    }

    /// Creates a new random number generator using the given seed to create
    /// the initial state. A good seed should be drawn from a distribution
    /// with sufficient entropy. Every seed is valid: the all-zero seed is
    /// remapped to state 1.
    pub fn from_seed(seed: [u8; 16]) -> (r: Self)
        ensures
            r@ == seed_state(seed@),
            r@ != 0,
    {
        let s: u128 = (seed[0] as u128) | ((seed[1] as u128) << 8) | ((seed[2] as u128) << 16)
            | ((seed[3] as u128) << 24) | ((seed[4] as u128) << 32) | ((seed[5] as u128) << 40)
            | ((seed[6] as u128) << 48) | ((seed[7] as u128) << 56) | ((seed[8] as u128) << 64)
            | ((seed[9] as u128) << 72) | ((seed[10] as u128) << 80) | ((seed[11] as u128) << 88)
            | ((seed[12] as u128) << 96) | ((seed[13] as u128) << 104)
            | ((seed[14] as u128) << 112) | ((seed[15] as u128) << 120);
        if s == 0 {
            Rng { s: 1 }
        } else {
            Rng { s }
        }
    }

    /// Creates a new random number generator by hashing the given integer to
    /// produce the initial state. The expansion provably never produces the
    /// zero state, so no remapping is needed.
    pub fn from_u64(n: u64) -> (r: Self)
        ensures
            r@ == expand(n),
            r@ != 0,
    {
        let s = words::concat(n, 1);
        let s = s.wrapping_mul(EXPAND_MUL);
        let s = words::swap_bytes(s);
        let s = s.wrapping_mul(EXPAND_MUL);
        let s = words::swap_bytes(s);
        let s = s.wrapping_mul(EXPAND_MUL);
        proof {
            lemma_expand_nonzero(n);
        }
        Rng { s }
    }

    /// Samples a `u64` from the uniform distribution, advancing the state by
    /// one step. The new state is provably non-zero, so no defensive guard
    /// is needed: this runs branch-free, with one widening multiply, a few
    /// shifts and xors, and one wrapping add.
    pub fn u64(&mut self) -> (x: u64)
        ensures
            x == draw_out(old(self)@),
            final(self)@ == step(old(self)@),
            final(self)@ != 0,
    {
        proof {
            use_type_invariant(&*self);
        }
        let s = self.s;
        let a = words::lo(s);
        let b = words::hi(s);
        let c = ((a >> 7) | (a << 57)) ^ b;
        let d = a ^ (a >> 19);
        let t = words::mul(b, b);
        let x = a ^ words::lo(t).wrapping_add(words::hi(t));
        proof {
            words::lemma_split128(s);
            lemma_step_nonzero(s);
        }
        let s2 = words::concat(c, d);
        self.s = s2;
        x
    }

    /// Splits off a new random number generator that may be used along with
    /// the original. The new state packs two draws from the original, with
    /// an all-zero packing remapped to 1; the original is left exactly as
    /// two direct draws would leave it.
    pub fn split(&mut self) -> (r: Self)
        ensures
            final(self)@ == step(step(old(self)@)),
            final(self)@ != 0,
            r@ == split_state(draw_out(old(self)@), draw_out(step(old(self)@))),
            r@ != 0,
    {
        let a = self.u64();
        let b = self.u64();
        let s = words::concat(a, b);
        if s == 0 {
            Rng { s: 1 }
        } else {
            Rng { s }
        }
    }
}

} // verus!
