//! Laws relating bulk filling to repeated scalar draws.

use crate::fill::fill_bytes;
use crate::fill::fill_bytes_pos;
use crate::fill::fill_state;
use crate::fill::fill_state_pos;
use crate::fill::le8;
use crate::rng::draw_out;
use crate::rng::step;
use crate::rng::step_n;
use vstd::prelude::*;

verus! {

/// The number of scalar draws a fill of a length-`n` buffer makes: none for
/// an empty buffer, otherwise one pair per full 16-byte block plus one final
/// pair for the partial (possibly empty) block.
pub open spec fn fill_draws(n: nat) -> nat {
    if n == 0 {
        0
    } else {
        2 * (n / 16 + 1)
    }
}

/// The little-endian bytes of `k` successive scalar draws from state `s`,
/// concatenated in draw order.
pub open spec fn draws_bytes(s: u128, k: nat) -> Seq<u8>
    decreases k,
{
    if k == 0 {
        Seq::empty()
    } else {
        le8(draw_out(s)) + draws_bytes(step(s), (k - 1) as nat)
    }
}

/// `k` draws yield exactly `8 * k` bytes.
pub proof fn lemma_draws_bytes_len(s: u128, k: nat)
    ensures
        draws_bytes(s, k).len() == 8 * k,
    decreases k,
{
    if k > 0 {
        lemma_draws_bytes_len(step(s), (k - 1) as nat);
    }
}

/// Drawing once and then `k` times is drawing `k + 1` times.
proof fn lemma_step_n_shift(s: u128, k: nat)
    ensures
        step_n(step(s), k) == step_n(s, k + 1),
    decreases k,
{
    if k == 0 {
        assert(step_n(s, 1) == step(step_n(s, 0)));
    } else {
        lemma_step_n_shift(s, (k - 1) as nat);
        assert(step_n(step(s), k) == step(step_n(step(s), (k - 1) as nat)));
        assert(step_n(s, k + 1) == step(step_n(s, k)));
    }
}

/// Law (fill trajectory): a fill of a length-`n` buffer leaves the
/// generator exactly where `fill_draws(n)` scalar draws leave it, for every
/// length, including one that ends in a partial block.
pub proof fn lemma_fill_trajectory(s: u128, n: nat)
    ensures
        fill_state(s, n) == step_n(s, fill_draws(n)),
    decreases n,
{
    if n > 0 {
        lemma_fill_pos_trajectory(s, n);
    }
}

/// The workhorse of `lemma_fill_trajectory`, on the under-way form of the
/// fill state, which always draws one more pair.
proof fn lemma_fill_pos_trajectory(s: u128, n: nat)
    ensures
        fill_state_pos(s, n) == step_n(s, 2 * (n / 16 + 1)),
    decreases n,
{
    let s2 = step(step(s));
    if n >= 16 {
        lemma_fill_pos_trajectory(s2, (n - 16) as nat);
        vstd::arithmetic::div_mod::lemma_div_minus_one(n as int, 16);
        assert(((n - 16) as nat) / 16 + 1 == n / 16);
        lemma_step_n_shift(step(s), 2 * (n / 16));
        lemma_step_n_shift(s, 2 * (n / 16) + 1);
    } else {
        assert(n / 16 == 0);
        lemma_step_n_shift(step(s), 0);
        lemma_step_n_shift(s, 1);
        assert(step_n(s, 2) == step(step_n(s, 1)));
    }
}

/// Law (fill/draw equivalence): when the buffer length is a multiple of 16,
/// or its final partial block holds at least 8 bytes, a fill writes exactly
/// the first `n` bytes of the little-endian concatenation of the
/// `fill_draws(n)` draws it makes. (A final partial block of 1 to 7 bytes
/// is instead served from the second word of the last pair, so those
/// lengths are excluded here.)
pub proof fn lemma_fill_matches_draws(s: u128, n: nat)
    requires
        n % 16 == 0 || n % 16 >= 8,
    ensures
        fill_bytes(s, n) == draws_bytes(s, fill_draws(n)).take(n as int),
    decreases n,
{
    let x = draw_out(s);
    let y = draw_out(step(s));
    let s2 = step(step(s));
    if n == 0 {
        assert(fill_bytes(s, n) =~= draws_bytes(s, fill_draws(n)).take(0));
    } else if n < 16 {
        assert(n / 16 == 0);
        assert(draws_bytes(s2, 0) =~= Seq::<u8>::empty());
        assert(draws_bytes(step(s), 1) =~= le8(y));
        assert(draws_bytes(s, 2) == le8(x) + draws_bytes(step(s), 1));
        assert(fill_bytes(s, n) =~= draws_bytes(s, 2).take(n as int));
    } else {
        vstd::arithmetic::div_mod::lemma_div_minus_one(n as int, 16);
        vstd::arithmetic::div_mod::lemma_mod_sub_multiples_vanish(n as int, 16);
        let m = (n - 16) as nat;
        assert(m % 16 == 0 || m % 16 >= 8);
        lemma_fill_matches_draws(s2, m);
        assert(m / 16 + 1 == n / 16);
        let k = fill_draws(n);
        assert(k >= 4);
        assert(draws_bytes(s, k) == le8(x) + draws_bytes(step(s), (k - 1) as nat));
        assert(draws_bytes(step(s), (k - 1) as nat) == le8(y) + draws_bytes(s2, (k - 2) as nat));
        lemma_draws_bytes_len(s2, (k - 2) as nat);
        assert(fill_bytes_pos(s, n) == le8(x) + le8(y) + fill_bytes_pos(s2, m));
        if m == 0 {
            assert(fill_bytes_pos(s2, 0) =~= Seq::<u8>::empty());
            assert(fill_bytes(s, n) =~= draws_bytes(s, k).take(n as int));
        } else {
            assert(fill_draws(m) == k - 2);
            assert(fill_bytes(s2, m) == draws_bytes(s2, (k - 2) as nat).take(m as int));
            assert(fill_bytes(s, n) =~= draws_bytes(s, k).take(n as int));
        }
    }
}

} // verus!
