//! Bulk byte filling: repeated scalar draws written little-endian into a
//! byte buffer, with tail handling for lengths that are not a multiple of
//! one 16-byte block.

use crate::rng::draw_out;
use crate::rng::step;
use crate::rng::Rng;
use vstd::prelude::*;

verus! {

/// The 8 bytes of `x` in little-endian order.
pub open spec fn le8(x: u64) -> Seq<u8> {
    Seq::new(8, |i: int| ((x >> ((8 * i) as u64)) & 0xff) as u8)
}

/// The bytes a fill writes once it is under way with `n` buffer positions
/// still unwritten. One more pair of words is always drawn, even when `n`
/// is 0; a full block writes both words and recurses; a partial block
/// writes the first word only when at least 8 bytes remain, then the low
/// bytes of the second word.
pub open spec fn fill_bytes_pos(s: u128, n: nat) -> Seq<u8>
    decreases n,
{
    let x = draw_out(s);
    let y = draw_out(step(s));
    if n >= 16 {
        le8(x) + le8(y) + fill_bytes_pos(step(step(s)), (n - 16) as nat)
    } else if n >= 8 {
        le8(x) + le8(y).take(n - 8)
    } else {
        le8(y).take(n as int)
    }
}

/// The bytes a fill of a length-`n` buffer writes from state `s`.
pub open spec fn fill_bytes(s: u128, n: nat) -> Seq<u8> {
    if n == 0 {
        Seq::empty()
    } else {
        fill_bytes_pos(s, n)
    }
}

/// The generator state a fill leaves behind once it is under way with `n`
/// buffer positions still unwritten.
pub open spec fn fill_state_pos(s: u128, n: nat) -> u128
    decreases n,
{
    if n >= 16 {
        fill_state_pos(step(step(s)), (n - 16) as nat)
    } else {
        step(step(s))
    }
}

/// The generator state a fill of a length-`n` buffer leaves behind,
/// starting from state `s`. A fill of an empty buffer draws nothing.
pub open spec fn fill_state(s: u128, n: nat) -> u128 {
    if n == 0 {
        s
    } else {
        fill_state_pos(s, n)
    }
}

/// Writes the 8 little-endian bytes of `x` at positions `i..i+8` of `dst`,
/// leaving every other position unchanged.
fn write8(dst: &mut Vec<u8>, i: usize, x: u64)
    requires
        i + 8 <= old(dst).len(),
    ensures
        final(dst)@.len() == old(dst)@.len(),
        final(dst)@.subrange(i as int, i + 8) == le8(x),
        forall|k: int|
            0 <= k < final(dst)@.len() && !(i <= k < i + 8) ==> final(dst)@[k] == old(dst)@[k],
{
    let n = dst.len();
    let mut j: usize = 0;
    while j < 8
        invariant
            j <= 8,
            n == dst@.len(),
            i + 8 <= dst@.len(),
            dst@.len() == old(dst)@.len(),
            forall|k: int| 0 <= k < j ==> dst@[i + k] == le8(x)[k],
            forall|k: int| 0 <= k < dst@.len() && !(i <= k < i + j) ==> dst@[k] == old(dst)@[k],
        decreases 8 - j,
    {
        let sh: u64 = 8 * (j as u64);
        proof {
            assert((x >> sh) & 0xff <= 0xff) by (bit_vector);
        }
        dst.set(i + j, ((x >> sh) & 0xff) as u8);
        j += 1;
    }
    proof {
        assert(dst@.subrange(i as int, i + 8) =~= le8(x));
    }
}

impl Rng {
    /// Fills a buffer with i.i.d. bytes sampled from the uniform
    /// distribution. Two words are drawn per 16-byte block; when fewer than
    /// 16 bytes remain, a last pair is still drawn, and the remainder is
    /// written from it: the first word's bytes if at least 8 remain, then
    /// the low bytes of the second word. An empty buffer draws nothing.
    pub fn fill_u8(&mut self, dst: &mut Vec<u8>)
        ensures
            final(dst)@ == fill_bytes(old(self)@, old(dst)@.len() as nat),
            final(dst)@.len() == old(dst)@.len(),
            final(self)@ == fill_state(old(self)@, old(dst)@.len() as nat),
            final(self)@ != 0,
    {
        proof {
            use_type_invariant(&*self);
            self.lemma_view_nonzero();
        }
        let ghost s0 = self@;
        let n = dst.len();
        if n == 0 {
            return ;
        }
        let mut i: usize = 0;
        let mut x: u64 = 0;
        let mut y: u64 = 0;
        proof {
            assert(fill_bytes(s0, n as nat) =~= dst@.take(0) + fill_bytes_pos(self@, n as nat));
        }
        loop
            invariant_except_break
                i % 16 == 0,
                i <= n,
                n >= 1,
                dst@.len() == n,
                self@ != 0,
                fill_bytes(s0, n as nat) == dst@.take(i as int) + fill_bytes_pos(
                    self@,
                    (n - i) as nat,
                ),
                fill_state(s0, n as nat) == fill_state_pos(self@, (n - i) as nat),
            ensures
                i <= n,
                n - i < 16,
                dst@.len() == n,
                self@ != 0,
                fill_state(s0, n as nat) == self@,
                fill_bytes(s0, n as nat) == dst@.take(i as int) + (if n - i >= 8 {
                    le8(x) + le8(y).take(n - i - 8)
                } else {
                    le8(y).take(n - i)
                }),
            decreases n - i,
        {
            let ghost sm = self@;
            x = self.u64();
            y = self.u64();
            if n - i < 16 {
                break ;
            }
            let ghost pre = dst@;
            write8(dst, i, x);
            let ghost mid = dst@;
            write8(dst, i + 8, y);
            proof {
                assert(dst@.take(i as int) =~= pre.take(i as int));
                assert(dst@.subrange(i as int, i + 8) =~= mid.subrange(i as int, i + 8));
                assert(dst@.take(i + 16) =~= dst@.take(i as int) + dst@.subrange(i as int, i + 8)
                    + dst@.subrange(i + 8, i + 16));
                assert(fill_bytes_pos(sm, (n - i) as nat) =~= le8(x) + le8(y) + fill_bytes_pos(
                    self@,
                    (n - i - 16) as nat,
                ));
                assert(dst@.take(i as int) + (le8(x) + le8(y) + fill_bytes_pos(
                    self@,
                    (n - i - 16) as nat,
                )) =~= dst@.take(i + 16) + fill_bytes_pos(self@, (n - i - 16) as nat));
            }
            i = i + 16;
        }
        if n - i >= 8 {
            let ghost pre = dst@;
            write8(dst, i, x);
            proof {
                assert(dst@.take(i as int) =~= pre.take(i as int));
                assert(dst@.take(i + 8) =~= dst@.take(i as int) + dst@.subrange(i as int, i + 8));
                assert(dst@.take(i as int) + (le8(x) + le8(y).take(n - i - 8)) =~= dst@.take(i + 8)
                    + le8(y).take(n - (i + 8)));
            }
            i = i + 8;
        }
        let ghost t0 = i as int;
        let ghost y0 = y;
        proof {
            assert(y0 >> 0u64 == y0) by (bit_vector);
            assert(le8(y0).take(n - t0) =~= le8(y0).subrange(i - t0, n - t0));
        }
        while i < n
            invariant
                t0 <= i <= n,
                n - t0 <= 7,
                dst@.len() == n,
                self@ != 0,
                y == y0 >> ((8 * (i - t0)) as u64),
                fill_state(s0, n as nat) == self@,
                fill_bytes(s0, n as nat) == dst@.take(i as int) + le8(y0).subrange(
                    i - t0,
                    n - t0,
                ),
            decreases n - i,
        {
            let ghost pre = dst@;
            let ghost sh = ((8 * (i - t0)) as u64);
            let ghost sh2 = ((8 * (i + 1 - t0)) as u64);
            proof {
                assert((y0 >> sh) & 0xff <= 0xff) by (bit_vector);
                assert(sh <= 48 && sh2 == sh + 8 ==> (y0 >> sh) >> 8 == y0 >> sh2) by (bit_vector);
            }
            dst.set(i, (y & 0xff) as u8);
            proof {
                assert(dst@[i as int] == le8(y0)[i - t0]);
                assert(dst@.take(i as int) =~= pre.take(i as int));
                assert(dst@.take(i + 1) =~= dst@.take(i as int) + le8(y0).subrange(
                    i - t0,
                    i + 1 - t0,
                ));
                assert(le8(y0).subrange(i - t0, n - t0) =~= le8(y0).subrange(i - t0, i + 1 - t0)
                    + le8(y0).subrange(i + 1 - t0, n - t0));
            }
            y = y >> 8;
            i = i + 1;
        }
        proof {
            assert(le8(y0).subrange(n - t0, n - t0) =~= Seq::<u8>::empty());
            assert(dst@.take(n as int) + Seq::<u8>::empty() =~= dst@);
        }
    }
}

} // verus!
