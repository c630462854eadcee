//! The sprite-drawing algorithm and its specification.
//!
//! A sprite is `n` rows of 8 pixels, read from memory at the index
//! register. Row `r`, bit `b` lands on pixel `((x0+b) mod 64, (y0+r) mod 32)`
//! — each coordinate wraps individually — and is xored onto the frame
//! buffer. The draw collides when some set sprite bit lands on a pixel
//! that was already set.

use vstd::prelude::*;
use vstd::arithmetic::div_mod::{
    lemma_fundamental_div_mod,
    lemma_fundamental_div_mod_converse,
    lemma_mod_bound,
    lemma_mod_equivalence,
    lemma_small_mod,
};
use crate::type_defs::{
    pixel_index, FrameBuffer, N_FRAMEBUFFER_HEIGHT, N_FRAMEBUFFER_WIDTH, N_MEMORY, N_PIXELS,
};

verus! {

/// The sprite row byte for row `r`: memory at the index register plus `r`,
/// with wrap-around addressing.
pub open spec fn sprite_row(mem: Seq<u8>, i: u16, r: int) -> u8 {
    mem[(i + r) % (N_MEMORY as int)]
}

/// Whether bit `b` (leftmost bit first) of sprite row `r` is set.
pub open spec fn sprite_pixel(mem: Seq<u8>, i: u16, r: int, b: int) -> bool {
    (sprite_row(mem, i, r) >> ((7 - b) as u8)) & 1 == 1
}

/// The flat frame-buffer index that row `r`, bit `b` of a sprite drawn at
/// origin (x0, y0) lands on: each coordinate wraps individually.
pub open spec fn target_pixel(x0: u8, y0: u8, r: int, b: int) -> int {
    ((x0 + b) % (N_FRAMEBUFFER_WIDTH as int)) * 32 + ((y0 + r) % (N_FRAMEBUFFER_HEIGHT as int))
}

/// Whether drawing the `n`-row sprite at (x0, y0) toggles pixel `p`: some
/// set sprite bit lands on `p`.
pub open spec fn flips(mem: Seq<u8>, i: u16, x0: u8, y0: u8, n: u8, p: int) -> bool {
    exists|r: int, b: int|
        #![trigger sprite_pixel(mem, i, r, b), target_pixel(x0, y0, r, b)]
        0 <= r < n && 0 <= b < 8 && sprite_pixel(mem, i, r, b) && target_pixel(x0, y0, r, b) == p
}

/// The frame buffer after the `n`-row sprite at Memory[I..] is xor-drawn
/// at origin (x0, y0): exactly the pixels some set sprite bit lands on
/// are toggled.
pub open spec fn draw_fb(fb: Seq<bool>, mem: Seq<u8>, i: u16, x0: u8, y0: u8, n: u8) -> Seq<
    bool,
> {
    Seq::new(
        N_PIXELS as nat,
        |p: int|
            if flips(mem, i, x0, y0, n, p) {
                !fb[p]
            } else {
                fb[p]
            },
    )
}

/// Whether the draw collides: some set sprite bit lands on a pixel that
/// is set in `fb` (and so erases it).
pub open spec fn draw_collision(fb: Seq<bool>, mem: Seq<u8>, i: u16, x0: u8, y0: u8, n: u8) -> bool {
    exists|r: int, b: int|
        #![trigger sprite_pixel(mem, i, r, b), target_pixel(x0, y0, r, b)]
        0 <= r < n && 0 <= b < 8 && sprite_pixel(mem, i, r, b) && fb[target_pixel(x0, y0, r, b)]
}

/// The frame buffer after the first `k` single-bit draw steps, in row-major
/// order: step `j` handles row `j / 8`, bit `j % 8`.
spec fn draw_step(fb: Seq<bool>, mem: Seq<u8>, i: u16, x0: u8, y0: u8, k: int) -> Seq<bool>
    decreases k,
{
    if k <= 0 {
        fb
    } else {
        let r: int = (k - 1) / 8;
        let b: int = (k - 1) % 8;
        let prev: Seq<bool> = draw_step(fb, mem, i, x0, y0, k - 1);
        if sprite_pixel(mem, i, r, b) {
            prev.update(target_pixel(x0, y0, r, b), !prev[target_pixel(x0, y0, r, b)])
        } else {
            prev
        }
    }
}

/// Whether a collision has been found within the first `k` draw steps.
spec fn coll_step(fb: Seq<bool>, mem: Seq<u8>, i: u16, x0: u8, y0: u8, k: int) -> bool
    decreases k,
{
    if k <= 0 {
        false
    } else {
        let r: int = (k - 1) / 8;
        let b: int = (k - 1) % 8;
        let prev: Seq<bool> = draw_step(fb, mem, i, x0, y0, k - 1);
        coll_step(fb, mem, i, x0, y0, k - 1) || (sprite_pixel(mem, i, r, b) && prev[target_pixel(
            x0,
            y0,
            r,
            b,
        )])
    }
}

/// Whether one of the first `k` draw steps has a set sprite bit landing
/// on pixel `p`.
spec fn flips_step(mem: Seq<u8>, i: u16, x0: u8, y0: u8, k: int, p: int) -> bool {
    exists|r: int, b: int|
        #![trigger sprite_pixel(mem, i, r, b), target_pixel(x0, y0, r, b)]
        0 <= r && 0 <= b < 8 && 8 * r + b < k && sprite_pixel(mem, i, r, b) && target_pixel(
            x0,
            y0,
            r,
            b,
        ) == p
}

/// Every sprite bit lands inside the frame buffer.
pub proof fn lemma_target_bounds(x0: u8, y0: u8, r: int, b: int)
    requires
        0 <= r,
        0 <= b,
    ensures
        0 <= target_pixel(x0, y0, r, b) < N_PIXELS,
{
    lemma_mod_bound(x0 + b, 64);
    lemma_mod_bound(y0 + r, 32);
}

/// Within one sprite, distinct (row, bit) pairs land on distinct pixels:
/// rows stay distinct modulo the frame-buffer height and bits modulo its
/// width.
pub proof fn lemma_target_injective(x0: u8, y0: u8, r1: int, b1: int, r2: int, b2: int)
    requires
        0 <= r1 < 32,
        0 <= b1 < 64,
        0 <= r2 < 32,
        0 <= b2 < 64,
        target_pixel(x0, y0, r1, b1) == target_pixel(x0, y0, r2, b2),
    ensures
        r1 == r2,
        b1 == b2,
{
    let c1: int = (x0 + b1) % 64;
    let d1: int = (y0 + r1) % 32;
    let c2: int = (x0 + b2) % 64;
    let d2: int = (y0 + r2) % 32;
    lemma_mod_bound(x0 + b1, 64);
    lemma_mod_bound(y0 + r1, 32);
    lemma_mod_bound(x0 + b2, 64);
    lemma_mod_bound(y0 + r2, 32);
    assert(c1 == c2 && d1 == d2);
    lemma_mod_diff_zero(y0 as int, r1, r2, 32);
    lemma_mod_diff_zero(x0 as int, b1, b2, 64);
}

/// If base + a and base + b agree modulo m and a, b both lie in [0, m),
/// then a == b.
proof fn lemma_mod_diff_zero(base: int, a: int, b: int, m: int)
    requires
        m > 0,
        0 <= a < m,
        0 <= b < m,
        (base + a) % m == (base + b) % m,
    ensures
        a == b,
{
    lemma_mod_equivalence(base + a, base + b, m);
    assert((a - b) % m == 0);
    if a >= b {
        lemma_small_mod((a - b) as nat, m as nat);
    } else {
        lemma_mod_equivalence(base + b, base + a, m);
        lemma_small_mod((b - a) as nat, m as nat);
    }
}

/// After the first `k` draw steps the frame buffer differs from the
/// original exactly at the pixels a set bit of one of those steps lands
/// on, and a collision has been found exactly when such a pixel was set
/// originally. (Bounding `k` keeps all rows below the frame-buffer
/// height, so distinct steps touch distinct pixels.)
proof fn lemma_draw_step_char(fb: Seq<bool>, mem: Seq<u8>, i: u16, x0: u8, y0: u8, k: int)
    requires
        fb.len() == N_PIXELS,
        0 <= k <= 256,
    ensures
        draw_step(fb, mem, i, x0, y0, k).len() == N_PIXELS,
        forall|p: int|
            0 <= p < N_PIXELS ==> #[trigger] draw_step(fb, mem, i, x0, y0, k)[p] == (if flips_step(
                mem,
                i,
                x0,
                y0,
                k,
                p,
            ) {
                !fb[p]
            } else {
                fb[p]
            }),
        coll_step(fb, mem, i, x0, y0, k) == (exists|p: int|
            0 <= p < N_PIXELS && #[trigger] flips_step(mem, i, x0, y0, k, p) && fb[p]),
    decreases k,
{
    if k <= 0 {
        assert(forall|p: int|
            0 <= p < N_PIXELS ==> !flips_step(mem, i, x0, y0, k, p));
    } else {
        lemma_draw_step_char(fb, mem, i, x0, y0, k - 1);
        let r: int = (k - 1) / 8;
        let b: int = (k - 1) % 8;
        lemma_mod_bound(k - 1, 8);
        lemma_fundamental_div_mod(k - 1, 8);
        assert(8 * r + b == k - 1);
        assert(0 <= r < 32);
        let p0: int = target_pixel(x0, y0, r, b);
        lemma_target_bounds(x0, y0, r, b);
        let prev: Seq<bool> = draw_step(fb, mem, i, x0, y0, k - 1);

        // Any step strictly before k-1 lands elsewhere than p0, and the
        // step at k-1 is exactly (r, b).
        assert forall|rr: int, bb: int|
            0 <= rr && 0 <= bb < 8 && 8 * rr + bb < k && sprite_pixel(mem, i, rr, bb)
                && target_pixel(x0, y0, rr, bb) == p0 implies rr == r && bb == b by {
            assert(8 * rr <= 8 * rr + bb < 256);
            assert(rr < 32);
            lemma_target_injective(x0, y0, rr, bb, r, b);
        }
        assert(!flips_step(mem, i, x0, y0, k - 1, p0));
        assert(prev[p0] == fb[p0]);

        // Pixels other than p0 are flipped by the first k steps exactly
        // when they are flipped by the first k-1 steps.
        assert forall|p: int| 0 <= p < N_PIXELS && p != p0 implies flips_step(
            mem,
            i,
            x0,
            y0,
            k,
            p,
        ) == flips_step(mem, i, x0, y0, k - 1, p) by {
            if flips_step(mem, i, x0, y0, k, p) {
                let (rr, bb): (int, int) = choose|rr: int, bb: int|
                    #![trigger sprite_pixel(mem, i, rr, bb), target_pixel(x0, y0, rr, bb)]
                    0 <= rr && 0 <= bb < 8 && 8 * rr + bb < k && sprite_pixel(mem, i, rr, bb)
                        && target_pixel(x0, y0, rr, bb) == p;
                if 8 * rr + bb == k - 1 {
                    lemma_fundamental_div_mod_converse(k - 1, 8, rr, bb);
                    assert(rr == r && bb == b);
                    assert(p == p0);
                } else {
                    assert(8 * rr + bb < k - 1);
                    assert(flips_step(mem, i, x0, y0, k - 1, p));
                }
            }
            if flips_step(mem, i, x0, y0, k - 1, p) {
                assert(flips_step(mem, i, x0, y0, k, p));
            }
        }

        if sprite_pixel(mem, i, r, b) {
            // Step k-1 toggles p0.
            assert(draw_step(fb, mem, i, x0, y0, k) == prev.update(p0, !prev[p0]));
            assert(flips_step(mem, i, x0, y0, k, p0));
            assert(coll_step(fb, mem, i, x0, y0, k) == (coll_step(fb, mem, i, x0, y0, k - 1)
                || fb[p0]));
            if coll_step(fb, mem, i, x0, y0, k - 1) {
                let pw: int = choose|pw: int|
                    0 <= pw < N_PIXELS && #[trigger] flips_step(mem, i, x0, y0, k - 1, pw)
                        && fb[pw];
                assert(flips_step(mem, i, x0, y0, k, pw));
            }
            if fb[p0] {
                assert(flips_step(mem, i, x0, y0, k, p0));
            }
            if exists|p: int|
                0 <= p < N_PIXELS && #[trigger] flips_step(mem, i, x0, y0, k, p) && fb[p] {
                let pw: int = choose|pw: int|
                    0 <= pw < N_PIXELS && #[trigger] flips_step(mem, i, x0, y0, k, pw) && fb[pw];
                if pw != p0 {
                    assert(flips_step(mem, i, x0, y0, k - 1, pw));
                }
            }
        } else {
            // Step k-1 is a no-op: the bit at (r, b) is clear, so no step
            // below k lands a set bit anywhere new.
            assert(draw_step(fb, mem, i, x0, y0, k) == prev);
            assert forall|p: int| 0 <= p < N_PIXELS implies flips_step(mem, i, x0, y0, k, p)
                == flips_step(mem, i, x0, y0, k - 1, p) by {
                if flips_step(mem, i, x0, y0, k, p) {
                    let (rr, bb): (int, int) = choose|rr: int, bb: int|
                        #![trigger sprite_pixel(mem, i, rr, bb), target_pixel(x0, y0, rr, bb)]
                        0 <= rr && 0 <= bb < 8 && 8 * rr + bb < k && sprite_pixel(mem, i, rr, bb)
                            && target_pixel(x0, y0, rr, bb) == p;
                    if 8 * rr + bb == k - 1 {
                        lemma_fundamental_div_mod_converse(k - 1, 8, rr, bb);
                        assert(false);
                    } else {
                        assert(flips_step(mem, i, x0, y0, k - 1, p));
                    }
                }
                if flips_step(mem, i, x0, y0, k - 1, p) {
                    assert(flips_step(mem, i, x0, y0, k, p));
                }
            }
            assert(coll_step(fb, mem, i, x0, y0, k) == coll_step(fb, mem, i, x0, y0, k - 1));
            if exists|p: int|
                0 <= p < N_PIXELS && #[trigger] flips_step(mem, i, x0, y0, k, p) && fb[p] {
                let pw: int = choose|pw: int|
                    0 <= pw < N_PIXELS && #[trigger] flips_step(mem, i, x0, y0, k, pw) && fb[pw];
                assert(flips_step(mem, i, x0, y0, k - 1, pw));
            }
            if coll_step(fb, mem, i, x0, y0, k - 1) {
                let pw: int = choose|pw: int|
                    0 <= pw < N_PIXELS && #[trigger] flips_step(mem, i, x0, y0, k - 1, pw)
                        && fb[pw];
                assert(flips_step(mem, i, x0, y0, k, pw));
            }
        }
    }
}

/// Running all `8 * n` draw steps yields exactly the one-shot drawing
/// specification, both for the frame buffer and for the collision flag.
proof fn lemma_draw_step_complete(fb: Seq<bool>, mem: Seq<u8>, i: u16, x0: u8, y0: u8, n: u8)
    requires
        fb.len() == N_PIXELS,
        n <= 15,
    ensures
        draw_step(fb, mem, i, x0, y0, 8 * n) == draw_fb(fb, mem, i, x0, y0, n),
        coll_step(fb, mem, i, x0, y0, 8 * n) == draw_collision(fb, mem, i, x0, y0, n),
{
    lemma_draw_step_char(fb, mem, i, x0, y0, 8 * n);
    assert forall|p: int| #[trigger] flips_step(mem, i, x0, y0, 8 * n, p) == flips(
        mem,
        i,
        x0,
        y0,
        n,
        p,
    ) by {
        if flips_step(mem, i, x0, y0, 8 * n, p) {
            let (rr, bb): (int, int) = choose|rr: int, bb: int|
                #![trigger sprite_pixel(mem, i, rr, bb), target_pixel(x0, y0, rr, bb)]
                0 <= rr && 0 <= bb < 8 && 8 * rr + bb < 8 * n && sprite_pixel(mem, i, rr, bb)
                    && target_pixel(x0, y0, rr, bb) == p;
            assert(8 * rr < 8 * n);
            assert(rr < n);
            assert(flips(mem, i, x0, y0, n, p));
        }
        if flips(mem, i, x0, y0, n, p) {
            let (rr, bb): (int, int) = choose|rr: int, bb: int|
                #![trigger sprite_pixel(mem, i, rr, bb), target_pixel(x0, y0, rr, bb)]
                0 <= rr < n && 0 <= bb < 8 && sprite_pixel(mem, i, rr, bb) && target_pixel(
                    x0,
                    y0,
                    rr,
                    bb,
                ) == p;
            assert(8 * rr + bb < 8 * n);
            assert(flips_step(mem, i, x0, y0, 8 * n, p));
        }
    }
    assert(draw_step(fb, mem, i, x0, y0, 8 * n) =~= draw_fb(fb, mem, i, x0, y0, n));
    if coll_step(fb, mem, i, x0, y0, 8 * n) {
        let pw: int = choose|pw: int|
            0 <= pw < N_PIXELS && #[trigger] flips_step(mem, i, x0, y0, 8 * n, pw) && fb[pw];
        let (rr, bb): (int, int) = choose|rr: int, bb: int|
            #![trigger sprite_pixel(mem, i, rr, bb), target_pixel(x0, y0, rr, bb)]
            0 <= rr && 0 <= bb < 8 && 8 * rr + bb < 8 * n && sprite_pixel(mem, i, rr, bb)
                && target_pixel(x0, y0, rr, bb) == pw;
        assert(rr < n);
        assert(draw_collision(fb, mem, i, x0, y0, n));
    }
    if draw_collision(fb, mem, i, x0, y0, n) {
        let (rr, bb): (int, int) = choose|rr: int, bb: int|
            #![trigger sprite_pixel(mem, i, rr, bb), target_pixel(x0, y0, rr, bb)]
            0 <= rr < n && 0 <= bb < 8 && sprite_pixel(mem, i, rr, bb) && fb[target_pixel(
                x0,
                y0,
                rr,
                bb,
            )];
        let pw: int = target_pixel(x0, y0, rr, bb);
        lemma_target_bounds(x0, y0, rr, bb);
        assert(8 * rr + bb < 8 * n);
        assert(flips_step(mem, i, x0, y0, 8 * n, pw));
        assert(coll_step(fb, mem, i, x0, y0, 8 * n));
    }
}

/// Drawing is an involution: drawing the same sprite twice at the same
/// origin restores the frame buffer exactly, so the second draw clears
/// every pixel the first one set.
pub proof fn lemma_draw_twice_restores(fb: Seq<bool>, mem: Seq<u8>, i: u16, x0: u8, y0: u8, n: u8)
    requires
        fb.len() == N_PIXELS,
    ensures
        draw_fb(draw_fb(fb, mem, i, x0, y0, n), mem, i, x0, y0, n) == fb,
{
    let fb1: Seq<bool> = draw_fb(fb, mem, i, x0, y0, n);
    assert(draw_fb(fb1, mem, i, x0, y0, n) =~= fb);
}

/// On a blank screen, drawing a sprite and then drawing it again at the
/// same origin collides exactly when the sprite has any set bit in its
/// `n` rows: every set bit's pixel was turned on by the first draw.
pub proof fn lemma_second_draw_collides(fb: Seq<bool>, mem: Seq<u8>, i: u16, x0: u8, y0: u8, n: u8)
    requires
        fb.len() == N_PIXELS,
        forall|p: int| 0 <= p < N_PIXELS ==> !fb[p],
    ensures
        draw_collision(draw_fb(fb, mem, i, x0, y0, n), mem, i, x0, y0, n) == (exists|r: int, b: int|
            0 <= r < n && 0 <= b < 8 && #[trigger] sprite_pixel(mem, i, r, b)),
{
    let fb1: Seq<bool> = draw_fb(fb, mem, i, x0, y0, n);
    if exists|r: int, b: int| 0 <= r < n && 0 <= b < 8 && #[trigger] sprite_pixel(mem, i, r, b) {
        let (r, b): (int, int) = choose|r: int, b: int|
            0 <= r < n && 0 <= b < 8 && #[trigger] sprite_pixel(mem, i, r, b);
        lemma_target_bounds(x0, y0, r, b);
        assert(flips(mem, i, x0, y0, n, target_pixel(x0, y0, r, b)));
        assert(fb1[target_pixel(x0, y0, r, b)]);
        assert(draw_collision(fb1, mem, i, x0, y0, n));
    }
}

/// Drawing one sprite does not make a second, non-overlapping draw
/// collide: when no set bit of the second sprite lands on a pixel that
/// was set or that the first draw touches, the second draw's flag stays
/// clear.
pub proof fn lemma_disjoint_draws_no_collision(
    fb: Seq<bool>,
    mem: Seq<u8>,
    i1: u16,
    x1: u8,
    y1: u8,
    n1: u8,
    i2: u16,
    x2: u8,
    y2: u8,
    n2: u8,
)
    requires
        fb.len() == N_PIXELS,
        forall|r: int, b: int|
            0 <= r < n2 && 0 <= b < 8 && #[trigger] sprite_pixel(mem, i2, r, b)
                ==> !fb[target_pixel(x2, y2, r, b)] && !flips(
                mem,
                i1,
                x1,
                y1,
                n1,
                target_pixel(x2, y2, r, b),
            ),
    ensures
        !draw_collision(draw_fb(fb, mem, i1, x1, y1, n1), mem, i2, x2, y2, n2),
{
    let fb1: Seq<bool> = draw_fb(fb, mem, i1, x1, y1, n1);
    assert forall|r: int, b: int|
        0 <= r < n2 && 0 <= b < 8 && #[trigger] sprite_pixel(mem, i2, r, b) implies !fb1[
        target_pixel(x2, y2, r, b)
    ] by {
        lemma_target_bounds(x2, y2, r, b);
    }
}

/// Xor-draw the `n`-row sprite at Memory[I..] onto the frame buffer at
/// origin (x0, y0), one bit at a time in row-major order. Returns whether
/// any set sprite bit erased an already-set pixel.
pub fn draw_sprite(
    x0: u8,
    y0: u8,
    n: u8,
    index_register: u16,
    memory: &Vec<u8>,
    frame_buffer: &mut FrameBuffer,
) -> (collision: bool)
    requires
        memory@.len() == N_MEMORY,
        old(frame_buffer).wf(),
        n <= 15,
    ensures
        final(frame_buffer).wf(),
        final(frame_buffer)@ == draw_fb(old(frame_buffer)@, memory@, index_register, x0, y0, n),
        collision == draw_collision(old(frame_buffer)@, memory@, index_register, x0, y0, n),
{
    let ghost fb0: Seq<bool> = frame_buffer@;
    let mut collision: bool = false;
    let total: usize = 8 * (n as usize);
    let mut k: usize = 0;
    while k < total
        invariant
            memory@.len() == N_MEMORY,
            frame_buffer.wf(),
            total == 8 * n,
            k <= total,
            fb0.len() == N_PIXELS,
            frame_buffer@ == draw_step(fb0, memory@, index_register, x0, y0, k as int),
            collision == coll_step(fb0, memory@, index_register, x0, y0, k as int),
        decreases total - k,
    {
        let row: usize = k / 8;
        let bit: usize = k % 8;
        let byte: u8 = memory[(index_register as usize + row) % N_MEMORY];
        let sh: u8 = (7 - bit) as u8;
        let set_bit: bool = ((byte >> sh) & 1) == 1;
        proof {
            assert(byte == sprite_row(memory@, index_register, row as int));
            assert(set_bit == sprite_pixel(memory@, index_register, row as int, bit as int));
        }
        if set_bit {
            let x: usize = (x0 as usize + bit) % N_FRAMEBUFFER_WIDTH;
            let y: usize = (y0 as usize + row) % N_FRAMEBUFFER_HEIGHT;
            let cur: bool = frame_buffer.get(x, y);
            if cur {
                collision = true;
            }
            frame_buffer.set(x, y, !cur);
            proof {
                assert(pixel_index(x as int, y as int) == target_pixel(
                    x0,
                    y0,
                    row as int,
                    bit as int,
                ));
                assert(frame_buffer@ == draw_step(
                    fb0,
                    memory@,
                    index_register,
                    x0,
                    y0,
                    k + 1,
                ));
                assert(collision == coll_step(fb0, memory@, index_register, x0, y0, k + 1));
            }
        } else {
            proof {
                assert(frame_buffer@ == draw_step(
                    fb0,
                    memory@,
                    index_register,
                    x0,
                    y0,
                    k + 1,
                ));
                assert(collision == coll_step(fb0, memory@, index_register, x0, y0, k + 1));
            }
        }
        k = k + 1;
    }
    proof {
        lemma_draw_step_complete(fb0, memory@, index_register, x0, y0, n);
    }
    collision
}

} // verus!
