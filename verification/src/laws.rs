//! Laws relating several operations of the machine: what the draw collision
//! flag reports across repeated draws, how the clear/blend timing behaves,
//! and that a subroutine return undoes a call.

use vstd::prelude::*;

use crate::{call_post, return_post, Chip8View, FRAME_SIZE, STACK_LIMIT};
use crate::display::{
    clear_post, cur_frame, disp_frame, draw_collides, draw_post, fb_bit, lemma_pix_range, pix,
    sprite_bit, sprite_covers, N_PIXELS,
};

verus! {

/// A draw over an all-clear frame never reports a collision, whatever the
/// sprite: no set sprite bit can land on an already-set pixel.
pub proof fn lemma_first_draw_no_collision(
    mem: Seq<u8>,
    i: int,
    vx: u8,
    vy: u8,
    n: int,
    frame: Seq<u8>,
)
    requires
        forall|p: int| 0 <= p < N_PIXELS ==> !fb_bit(frame, p),
    ensures
        !draw_collides(mem, i, vx, vy, n, frame),
{
    if draw_collides(mem, i, vx, vy, n, frame) {
        let (yy, xx) = choose|yy: int, xx: int|
            0 <= yy && 0 <= xx < 8 && (yy < n || (yy == n && xx < 0)) && sprite_bit(mem[i + yy], xx)
                && fb_bit(frame, pix(vx, vy, xx, yy));
        lemma_pix_range(vx, vy, xx, yy);
        assert(false);
    }
}

/// Drawing a non-blank sprite onto an all-clear frame and then drawing the
/// identical sprite again at the same coordinates always collides: the second
/// draw fully overlaps the pixels the first one set.  `frame1` is the frame
/// the first draw produced.
pub proof fn lemma_redraw_collides(
    mem: Seq<u8>,
    i: int,
    vx: u8,
    vy: u8,
    n: int,
    frame0: Seq<u8>,
    frame1: Seq<u8>,
)
    requires
        forall|p: int| 0 <= p < N_PIXELS ==> !fb_bit(frame0, p),
        forall|p: int|
            0 <= p < N_PIXELS ==> fb_bit(frame1, p) == (fb_bit(frame0, p) != sprite_covers(
                mem,
                i,
                vx,
                vy,
                n,
                p,
            )),
        exists|x: int, y: int| 0 <= x < 8 && 0 <= y < n && #[trigger] sprite_bit(mem[i + y], x),
    ensures
        draw_collides(mem, i, vx, vy, n, frame1),
{
    let (x, y) = choose|x: int, y: int| 0 <= x < 8 && 0 <= y < n && #[trigger] sprite_bit(mem[i + y], x);
    let p0 = pix(vx, vy, x, y);
    lemma_pix_range(vx, vy, x, y);
    assert(0 <= y && 0 <= x < 8 && (y < n || (y == n && x < 0)) && sprite_bit(mem[i + y], x) && pix(
        vx,
        vy,
        x,
        y,
    ) == p0);
    assert(sprite_covers(mem, i, vx, vy, n, p0));
    assert(fb_bit(frame1, p0));
    assert(draw_collides(mem, i, vx, vy, n, frame1));
}

/// Whether a sprite covers a pixel depends only on the sprite's own rows.
proof fn lemma_covers_same_sprite(
    mem1: Seq<u8>,
    mem2: Seq<u8>,
    i: int,
    vx: u8,
    vy: u8,
    n: int,
    p: int,
)
    requires
        forall|a: int| i <= a < i + n ==> mem1[a] == mem2[a],
    ensures
        sprite_covers(mem1, i, vx, vy, n, p) == sprite_covers(mem2, i, vx, vy, n, p),
{
    if sprite_covers(mem1, i, vx, vy, n, p) {
        let (yy, xx) = choose|yy: int, xx: int|
            0 <= yy && 0 <= xx < 8 && (yy < n || (yy == n && xx < 0)) && sprite_bit(
                mem1[i + yy],
                xx,
            ) && pix(vx, vy, xx, yy) == p;
        assert(mem1[i + yy] == mem2[i + yy]);
        assert(sprite_covers(mem2, i, vx, vy, n, p));
    }
    if sprite_covers(mem2, i, vx, vy, n, p) {
        let (yy, xx) = choose|yy: int, xx: int|
            0 <= yy && 0 <= xx < 8 && (yy < n || (yy == n && xx < 0)) && sprite_bit(
                mem2[i + yy],
                xx,
            ) && pix(vx, vy, xx, yy) == p;
        assert(mem1[i + yy] == mem2[i + yy]);
        assert(sprite_covers(mem1, i, vx, vy, n, p));
    }
}

/// The draw collision flag over two successive draws: on an empty screen the
/// first draw of a sprite reports no collision, and drawing the identical
/// non-blank sprite again at the same coordinates reports one, since the
/// second draw fully overlaps the pixels the first one set.
pub proof fn lemma_draw_self_overlap(
    pre: Chip8View,
    mid: Chip8View,
    post: Chip8View,
    vx: u8,
    vy: u8,
    n: int,
)
    requires
        pre.wf(),
        0 <= pre.i,
        pre.i + n <= crate::STACK_START,
        forall|p: int| 0 <= p < N_PIXELS ==> !fb_bit(cur_frame(pre.mem), p),
        exists|x: int, y: int|
            0 <= x < 8 && 0 <= y < n && #[trigger] sprite_bit(pre.mem[pre.i + y], x),
        draw_post(pre, mid, vx, vy, n),
        draw_post(mid, post, vx, vy, n),
    ensures
        mid.regs[15] == 0,
        post.regs[15] == 1,
{
    lemma_first_draw_no_collision(pre.mem, pre.i, vx, vy, n, cur_frame(pre.mem));
    assert(mid.regs[15] == 0);
    // The first draw left the sprite's own rows untouched, so the second draw
    // reads the identical sprite.
    assert(mid.i == pre.i);
    assert forall|p: int| 0 <= p < N_PIXELS implies fb_bit(cur_frame(mid.mem), p) == (fb_bit(
        cur_frame(pre.mem),
        p,
    ) != sprite_covers(mid.mem, mid.i, vx, vy, n, p)) by {
        lemma_covers_same_sprite(pre.mem, mid.mem, pre.i, vx, vy, n, p);
    };
    let (x, y) = choose|x: int, y: int|
        0 <= x < 8 && 0 <= y < n && #[trigger] sprite_bit(pre.mem[pre.i + y], x);
    assert(sprite_bit(mid.mem[mid.i + y], x));
    assert(exists|x: int, y: int|
        0 <= x < 8 && 0 <= y < n && #[trigger] sprite_bit(mid.mem[mid.i + y], x));
    lemma_redraw_collides(
        mid.mem,
        mid.i,
        vx,
        vy,
        n,
        cur_frame(pre.mem),
        cur_frame(mid.mem),
    );
    assert(post.regs == mid.regs.update(
        15,
        if draw_collides(mid.mem, mid.i, vx, vy, n, cur_frame(mid.mem)) {
            1u8
        } else {
            0u8
        },
    ));
}

/// Immediately after a clear, the display frame still shows the pre-clear
/// authoritative frame, decayed by exactly one blend step, while the
/// authoritative frame itself is already all zero.
pub proof fn lemma_clear_display_decay(v: Chip8View)
    requires
        v.wf(),
    ensures
        disp_frame(clear_post(v).mem) == cur_frame(v.mem),
        forall|k: int| 0 <= k < FRAME_SIZE ==> cur_frame(clear_post(v).mem)[k] == 0u8,
{
    assert(disp_frame(clear_post(v).mem) =~= cur_frame(v.mem));
}

/// One draw after a clear fully propagates the blend: the display frame then
/// equals the new authoritative frame, with no stale pixel bytes left.
pub proof fn lemma_clear_then_draw_blend(
    v: Chip8View,
    post: Chip8View,
    vx: u8,
    vy: u8,
    n: int,
)
    requires
        v.wf(),
        draw_post(clear_post(v), post, vx, vy, n),
    ensures
        forall|k: int| 0 <= k < FRAME_SIZE ==> disp_frame(post.mem)[k] == cur_frame(post.mem)[k],
{
    let cleared = clear_post(v);
    lemma_clear_display_decay(v);
    assert forall|k: int| 0 <= k < FRAME_SIZE implies disp_frame(post.mem)[k] == cur_frame(
        post.mem,
    )[k] by {
        assert(cur_frame(cleared.mem)[k] == 0u8);
        assert(disp_frame(post.mem)[k] == (cur_frame(cleared.mem)[k] | cur_frame(post.mem)[k]));
        let b = cur_frame(post.mem)[k];
        assert(0u8 | b == b) by (bit_vector);
    };
}

/// A subroutine return undoes a call: after 2nnn pushes the return address
/// and 00EE pops it, PC is back at the instruction following the call and SP
/// at its pre-call value; only the two stack bytes the call wrote differ
/// from the pre-call state.
pub proof fn lemma_call_return_round_trip(v: Chip8View, address: int)
    requires
        v.wf(),
        v.sp - 2 >= STACK_LIMIT,
    ensures
        return_post(call_post(v, address)) == (Chip8View { mem: call_post(v, address).mem, ..v }),
        return_post(call_post(v, address)).pc == v.pc,
        return_post(call_post(v, address)).sp == v.sp,
{
    let mid = call_post(v, address);
    vstd::arithmetic::div_mod::lemma_fundamental_div_mod(v.pc, 256);
    assert(mid.mem[mid.sp] == (v.pc / 256) as u8);
    assert(mid.mem[mid.sp + 1] == (v.pc % 256) as u8);
    assert(((v.pc / 256) as u8) * 256 + ((v.pc % 256) as u8) == v.pc);
}

} // verus!
