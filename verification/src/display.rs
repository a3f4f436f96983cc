//! The display subsystem: a 64 x 32 monochrome screen, bit-packed row-major
//! into 256 bytes.  Draw operations XOR an 8-pixel-wide sprite into the
//! authoritative frame with wrap-around coordinates and collision detection.
//! The host-facing display frame is the per-byte OR of the previous and the
//! current authoritative frame, a deliberate smoothing stage that trades one
//! frame of decay for less strobing of thin sprites.

use vstd::prelude::*;

use crate::{Chip8, Chip8View, Chip8Error, FRAME_SIZE, MEMORY_SIZE, NEW_FRAME_START, STACK_START};

verus! {

/// Number of pixels on the screen.
pub const N_PIXELS: usize = 2048;

/// Pixels per row.
pub const SCREEN_WIDTH: usize = 64;

/// Number of rows.
pub const SCREEN_HEIGHT: usize = 32;

/// The byte mask selecting bit `k` of a framebuffer or sprite byte, counting
/// from the most significant bit.
pub open spec fn bit_mask(k: int) -> u8 {
    0x80u8 >> (k as u8)
}

/// Pixel `p` of a 256-byte frame (`p` counts row-major from the top left).
pub open spec fn fb_bit(frame: Seq<u8>, p: int) -> bool {
    frame[p / 8] & bit_mask(p % 8) != 0
}

/// Pixel `p` of the authoritative frame, read out of full machine memory.
pub open spec fn frame_bit(mem: Seq<u8>, p: int) -> bool {
    mem[NEW_FRAME_START + p / 8] & bit_mask(p % 8) != 0
}

/// The screen pixel hit by sprite column `x` of sprite row `y` drawn at
/// origin (`vx`, `vy`): both axes wrap, coordinates never clip.
pub open spec fn pix(vx: u8, vy: u8, x: int, y: int) -> int {
    ((vy + y) % (SCREEN_HEIGHT as int)) * (SCREEN_WIDTH as int) + ((vx + x) % (SCREEN_WIDTH as int))
}

/// Bit `x` of sprite row byte `b`: whether the sprite covers column `x`.
pub open spec fn sprite_bit(b: u8, x: int) -> bool {
    b & bit_mask(x) != 0
}

/// Whether some sprite bit strictly before cursor (`y`, `x`) - rows below
/// `y`, or row `y` left of column `x` - is set and lands on pixel `p`.  The
/// sprite rows start at address `i` of `mem`.
pub open spec fn covers_before(
    mem: Seq<u8>,
    i: int,
    vx: u8,
    vy: u8,
    y: int,
    x: int,
    p: int,
) -> bool {
    exists|yy: int, xx: int|
        0 <= yy && 0 <= xx < 8 && (yy < y || (yy == y && xx < x)) && sprite_bit(mem[i + yy], xx)
            && pix(vx, vy, xx, yy) == p
}

/// Whether the `n`-row sprite at address `i`, drawn at (`vx`, `vy`), covers
/// pixel `p` with a set bit.
pub open spec fn sprite_covers(mem: Seq<u8>, i: int, vx: u8, vy: u8, n: int, p: int) -> bool {
    covers_before(mem, i, vx, vy, n, 0, p)
}

/// Whether some set sprite bit strictly before cursor (`y`, `x`) lands on a
/// pixel already set in `frame`.
pub open spec fn collides_before(
    mem: Seq<u8>,
    i: int,
    vx: u8,
    vy: u8,
    frame: Seq<u8>,
    y: int,
    x: int,
) -> bool {
    exists|yy: int, xx: int|
        0 <= yy && 0 <= xx < 8 && (yy < y || (yy == y && xx < x)) && sprite_bit(mem[i + yy], xx)
            && fb_bit(frame, pix(vx, vy, xx, yy))
}

/// Whether drawing the `n`-row sprite at address `i` over `frame` collides:
/// some set sprite bit lands on an already-set pixel.
pub open spec fn draw_collides(
    mem: Seq<u8>,
    i: int,
    vx: u8,
    vy: u8,
    n: int,
    frame: Seq<u8>,
) -> bool {
    collides_before(mem, i, vx, vy, frame, n, 0)
}

/// The authoritative frame: the framebuffer bytes mutated by draw operations.
pub open spec fn cur_frame(mem: Seq<u8>) -> Seq<u8> {
    mem.subrange(NEW_FRAME_START as int, NEW_FRAME_START as int + FRAME_SIZE as int)
}

/// The display frame: the OR-blended framebuffer bytes the host renders.
pub open spec fn disp_frame(mem: Seq<u8>) -> Seq<u8> {
    mem.subrange(STACK_START as int, STACK_START as int + FRAME_SIZE as int)
}

/// The state after 00E0: the authoritative frame is zeroed and the display
/// slot receives the pre-clear frame, so the host sees one more frame of
/// decay until the next draw propagates the OR-blend.
pub open spec fn clear_post(v: Chip8View) -> Chip8View {
    Chip8View {
        mem: store_range_frames(v.mem, cur_frame(v.mem), Seq::new(FRAME_SIZE as nat, |k: int| 0u8)),
        ..v
    }
}

/// `mem` with the display slot replaced by `disp` and the authoritative
/// frame replaced by `cur`.
pub open spec fn store_range_frames(mem: Seq<u8>, disp: Seq<u8>, cur: Seq<u8>) -> Seq<u8> {
    crate::store_range(
        crate::store_range(mem, STACK_START as int, disp),
        NEW_FRAME_START as int,
        cur,
    )
}

/// How Dxyn transforms the machine: everything below the framebuffers is
/// untouched; each pixel of the authoritative frame is flipped exactly when a
/// set sprite bit lands on it; the display frame becomes the byte-wise OR of
/// the previous and the new authoritative frame; and VF reports whether any
/// set sprite bit landed on a pixel that was already set.
pub open spec fn draw_post(pre: Chip8View, post: Chip8View, vx: u8, vy: u8, n: int) -> bool {
    &&& post.mem.len() == pre.mem.len()
    &&& forall|a: int| 0 <= a < STACK_START ==> post.mem[a] == pre.mem[a]
    &&& forall|p: int|
        0 <= p < N_PIXELS ==> fb_bit(cur_frame(post.mem), p) == (fb_bit(cur_frame(pre.mem), p)
            != sprite_covers(pre.mem, pre.i, vx, vy, n, p))
    &&& forall|j: int|
        0 <= j < FRAME_SIZE ==> disp_frame(post.mem)[j] == (cur_frame(pre.mem)[j] | cur_frame(
            post.mem,
        )[j])
    &&& post.regs == pre.regs.update(
        15,
        if draw_collides(pre.mem, pre.i, vx, vy, n, cur_frame(pre.mem)) {
            1u8
        } else {
            0u8
        },
    )
    &&& post == (Chip8View { mem: post.mem, regs: post.regs, ..pre })
}

/// XORing a one-bit mask into a byte flips exactly that bit.
proof fn lemma_xor_mask_bits(b: u8, k: u8, j: u8)
    requires
        k < 8,
        j < 8,
    ensures
        ((b ^ (0x80u8 >> k)) & (0x80u8 >> j) != 0) == (if j == k {
            (b & (0x80u8 >> j)) == 0
        } else {
            (b & (0x80u8 >> j)) != 0
        }),
{
    assert(((b ^ (0x80u8 >> k)) & (0x80u8 >> j) != 0) == (if j == k {
        (b & (0x80u8 >> j)) == 0
    } else {
        (b & (0x80u8 >> j)) != 0
    })) by (bit_vector)
        requires
            k < 8,
            j < 8,
    ;
}

/// Two naturals closer than `m` with the same residue modulo `m` are equal.
proof fn lemma_mod_eq_small(a: int, b: int, m: int)
    requires
        m > 0,
        0 <= a,
        0 <= b,
        a % m == b % m,
        -m < a - b < m,
    ensures
        a == b,
{
    vstd::arithmetic::div_mod::lemma_fundamental_div_mod(a, m);
    vstd::arithmetic::div_mod::lemma_fundamental_div_mod(b, m);
    let qa = a / m;
    let qb = b / m;
    assert(a - b == m * (qa - qb)) by (nonlinear_arith)
        requires
            a == m * qa + a % m,
            b == m * qb + b % m,
            a % m == b % m,
    ;
    assert(qa == qb) by (nonlinear_arith)
        requires
            a - b == m * (qa - qb),
            -m < a - b < m,
            m > 0,
    ;
}

/// Within one draw no two sprite bits land on the same pixel: the pixel map
/// is injective over the at most 8 x 32 sprite cells.
pub proof fn lemma_pix_inj(vx: u8, vy: u8, x1: int, y1: int, x2: int, y2: int)
    requires
        0 <= x1 < 8,
        0 <= x2 < 8,
        0 <= y1 < 32,
        0 <= y2 < 32,
        pix(vx, vy, x1, y1) == pix(vx, vy, x2, y2),
    ensures
        x1 == x2,
        y1 == y2,
{
    let r1 = (vx + x1) % 64;
    let c1 = (vy + y1) % 32;
    let r2 = (vx + x2) % 64;
    let c2 = (vy + y2) % 32;
    assert(c1 == c2 && r1 == r2);
    lemma_mod_eq_small(vx + x1, vx + x2, 64);
    lemma_mod_eq_small(vy + y1, vy + y2, 32);
}

/// Every sprite cell lands on a real pixel.
pub proof fn lemma_pix_range(vx: u8, vy: u8, x: int, y: int)
    ensures
        0 <= pix(vx, vy, x, y) < N_PIXELS,
{
}

/// Advancing the cursor one column: the covered pixels grow by exactly the
/// cell at the cursor, when its sprite bit is set.
proof fn lemma_covers_step(mem: Seq<u8>, i: int, vx: u8, vy: u8, y: int, x: int, p: int)
    requires
        0 <= x < 8,
        0 <= y,
    ensures
        covers_before(mem, i, vx, vy, y, x + 1, p) == (covers_before(mem, i, vx, vy, y, x, p) || (
        sprite_bit(mem[i + y], x) && pix(vx, vy, x, y) == p)),
{
    if covers_before(mem, i, vx, vy, y, x + 1, p) {
        let (yy, xx) = choose|yy: int, xx: int|
            0 <= yy && 0 <= xx < 8 && (yy < y || (yy == y && xx < x + 1)) && sprite_bit(
                mem[i + yy],
                xx,
            ) && pix(vx, vy, xx, yy) == p;
        if yy < y || (yy == y && xx < x) {
            assert(covers_before(mem, i, vx, vy, y, x, p));
        } else {
            assert(yy == y && xx == x);
        }
    }
    if covers_before(mem, i, vx, vy, y, x, p) {
        let (yy, xx) = choose|yy: int, xx: int|
            0 <= yy && 0 <= xx < 8 && (yy < y || (yy == y && xx < x)) && sprite_bit(mem[i + yy], xx)
                && pix(vx, vy, xx, yy) == p;
        assert(0 <= yy && 0 <= xx < 8 && (yy < y || (yy == y && xx < x + 1)) && sprite_bit(
            mem[i + yy],
            xx,
        ) && pix(vx, vy, xx, yy) == p);
        assert(covers_before(mem, i, vx, vy, y, x + 1, p));
    }
    if sprite_bit(mem[i + y], x) && pix(vx, vy, x, y) == p {
        assert(0 <= y && 0 <= x < 8 && (y < y || (y == y && x < x + 1)) && sprite_bit(mem[i + y], x)
            && pix(vx, vy, x, y) == p);
        assert(covers_before(mem, i, vx, vy, y, x + 1, p));
    }
}

/// A fully processed row moves the cursor to the start of the next row.
proof fn lemma_covers_row(mem: Seq<u8>, i: int, vx: u8, vy: u8, y: int, p: int)
    requires
        0 <= y,
    ensures
        covers_before(mem, i, vx, vy, y, 8, p) == covers_before(mem, i, vx, vy, y + 1, 0, p),
{
    if covers_before(mem, i, vx, vy, y, 8, p) {
        let (yy, xx) = choose|yy: int, xx: int|
            0 <= yy && 0 <= xx < 8 && (yy < y || (yy == y && xx < 8)) && sprite_bit(mem[i + yy], xx)
                && pix(vx, vy, xx, yy) == p;
        assert(yy < y + 1);
        assert(covers_before(mem, i, vx, vy, y + 1, 0, p));
    }
    if covers_before(mem, i, vx, vy, y + 1, 0, p) {
        let (yy, xx) = choose|yy: int, xx: int|
            0 <= yy && 0 <= xx < 8 && (yy < y + 1 || (yy == y + 1 && xx < 0)) && sprite_bit(
                mem[i + yy],
                xx,
            ) && pix(vx, vy, xx, yy) == p;
        assert(yy < y || (yy == y && xx < 8));
        assert(covers_before(mem, i, vx, vy, y, 8, p));
    }
}

/// Advancing the cursor one column: collisions grow by exactly the cell at
/// the cursor, when its sprite bit is set and its pixel is set in `frame`.
proof fn lemma_collides_step(
    mem: Seq<u8>,
    i: int,
    vx: u8,
    vy: u8,
    frame: Seq<u8>,
    y: int,
    x: int,
)
    requires
        0 <= x < 8,
        0 <= y,
    ensures
        collides_before(mem, i, vx, vy, frame, y, x + 1) == (collides_before(
            mem,
            i,
            vx,
            vy,
            frame,
            y,
            x,
        ) || (sprite_bit(mem[i + y], x) && fb_bit(frame, pix(vx, vy, x, y)))),
{
    if collides_before(mem, i, vx, vy, frame, y, x + 1) {
        let (yy, xx) = choose|yy: int, xx: int|
            0 <= yy && 0 <= xx < 8 && (yy < y || (yy == y && xx < x + 1)) && sprite_bit(
                mem[i + yy],
                xx,
            ) && fb_bit(frame, pix(vx, vy, xx, yy));
        if yy < y || (yy == y && xx < x) {
            assert(collides_before(mem, i, vx, vy, frame, y, x));
        } else {
            assert(yy == y && xx == x);
        }
    }
    if collides_before(mem, i, vx, vy, frame, y, x) {
        let (yy, xx) = choose|yy: int, xx: int|
            0 <= yy && 0 <= xx < 8 && (yy < y || (yy == y && xx < x)) && sprite_bit(mem[i + yy], xx)
                && fb_bit(frame, pix(vx, vy, xx, yy));
        assert(0 <= yy && 0 <= xx < 8 && (yy < y || (yy == y && xx < x + 1)) && sprite_bit(
            mem[i + yy],
            xx,
        ) && fb_bit(frame, pix(vx, vy, xx, yy)));
        assert(collides_before(mem, i, vx, vy, frame, y, x + 1));
    }
    if sprite_bit(mem[i + y], x) && fb_bit(frame, pix(vx, vy, x, y)) {
        assert(0 <= y && 0 <= x < 8 && (y < y || (y == y && x < x + 1)) && sprite_bit(mem[i + y], x)
            && fb_bit(frame, pix(vx, vy, x, y)));
        assert(collides_before(mem, i, vx, vy, frame, y, x + 1));
    }
}

/// A fully processed row moves the collision cursor to the next row.
proof fn lemma_collides_row(mem: Seq<u8>, i: int, vx: u8, vy: u8, frame: Seq<u8>, y: int)
    requires
        0 <= y,
    ensures
        collides_before(mem, i, vx, vy, frame, y, 8) == collides_before(
            mem,
            i,
            vx,
            vy,
            frame,
            y + 1,
            0,
        ),
{
    if collides_before(mem, i, vx, vy, frame, y, 8) {
        let (yy, xx) = choose|yy: int, xx: int|
            0 <= yy && 0 <= xx < 8 && (yy < y || (yy == y && xx < 8)) && sprite_bit(mem[i + yy], xx)
                && fb_bit(frame, pix(vx, vy, xx, yy));
        assert(yy < y + 1);
        assert(collides_before(mem, i, vx, vy, frame, y + 1, 0));
    }
    if collides_before(mem, i, vx, vy, frame, y + 1, 0) {
        let (yy, xx) = choose|yy: int, xx: int|
            0 <= yy && 0 <= xx < 8 && (yy < y + 1 || (yy == y + 1 && xx < 0)) && sprite_bit(
                mem[i + yy],
                xx,
            ) && fb_bit(frame, pix(vx, vy, xx, yy));
        assert(yy < y || (yy == y && xx < 8));
        assert(collides_before(mem, i, vx, vy, frame, y, 8));
    }
}

impl Chip8 {
    /// A copy of the display frame: the OR-blended bytes the host renders.
    pub fn display_buffer_ptr(&self) -> (r: Vec<u8>)
        requires
            self@.wf(),
        ensures
            r@ == disp_frame(self@.mem),
    {
        let mut out: Vec<u8> = Vec::new();
        let mut j: usize = 0;
        while j < FRAME_SIZE
            invariant
                self@.wf(),
                j <= FRAME_SIZE,
                out@.len() == j,
                forall|k: int| 0 <= k < j ==> out@[k] == self@.mem[STACK_START + k],
            decreases FRAME_SIZE - j,
        {
            let b = self.memory[STACK_START + j];
            out.push(b);
            j += 1;
        }
        proof {
            assert(out@ =~= disp_frame(self@.mem));
        }
        out
    }

    /// Byte length of the display frame a host should render: half the total
    /// framebuffer reservation, since the other half is the authoritative
    /// frame the OR-blend reads.
    pub fn display_buffer_size(&self) -> (r: usize)
        ensures
            r == FRAME_SIZE,
    {
        FRAME_SIZE
    }

    /// 00E0: zeroes the authoritative frame and copies the now-stale pre-clear
    /// frame into the display slot, so the next draw's OR-blend still reflects
    /// one frame of decay.
    pub fn clear_display(&mut self)
        requires
            old(self)@.wf(),
        ensures
            final(self)@.wf(),
            final(self)@ == clear_post(old(self)@),
    {
        let mut j: usize = 0;
        while j < FRAME_SIZE
            invariant
                old(self)@.wf(),
                j <= FRAME_SIZE,
                self.registers == old(self).registers,
                self.pc == old(self).pc,
                self.sp == old(self).sp,
                self.keypad == old(self).keypad,
                self.game == old(self).game,
                self.memory@.len() == MEMORY_SIZE,
                forall|a: int|
                    0 <= a < MEMORY_SIZE && !(STACK_START <= a < STACK_START + j) && !(
                    NEW_FRAME_START <= a < NEW_FRAME_START + j) ==> self.memory@[a] == old(
                        self,
                    )@.mem[a],
                forall|k: int|
                    0 <= k < j ==> #[trigger] self.memory@[STACK_START + k] == old(self)@.mem[
                        NEW_FRAME_START + k
                    ],
                forall|k: int| 0 <= k < j ==> #[trigger] self.memory@[NEW_FRAME_START + k] == 0u8,
            decreases FRAME_SIZE - j,
        {
            let b = self.memory[NEW_FRAME_START + j];
            self.memory.set(STACK_START + j, b);
            self.memory.set(NEW_FRAME_START + j, 0);
            j += 1;
        }
        proof {
            let m0 = old(self)@.mem;
            let m1 = final(self)@.mem;
            assert forall|a: int| 0 <= a < MEMORY_SIZE implies m1[a] == clear_post(
                old(self)@,
            ).mem[a] by {
                if NEW_FRAME_START <= a < MEMORY_SIZE {
                    assert(m1[NEW_FRAME_START + (a - NEW_FRAME_START)] == 0u8);
                } else if STACK_START <= a < NEW_FRAME_START {
                    assert(m1[STACK_START + (a - STACK_START)] == m0[NEW_FRAME_START + (a
                        - STACK_START)]);
                    assert(cur_frame(m0)[a - STACK_START] == m0[NEW_FRAME_START + (a
                        - STACK_START)]);
                }
            };
            assert(m1 =~= clear_post(old(self)@).mem);
        }
    }

    /// Dxyn: draws the `n`-row sprite held at the index register at origin
    /// (`vx`, `vy`).  The previous authoritative frame is snapshotted into the
    /// display slot, each set sprite bit flips its (wrapped) pixel, VF is
    /// reset and then reports whether any set sprite bit landed on an
    /// already-set pixel, and the display frame becomes the byte-wise OR of
    /// the previous and the new authoritative frame.  Fails with
    /// `AddressOutOfBounds`, leaving the machine unchanged, when the sprite
    /// rows do not all lie below the framebuffer region.
    #[verifier::rlimit(60)]
    pub fn draw(&mut self, vx: u8, vy: u8, n: u8) -> (r: Result<(), Chip8Error>)
        requires
            old(self)@.wf(),
            n < 16,
        ensures
            final(self)@.wf(),
            r is Ok <==> old(self)@.i + n <= STACK_START,
            r is Ok ==> draw_post(old(self)@, final(self)@, vx, vy, n as int),
            r is Err ==> r == Result::<(), Chip8Error>::Err(Chip8Error::AddressOutOfBounds)
                && final(self)@ == old(self)@,
    {
        let n_us = n as usize;
        if self.registers.I > STACK_START - n_us {
            return Err(Chip8Error::AddressOutOfBounds);
        }
        let ghost m0 = old(self)@.mem;
        let ghost i0 = old(self)@.i;
        let ghost cur0 = cur_frame(m0);
        // Snapshot the current authoritative frame into the display slot.
        let mut j: usize = 0;
        while j < FRAME_SIZE
            invariant
                old(self)@.wf(),
                m0 == old(self)@.mem,
                j <= FRAME_SIZE,
                self.registers == old(self).registers,
                self.pc == old(self).pc,
                self.sp == old(self).sp,
                self.keypad == old(self).keypad,
                self.game == old(self).game,
                self.memory@.len() == MEMORY_SIZE,
                forall|a: int|
                    0 <= a < MEMORY_SIZE && !(STACK_START <= a < STACK_START + j)
                        ==> self.memory@[a] == m0[a],
                forall|k: int|
                    0 <= k < j ==> #[trigger] self.memory@[STACK_START + k] == m0[NEW_FRAME_START
                        + k],
            decreases FRAME_SIZE - j,
        {
            let b = self.memory[NEW_FRAME_START + j];
            self.memory.set(STACK_START + j, b);
            j += 1;
        }
        // Reset the collision flag.
        self.registers.Vx.set(15, 0);
        let ghost ms = self.memory@;
        let i_reg = self.registers.I;
        proof {
            assert forall|p: int| 0 <= p < N_PIXELS implies frame_bit(ms, p) == (fb_bit(cur0, p)
                != covers_before(m0, i0, vx, vy, 0, 0, p)) by {
                assert(cur0[p / 8] == m0[NEW_FRAME_START + p / 8]);
                assert(!covers_before(m0, i0, vx, vy, 0, 0, p));
            };
            assert(!collides_before(m0, i0, vx, vy, cur0, 0, 0));
        }
        let mut y: usize = 0;
        while y < n_us
            invariant
                old(self)@.wf(),
                m0 == old(self)@.mem,
                i0 == old(self)@.i,
                cur0 == cur_frame(m0),
                n_us == n,
                n < 16,
                y <= n_us,
                i0 + n <= STACK_START,
                i_reg == i0,
                self.registers.I == old(self).registers.I,
                self.registers.delay == old(self).registers.delay,
                self.registers.sound == old(self).registers.sound,
                self.pc == old(self).pc,
                self.sp == old(self).sp,
                self.keypad == old(self).keypad,
                self.game == old(self).game,
                self.memory@.len() == MEMORY_SIZE,
                forall|a: int| 0 <= a < NEW_FRAME_START ==> self.memory@[a] == ms[a],
                forall|a: int| 0 <= a < STACK_START ==> ms[a] == m0[a],
                forall|k: int|
                    0 <= k < FRAME_SIZE ==> #[trigger] ms[STACK_START + k] == m0[NEW_FRAME_START
                        + k],
                forall|p: int|
                    0 <= p < N_PIXELS ==> frame_bit(self.memory@, p) == (fb_bit(cur0, p)
                        != covers_before(m0, i0, vx, vy, y as int, 0, p)),
                self.registers.Vx@ == old(self)@.regs.update(
                    15,
                    if collides_before(m0, i0, vx, vy, cur0, y as int, 0) {
                        1u8
                    } else {
                        0u8
                    },
                ),
            decreases n_us - y,
        {
            let sprite_byte = self.memory[i_reg + y];
            proof {
                assert(self.memory@[i0 + y] == ms[i0 + y]);
                assert(sprite_byte == m0[i0 + y as int]);
            }
            let mut x: usize = 0;
            while x < 8
                invariant
                    old(self)@.wf(),
                    m0 == old(self)@.mem,
                    i0 == old(self)@.i,
                    cur0 == cur_frame(m0),
                    n_us == n,
                    n < 16,
                    y < n_us,
                    x <= 8,
                    i0 + n <= STACK_START,
                    i_reg == i0,
                    sprite_byte == m0[i0 + y as int],
                    self.registers.I == old(self).registers.I,
                    self.registers.delay == old(self).registers.delay,
                    self.registers.sound == old(self).registers.sound,
                    self.pc == old(self).pc,
                    self.sp == old(self).sp,
                    self.keypad == old(self).keypad,
                    self.game == old(self).game,
                    self.memory@.len() == MEMORY_SIZE,
                    forall|a: int| 0 <= a < NEW_FRAME_START ==> self.memory@[a] == ms[a],
                    forall|a: int| 0 <= a < STACK_START ==> ms[a] == m0[a],
                    forall|k: int|
                        0 <= k < FRAME_SIZE ==> #[trigger] ms[STACK_START + k] == m0[NEW_FRAME_START
                            + k],
                    forall|p: int|
                        0 <= p < N_PIXELS ==> frame_bit(self.memory@, p) == (fb_bit(cur0, p)
                            != covers_before(m0, i0, vx, vy, y as int, x as int, p)),
                    self.registers.Vx@ == old(self)@.regs.update(
                        15,
                        if collides_before(m0, i0, vx, vy, cur0, y as int, x as int) {
                            1u8
                        } else {
                            0u8
                        },
                    ),
                decreases 8 - x,
            {
                let ghost yi = y as int;
                let ghost xi = x as int;
                let row = (vx as usize + x) % SCREEN_WIDTH;
                let col = (vy as usize + y) % SCREEN_HEIGHT;
                let p0 = col * SCREEN_WIDTH + row;
                let mask: u8 = 0x80u8 >> ((p0 % 8) as u8);
                let sprite_on = sprite_byte & (0x80u8 >> (x as u8)) != 0;
                proof {
                    assert(p0 as int == pix(vx, vy, xi, yi));
                    assert(p0 < N_PIXELS);
                    assert(mask == bit_mask(p0 as int % 8));
                    assert(sprite_on == sprite_bit(m0[i0 + yi], xi));
                    assert forall|p: int| 0 <= p < N_PIXELS implies covers_before(
                        m0,
                        i0,
                        vx,
                        vy,
                        yi,
                        xi + 1,
                        p,
                    ) == (covers_before(m0, i0, vx, vy, yi, xi, p) || (sprite_bit(m0[i0 + yi], xi)
                        && pix(vx, vy, xi, yi) == p)) by {
                        lemma_covers_step(m0, i0, vx, vy, yi, xi, p);
                    };
                    lemma_collides_step(m0, i0, vx, vy, cur0, yi, xi);
                }
                if sprite_on {
                    proof {
                        // No earlier sprite bit can have landed on this pixel.
                        if covers_before(m0, i0, vx, vy, yi, xi, p0 as int) {
                            let (yy, xx) = choose|yy: int, xx: int|
                                0 <= yy && 0 <= xx < 8 && (yy < yi || (yy == yi && xx < xi))
                                    && sprite_bit(m0[i0 + yy], xx) && pix(vx, vy, xx, yy) == p0;
                            lemma_pix_inj(vx, vy, xx, yy, xi, yi);
                            assert(false);
                        }
                    }
                    let cur_byte = self.memory[NEW_FRAME_START + p0 / 8];
                    proof {
                        assert(frame_bit(self.memory@, p0 as int) == (cur_byte & mask != 0));
                        assert((cur_byte & mask != 0) == fb_bit(cur0, p0 as int));
                    }
                    if cur_byte & mask != 0 {
                        self.registers.Vx.set(15, 1);
                        proof {
                            assert(self.registers.Vx@ =~= old(self)@.regs.update(15, 1u8));
                        }
                    }
                    let ghost mem_before = self.memory@;
                    self.memory.set(NEW_FRAME_START + p0 / 8, cur_byte ^ mask);
                    proof {
                        let gp0 = p0 as int;
                        assert forall|p: int| 0 <= p < N_PIXELS implies frame_bit(
                            self.memory@,
                            p,
                        ) == (fb_bit(cur0, p) != covers_before(m0, i0, vx, vy, yi, xi + 1, p)) by {
                            if p / 8 == gp0 / 8 {
                                lemma_xor_mask_bits(cur_byte, (gp0 % 8) as u8, (p % 8) as u8);
                                if p == gp0 {
                                    assert(frame_bit(self.memory@, p) == !(cur_byte & mask != 0));
                                } else {
                                    assert((p % 8) as u8 != (gp0 % 8) as u8);
                                    assert(frame_bit(self.memory@, p) == frame_bit(mem_before, p));
                                    assert(pix(vx, vy, xi, yi) != p);
                                }
                            } else {
                                assert(self.memory@[NEW_FRAME_START + p / 8] == mem_before[
                                    NEW_FRAME_START + p / 8
                                ]);
                                assert(pix(vx, vy, xi, yi) != p);
                            }
                        };
                    }
                } else {
                    proof {
                        assert forall|p: int| 0 <= p < N_PIXELS implies covers_before(
                            m0,
                            i0,
                            vx,
                            vy,
                            yi,
                            xi + 1,
                            p,
                        ) == covers_before(m0, i0, vx, vy, yi, xi, p) by {};
                    }
                }
                x += 1;
            }
            proof {
                let yi = y as int;
                assert forall|p: int| 0 <= p < N_PIXELS implies covers_before(
                    m0,
                    i0,
                    vx,
                    vy,
                    yi + 1,
                    0,
                    p,
                ) == covers_before(m0, i0, vx, vy, yi, 8, p) by {
                    lemma_covers_row(m0, i0, vx, vy, yi, p);
                };
                lemma_collides_row(m0, i0, vx, vy, cur0, yi);
            }
            y += 1;
        }
        let ghost mb = self.memory@;
        let ghost flag_val: u8 = if draw_collides(m0, i0, vx, vy, n as int, cur0) {
            1u8
        } else {
            0u8
        };
        proof {
            assert forall|k: int| 0 <= k < FRAME_SIZE implies #[trigger] mb[STACK_START + k] == m0[
                NEW_FRAME_START + k
            ] by {
                assert(mb[STACK_START + k] == ms[STACK_START + k]);
            };
        }
        // Blend: the display frame becomes previous OR current.
        let mut j2: usize = 0;
        while j2 < FRAME_SIZE
            invariant
                old(self)@.wf(),
                m0 == old(self)@.mem,
                i0 == old(self)@.i,
                cur0 == cur_frame(m0),
                n < 16,
                j2 <= FRAME_SIZE,
                flag_val == (if draw_collides(m0, i0, vx, vy, n as int, cur0) {
                    1u8
                } else {
                    0u8
                }),
                self.registers.Vx@ == old(self)@.regs.update(15, flag_val),
                self.registers.I == old(self).registers.I,
                self.registers.delay == old(self).registers.delay,
                self.registers.sound == old(self).registers.sound,
                self.pc == old(self).pc,
                self.sp == old(self).sp,
                self.keypad == old(self).keypad,
                self.game == old(self).game,
                self.memory@.len() == MEMORY_SIZE,
                mb.len() == MEMORY_SIZE,
                forall|a: int| 0 <= a < STACK_START ==> self.memory@[a] == m0[a],
                forall|k: int|
                    0 <= k < FRAME_SIZE ==> #[trigger] self.memory@[NEW_FRAME_START + k] == mb[
                        NEW_FRAME_START + k
                    ],
                forall|k: int|
                    0 <= k < j2 ==> #[trigger] self.memory@[STACK_START + k] == (m0[NEW_FRAME_START
                        + k] | mb[NEW_FRAME_START + k]),
                forall|k: int|
                    j2 <= k < FRAME_SIZE ==> #[trigger] self.memory@[STACK_START + k] == m0[
                        NEW_FRAME_START + k
                    ],
                forall|p: int|
                    0 <= p < N_PIXELS ==> frame_bit(mb, p) == (fb_bit(cur0, p) != sprite_covers(
                        m0,
                        i0,
                        vx,
                        vy,
                        n as int,
                        p,
                    )),
            decreases FRAME_SIZE - j2,
        {
            let a = self.memory[NEW_FRAME_START + j2];
            let b = self.memory[STACK_START + j2];
            self.memory.set(STACK_START + j2, b | a);
            proof {
                assert(self.memory@[STACK_START + j2 as int] == (m0[NEW_FRAME_START + j2 as int]
                    | mb[NEW_FRAME_START + j2 as int]));
            }
            j2 += 1;
        }
        proof {
            let mf = self.memory@;
            assert forall|p: int| 0 <= p < N_PIXELS implies fb_bit(cur_frame(mf), p) == (fb_bit(
                cur_frame(m0),
                p,
            ) != sprite_covers(m0, i0, vx, vy, n as int, p)) by {
                assert(cur_frame(mf)[p / 8] == mf[NEW_FRAME_START + p / 8]);
                assert(mf[NEW_FRAME_START + p / 8] == mb[NEW_FRAME_START + p / 8]);
            };
            assert forall|k: int| 0 <= k < FRAME_SIZE implies disp_frame(mf)[k] == (cur_frame(
                m0,
            )[k] | cur_frame(mf)[k]) by {
                assert(disp_frame(mf)[k] == mf[STACK_START + k]);
                assert(cur_frame(m0)[k] == m0[NEW_FRAME_START + k]);
                assert(cur_frame(mf)[k] == mf[NEW_FRAME_START + k]);
            };
        }
        Ok(())
    }
}

} // verus!
