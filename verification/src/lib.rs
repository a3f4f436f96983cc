//! A verified CHIP-8 interpreter core.
//!
//! The machine owns a flat 4096-byte memory holding the font glyphs, the
//! loaded program, a reserved call-stack region and two framebuffers (the
//! authoritative frame mutated by draw operations and an OR-blended display
//! frame exposed to the host to reduce flicker).  The host drives the machine
//! one instruction at a time through [`Chip8::tick`] and decrements the two
//! countdown timers at its own fixed rate through [`Chip8::decrement_timers`].
#![allow(non_snake_case)]

use vstd::prelude::*;

pub mod games;
pub mod display;
pub mod laws;

use games::Game;

verus! {

/// Number of addressable bytes of machine memory.
pub const MEMORY_SIZE: usize = 4096;

/// Offset of the sixteen 5-byte font glyphs (digits 0-F).
pub const FONT_LOCATION: usize = 0x50;

/// Offset at which program code is loaded and where execution starts.
pub const PROGRAM_START: usize = 0x200;

/// Total bytes reserved for the two framebuffers (display frame + authoritative frame).
pub const DISPLAY_BUFFER_SIZE: usize = 512;

/// Offset of the authoritative frame, the one mutated by draw operations.
pub const NEW_FRAME_START: usize = MEMORY_SIZE - DISPLAY_BUFFER_SIZE / 2;

/// Offset of the host-facing display frame; also the base of the call stack,
/// which grows downward from here.
pub const STACK_START: usize = MEMORY_SIZE - DISPLAY_BUFFER_SIZE;

/// Number of return addresses the reserved stack region can hold.
pub const STACK_DEPTH: usize = 12;

/// Lowest address the stack pointer may reach.
pub const STACK_LIMIT: usize = STACK_START - 2 * STACK_DEPTH;

/// Bytes in one framebuffer (64 x 32 pixels, bit-packed).
pub const FRAME_SIZE: usize = 256;

/// Every failure the machine can report.
///
/// `UnknownProgram` and `KeyOutOfRange` are configuration errors: the machine
/// is left unchanged and the call may be retried.  The remaining variants are
/// execution-fatal: `tick` reports them and the machine should be considered
/// non-continuable until reset or reloaded.
#[derive(Clone, Copy, Debug, PartialEq, Eq, Structural)]
pub enum Chip8Error {
    /// A ROM title that the program table does not know.
    UnknownProgram,
    /// A keypad index outside 0..16.
    KeyOutOfRange,
    /// A subroutine call would push the stack below its reserved region.
    StackOverflow,
    /// A subroutine return with no stored return address.
    StackUnderflow,
    /// The program counter is not two-byte aligned.
    MisalignedProgramCounter,
    /// A memory access (fetch, sprite read, register transfer) past a bound.
    AddressOutOfBounds,
    /// An instruction word matching no known nibble pattern.
    UnknownInstruction,
}

/// The mathematical state of the machine: what every contract speaks about.
pub ghost struct Chip8View {
    /// All 4096 memory bytes.
    pub mem: Seq<u8>,
    /// The sixteen general-purpose registers V0-VF.
    pub regs: Seq<u8>,
    /// The 16-bit index register I.
    pub i: int,
    /// The delay timer.
    pub delay: u8,
    /// The sound timer.
    pub sound: u8,
    /// The program counter.
    pub pc: int,
    /// The stack pointer (an address inside the reserved stack region).
    pub sp: int,
    /// The sixteen key states.
    pub keypad: Seq<bool>,
    /// When false, bulk register store/load advances I past the transfer.
    pub load_store_quirk: bool,
    /// When true, shifts read their source from Vx; when false, from Vy.
    pub shift_quirk: bool,
}

impl Chip8View {
    /// Well-formedness: dimensions and register bounds every operation preserves.
    pub open spec fn wf(self) -> bool {
        &&& self.mem.len() == MEMORY_SIZE
        &&& self.regs.len() == 16
        &&& self.keypad.len() == 16
        &&& STACK_LIMIT <= self.sp <= STACK_START
        &&& self.sp % 2 == 0
        &&& 0 <= self.pc <= 0xFFFF
        &&& 0 <= self.i < 0x10000
    }
}

/// `s` with the bytes of `data` written starting at address `a`.
pub open spec fn store_range(s: Seq<u8>, a: int, data: Seq<u8>) -> Seq<u8> {
    Seq::new(s.len(), |k: int| if a <= k < a + data.len() { data[k - a] } else { s[k] })
}

/// The big-endian 16-bit word held at address `a`.
pub open spec fn word_at(mem: Seq<u8>, a: int) -> u16 {
    (mem[a] as u16) << 8u16 | (mem[a + 1] as u16)
}

/// The 80 bytes of font glyph data, five bytes per hexadecimal digit.
pub open spec fn font_data() -> Seq<u8> {
    seq![
        0xF0u8, 0x90, 0x90, 0x90, 0xF0, // 0
        0x20, 0x60, 0x20, 0x20, 0x70, // 1
        0xF0, 0x10, 0xF0, 0x80, 0xF0, // 2
        0xF0, 0x10, 0xF0, 0x10, 0xF0, // 3
        0x90, 0x90, 0xF0, 0x10, 0x10, // 4
        0xF0, 0x80, 0xF0, 0x10, 0xF0, // 5
        0xF0, 0x80, 0xF0, 0x90, 0xF0, // 6
        0xF0, 0x10, 0x20, 0x40, 0x40, // 7
        0xF0, 0x90, 0xF0, 0x90, 0xF0, // 8
        0xF0, 0x90, 0xF0, 0x10, 0xF0, // 9
        0xF0, 0x90, 0xF0, 0x90, 0x90, // A
        0xE0, 0x90, 0xE0, 0x90, 0xE0, // B
        0xF0, 0x80, 0x80, 0x80, 0xF0, // C
        0xE0, 0x90, 0x90, 0x90, 0xE0, // D
        0xF0, 0x80, 0xF0, 0x80, 0xF0, // E
        0xF0, 0x80, 0xF0, 0x80, 0x80, // F
    ]
}

/// Memory of a fresh machine: all zero except the font region.
pub open spec fn initial_memory() -> Seq<u8> {
    store_range(Seq::new(MEMORY_SIZE as nat, |k: int| 0u8), FONT_LOCATION as int, font_data())
}

/// The state of a fresh machine.
pub open spec fn initial_view() -> Chip8View {
    Chip8View {
        mem: initial_memory(),
        regs: Seq::new(16, |k: int| 0u8),
        i: 0,
        delay: 0,
        sound: 0,
        pc: PROGRAM_START as int,
        sp: STACK_START as int,
        keypad: Seq::new(16, |k: int| false),
        load_store_quirk: true,
        shift_quirk: true,
    }
}

struct RegisterBank {
    Vx: Vec<u8>,
    I: usize,
    delay: u8,
    sound: u8,
}

/// The CHIP-8 virtual machine.
pub struct Chip8 {
    memory: Vec<u8>,
    registers: RegisterBank,
    pc: usize,
    sp: usize,
    keypad: Vec<bool>,
    game: Game,
}

impl View for Chip8 {
    type V = Chip8View;

    closed spec fn view(&self) -> Chip8View {
        Chip8View {
            mem: self.memory@,
            regs: self.registers.Vx@,
            i: self.registers.I as int,
            delay: self.registers.delay,
            sound: self.registers.sound,
            pc: self.pc as int,
            sp: self.sp as int,
            keypad: self.keypad@,
            load_store_quirk: self.game.load_store_quirk,
            shift_quirk: self.game.shift_quirk,
        }
    }
}

impl Default for Chip8 {
    /// A fresh machine: fonts written, PC at the program start, stack empty.
    fn default() -> (r: Self)
        ensures
            r@ == initial_view(),
            r@.wf(),
    {
        let mut memory: Vec<u8> = vec![0u8; MEMORY_SIZE];
        let fonts: [u8; 80] = [
            0xF0, 0x90, 0x90, 0x90, 0xF0, // 0
            0x20, 0x60, 0x20, 0x20, 0x70, // 1
            0xF0, 0x10, 0xF0, 0x80, 0xF0, // 2
            0xF0, 0x10, 0xF0, 0x10, 0xF0, // 3
            0x90, 0x90, 0xF0, 0x10, 0x10, // 4
            0xF0, 0x80, 0xF0, 0x10, 0xF0, // 5
            0xF0, 0x80, 0xF0, 0x90, 0xF0, // 6
            0xF0, 0x10, 0x20, 0x40, 0x40, // 7
            0xF0, 0x90, 0xF0, 0x90, 0xF0, // 8
            0xF0, 0x90, 0xF0, 0x10, 0xF0, // 9
            0xF0, 0x90, 0xF0, 0x90, 0x90, // A
            0xE0, 0x90, 0xE0, 0x90, 0xE0, // B
            0xF0, 0x80, 0x80, 0x80, 0xF0, // C
            0xE0, 0x90, 0x90, 0x90, 0xE0, // D
            0xF0, 0x80, 0xF0, 0x80, 0xF0, // E
            0xF0, 0x80, 0xF0, 0x80, 0x80, // F
        ];
        proof {
            assert(fonts@ =~= font_data());
        }
        let mut j: usize = 0;
        while j < 80
            invariant
                j <= 80,
                fonts@ == font_data(),
                memory@.len() == MEMORY_SIZE,
                forall|k: int|
                    0 <= k < MEMORY_SIZE && !(FONT_LOCATION <= k < FONT_LOCATION + j)
                        ==> memory@[k] == 0u8,
                forall|k: int|
                    FONT_LOCATION <= k < FONT_LOCATION + j ==> memory@[k] == font_data()[
                        k - FONT_LOCATION
                    ],
            decreases 80 - j,
        {
            memory.set(FONT_LOCATION + j, fonts[j]);
            j += 1;
        }
        let registers = RegisterBank { Vx: vec![0u8; 16], I: 0, delay: 0, sound: 0 };
        let machine = Chip8 {
            memory,
            registers,
            pc: PROGRAM_START,
            sp: STACK_START,
            keypad: vec![false; 16],
            game: Game::default(),
        };
        proof {
            assert(machine@.mem =~= initial_memory());
            assert(machine@.regs =~= Seq::new(16, |k: int| 0u8));
            assert(machine@.keypad =~= Seq::new(16, |k: int| false));
            assert(machine@ == initial_view());
        }
        machine
    }
}

/// `v` with register `x` set to `val`.
pub open spec fn reg_write(v: Chip8View, x: int, val: u8) -> Chip8View {
    Chip8View { regs: v.regs.update(x, val), ..v }
}

/// `v` with the flag register VF set to `flag` and then register `x` set to
/// `val` (so when `x` is 15 the result wins).
pub open spec fn flag_result_write(v: Chip8View, x: int, flag: u8, val: u8) -> Chip8View {
    Chip8View { regs: v.regs.update(15, flag).update(x, val), ..v }
}

/// `v` with the program counter set to `pc`.
pub open spec fn pc_write(v: Chip8View, pc: int) -> Chip8View {
    Chip8View { pc: pc, ..v }
}

impl Chip8 {
    /// A fresh machine with font glyphs pre-loaded, PC at the program start
    /// offset, the stack pointer at its reserved base, all registers zero and
    /// the default quirk flags.
    pub fn new() -> (r: Self)
        ensures
            r@ == initial_view(),
            r@.wf(),
    {
        Chip8::default()
    }

    /// Read-only view of the full memory block, for host-side rendering and
    /// debugging.
    pub fn memory_ptr(&self) -> (r: &Vec<u8>)
        ensures
            r@ == self@.mem,
    {
        &self.memory
    }

    /// Writes one memory byte; a host-side debugging hook.
    pub fn write_memory(&mut self, addr: usize, value: u8)
        requires
            old(self)@.wf(),
            addr < MEMORY_SIZE,
        ensures
            final(self)@ == (Chip8View { mem: old(self)@.mem.update(addr as int, value), ..old(self)@ }),
    {
        self.memory.set(addr, value);
    }

    /// Overrides the quirk flags the last load applied; a host-side
    /// configuration hook for programs outside the built-in table.
    pub fn set_quirks(&mut self, load_store_quirk: bool, shift_quirk: bool)
        ensures
            final(self)@ == (Chip8View { load_store_quirk, shift_quirk, ..old(self)@ }),
    {
        self.game.load_store_quirk = load_store_quirk;
        self.game.shift_quirk = shift_quirk;
    }

    /// Sets the program counter; a host-side debugging hook.
    pub fn set_pc(&mut self, pc: usize)
        requires
            pc <= 0xFFFF,
        ensures
            final(self)@ == pc_write(old(self)@, pc as int),
    {
        self.pc = pc;
    }

    /// The program counter.
    pub fn program_counter(&self) -> (r: usize)
        ensures
            r == self@.pc,
    {
        self.pc
    }

    /// The stack pointer.
    pub fn stack_pointer(&self) -> (r: usize)
        ensures
            r == self@.sp,
    {
        self.sp
    }

    /// The value of general register `x`.
    pub fn register(&self, x: usize) -> (r: u8)
        requires
            self@.wf(),
            x < 16,
        ensures
            r == self@.regs[x as int],
    {
        self.registers.Vx[x]
    }

    /// The value of the index register I.
    pub fn index_register(&self) -> (r: usize)
        ensures
            r == self@.i,
    {
        self.registers.I
    }

    /// The delay timer value.
    pub fn delay_timer(&self) -> (r: u8)
        ensures
            r == self@.delay,
    {
        self.registers.delay
    }

    /// The sound timer value.
    pub fn sound_timer(&self) -> (r: u8)
        ensures
            r == self@.sound,
    {
        self.registers.sound
    }

    /// Marks keypad key `key` as pressed.  Fails, leaving the machine
    /// unchanged, when `key` is not one of the sixteen keys.
    pub fn press_key(&mut self, key: usize) -> (r: Result<(), Chip8Error>)
        requires
            old(self)@.wf(),
        ensures
            r is Ok <==> key < 16,
            key < 16 ==> final(self)@ == (Chip8View {
                keypad: old(self)@.keypad.update(key as int, true),
                ..old(self)@
            }),
            key >= 16 ==> r == Result::<(), Chip8Error>::Err(Chip8Error::KeyOutOfRange) && final(self)@
                == old(self)@,
    {
        if key >= 16 {
            return Err(Chip8Error::KeyOutOfRange);
        }
        self.keypad.set(key, true);
        Ok(())
    }

    /// Marks keypad key `key` as released.  Fails, leaving the machine
    /// unchanged, when `key` is not one of the sixteen keys.
    pub fn release_key(&mut self, key: usize) -> (r: Result<(), Chip8Error>)
        requires
            old(self)@.wf(),
        ensures
            r is Ok <==> key < 16,
            key < 16 ==> final(self)@ == (Chip8View {
                keypad: old(self)@.keypad.update(key as int, false),
                ..old(self)@
            }),
            key >= 16 ==> r == Result::<(), Chip8Error>::Err(Chip8Error::KeyOutOfRange) && final(self)@
                == old(self)@,
    {
        if key >= 16 {
            return Err(Chip8Error::KeyOutOfRange);
        }
        self.keypad.set(key, false);
        Ok(())
    }

    /// Saturating decrement of both countdown timers; driven by the host at a
    /// fixed rate independent of instruction throughput.
    pub fn decrement_timers(&mut self)
        ensures
            final(self)@ == (Chip8View {
                delay: (if old(self)@.delay > 0 { (old(self)@.delay - 1) as u8 } else { 0u8 }),
                sound: (if old(self)@.sound > 0 { (old(self)@.sound - 1) as u8 } else { 0u8 }),
                ..old(self)@
            }),
    {
        self.registers.delay = self.registers.delay.saturating_sub(1);
        self.registers.sound = self.registers.sound.saturating_sub(1);
    }

    /// 6xkk: loads the immediate `byte` into Vx.
    pub fn load_from_byte(&mut self, x: usize, byte: u8)
        requires
            old(self)@.wf(),
            x < 16,
        ensures
            final(self)@ == reg_write(old(self)@, x as int, byte),
    {
        self.registers.Vx.set(x, byte);
    }

    /// 7xkk: adds the immediate `byte` into Vx modulo 256; the flag register
    /// is not touched.
    pub fn add_byte(&mut self, x: usize, byte: u8)
        requires
            old(self)@.wf(),
            x < 16,
        ensures
            final(self)@ == reg_write(
                old(self)@,
                x as int,
                ((old(self)@.regs[x as int] + byte) % 256) as u8,
            ),
    {
        let sum: u16 = self.registers.Vx[x] as u16 + byte as u16;
        self.registers.Vx.set(x, (sum % 256) as u8);
    }

    /// 8xy0: copies the value `vy` into Vx.
    pub fn load_from_register(&mut self, x: usize, vy: u8)
        requires
            old(self)@.wf(),
            x < 16,
        ensures
            final(self)@ == reg_write(old(self)@, x as int, vy),
    {
        self.registers.Vx.set(x, vy);
    }

    /// 8xy1: bitwise OR of Vx with `vy`.
    pub fn or(&mut self, x: usize, vy: u8)
        requires
            old(self)@.wf(),
            x < 16,
        ensures
            final(self)@ == reg_write(old(self)@, x as int, old(self)@.regs[x as int] | vy),
    {
        let v = self.registers.Vx[x] | vy;
        self.registers.Vx.set(x, v);
    }

    /// 8xy2: bitwise AND of Vx with `vy`.
    pub fn and(&mut self, x: usize, vy: u8)
        requires
            old(self)@.wf(),
            x < 16,
        ensures
            final(self)@ == reg_write(old(self)@, x as int, old(self)@.regs[x as int] & vy),
    {
        let v = self.registers.Vx[x] & vy;
        self.registers.Vx.set(x, v);
    }

    /// 8xy3: bitwise XOR of Vx with `vy`.
    pub fn xor(&mut self, x: usize, vy: u8)
        requires
            old(self)@.wf(),
            x < 16,
        ensures
            final(self)@ == reg_write(old(self)@, x as int, old(self)@.regs[x as int] ^ vy),
    {
        let v = self.registers.Vx[x] ^ vy;
        self.registers.Vx.set(x, v);
    }

    /// 8xy4: Vx becomes (Vx + vy) mod 256; VF becomes 1 exactly when the
    /// unsigned 8-bit addition overflows, 0 otherwise.  When `x` is 15 the
    /// sum, written last, wins over the carry flag.
    pub fn add_registers(&mut self, x: usize, vy: u8)
        requires
            old(self)@.wf(),
            x < 16,
        ensures
            final(self)@ == flag_result_write(
                old(self)@,
                x as int,
                (if old(self)@.regs[x as int] + vy > 255 { 1u8 } else { 0u8 }),
                ((old(self)@.regs[x as int] + vy) % 256) as u8,
            ),
            x != 15 ==> final(self)@.regs[x as int] == (old(self)@.regs[x as int] + vy) % 256
                && (final(self)@.regs[15] == 1 <==> old(self)@.regs[x as int] + vy > 255)
                && (final(self)@.regs[15] == 0 <==> old(self)@.regs[x as int] + vy <= 255),
    {
        let sum: u16 = self.registers.Vx[x] as u16 + vy as u16;
        let carry: u8 = if sum > 255 { 1 } else { 0 };
        self.registers.Vx.set(15, carry);
        self.registers.Vx.set(x, (sum % 256) as u8);
    }

    /// 8xy5: Vx becomes (Vx - vy) mod 256; VF holds the not-borrow flag, 1
    /// exactly when Vx >= vy.  When `x` is 15 the difference, written last,
    /// wins over the flag.
    pub fn sub_vy_from_vx(&mut self, x: usize, vy: u8)
        requires
            old(self)@.wf(),
            x < 16,
        ensures
            final(self)@ == flag_result_write(
                old(self)@,
                x as int,
                (if old(self)@.regs[x as int] >= vy { 1u8 } else { 0u8 }),
                ((old(self)@.regs[x as int] + 256 - vy) % 256) as u8,
            ),
            x != 15 ==> final(self)@.regs[x as int] == (old(self)@.regs[x as int] + 256 - vy) % 256
                && (final(self)@.regs[15] == 1 <==> old(self)@.regs[x as int] >= vy),
    {
        let vx = self.registers.Vx[x];
        let flag: u8 = if vx >= vy { 1 } else { 0 };
        let diff: u16 = (vx as u16 + 256 - vy as u16) % 256;
        self.registers.Vx.set(15, flag);
        self.registers.Vx.set(x, diff as u8);
    }

    /// 8xy7: Vx becomes (vy - Vx) mod 256; VF holds the not-borrow flag, 1
    /// exactly when vy >= Vx.  When `x` is 15 the difference, written last,
    /// wins over the flag.
    pub fn sub_vx_from_vy(&mut self, x: usize, vy: u8)
        requires
            old(self)@.wf(),
            x < 16,
        ensures
            final(self)@ == flag_result_write(
                old(self)@,
                x as int,
                (if vy >= old(self)@.regs[x as int] { 1u8 } else { 0u8 }),
                ((vy + 256 - old(self)@.regs[x as int]) % 256) as u8,
            ),
            x != 15 ==> final(self)@.regs[x as int] == (vy + 256 - old(self)@.regs[x as int]) % 256
                && (final(self)@.regs[15] == 1 <==> vy >= old(self)@.regs[x as int]),
    {
        let vx = self.registers.Vx[x];
        let flag: u8 = if vy >= vx { 1 } else { 0 };
        let diff: u16 = (vy as u16 + 256 - vx as u16) % 256;
        self.registers.Vx.set(15, flag);
        self.registers.Vx.set(x, diff as u8);
    }

    /// 8xy6: logical right shift by one.  The source is Vx when the shift
    /// quirk is active and Vy otherwise; VF receives the bit shifted out and
    /// Vx the shifted value.
    pub fn shift_right(&mut self, x: usize, y: usize)
        requires
            old(self)@.wf(),
            x < 16,
            y < 16,
        ensures
            final(self)@ == flag_result_write(
                old(self)@,
                x as int,
                (shift_source(old(self)@, x as int, y as int) % 2) as u8,
                (shift_source(old(self)@, x as int, y as int) / 2) as u8,
            ),
    {
        let src: u8 = if self.game.shift_quirk {
            self.registers.Vx[x]
        } else {
            self.registers.Vx[y]
        };
        self.registers.Vx.set(15, src % 2);
        self.registers.Vx.set(x, src / 2);
    }

    /// 8xyE: left shift by one.  The source is Vx when the shift quirk is
    /// active and Vy otherwise; VF receives the bit shifted out (the high
    /// bit) and Vx the shifted value modulo 256.
    pub fn shift_left(&mut self, x: usize, y: usize)
        requires
            old(self)@.wf(),
            x < 16,
            y < 16,
        ensures
            final(self)@ == flag_result_write(
                old(self)@,
                x as int,
                (shift_source(old(self)@, x as int, y as int) / 128) as u8,
                ((shift_source(old(self)@, x as int, y as int) * 2) % 256) as u8,
            ),
    {
        let src: u8 = if self.game.shift_quirk {
            self.registers.Vx[x]
        } else {
            self.registers.Vx[y]
        };
        let doubled: u16 = (src as u16 * 2) % 256;
        self.registers.Vx.set(15, src / 128);
        self.registers.Vx.set(x, doubled as u8);
    }

    /// 1nnn: jumps to `address`.
    pub fn jump(&mut self, address: usize)
        requires
            address <= 0xFFF,
        ensures
            final(self)@ == pc_write(old(self)@, address as int),
    {
        self.pc = address;
    }

    /// Bnnn: jumps to `address` plus the value of V0.
    pub fn jump_relative(&mut self, address: usize)
        requires
            old(self)@.wf(),
            address <= 0xFFF,
        ensures
            final(self)@ == pc_write(old(self)@, address + old(self)@.regs[0]),
    {
        self.pc = address + self.registers.Vx[0] as usize;
    }

    /// 3xkk: skips the next instruction when `vx` equals the immediate.
    pub fn skip_next_if_equal_to_byte(&mut self, vx: u8, byte: u8)
        requires
            old(self)@.pc + 2 <= 0xFFFF,
        ensures
            final(self)@ == (if vx == byte {
                pc_write(old(self)@, old(self)@.pc + 2)
            } else {
                old(self)@
            }),
    {
        if vx == byte {
            self.pc += 2;
        }
    }

    /// 4xkk: skips the next instruction when `vx` differs from the immediate.
    pub fn skip_next_if_not_equal_to_byte(&mut self, vx: u8, byte: u8)
        requires
            old(self)@.pc + 2 <= 0xFFFF,
        ensures
            final(self)@ == (if vx != byte {
                pc_write(old(self)@, old(self)@.pc + 2)
            } else {
                old(self)@
            }),
    {
        if vx != byte {
            self.pc += 2;
        }
    }

    /// 5xy0: skips the next instruction when `vx` equals `vy`.
    pub fn skip_next_if_equal_to_register(&mut self, vx: u8, vy: u8)
        requires
            old(self)@.pc + 2 <= 0xFFFF,
        ensures
            final(self)@ == (if vx == vy {
                pc_write(old(self)@, old(self)@.pc + 2)
            } else {
                old(self)@
            }),
    {
        if vx == vy {
            self.pc += 2;
        }
    }

    /// 9xy0: skips the next instruction when `vx` differs from `vy`.
    pub fn skip_next_if_not_equal_to_register(&mut self, vx: u8, vy: u8)
        requires
            old(self)@.pc + 2 <= 0xFFFF,
        ensures
            final(self)@ == (if vx != vy {
                pc_write(old(self)@, old(self)@.pc + 2)
            } else {
                old(self)@
            }),
    {
        if vx != vy {
            self.pc += 2;
        }
    }

    /// Ex9E: skips the next instruction when the key named by the low nibble
    /// of `vx` is pressed.
    pub fn skip_if_key_is_pressed(&mut self, vx: u8)
        requires
            old(self)@.wf(),
            old(self)@.pc + 2 <= 0xFFFF,
        ensures
            final(self)@ == (if old(self)@.keypad[(vx % 16) as int] {
                pc_write(old(self)@, old(self)@.pc + 2)
            } else {
                old(self)@
            }),
    {
        if self.keypad[(vx % 16) as usize] {
            self.pc += 2;
        }
    }

    /// ExA1: skips the next instruction when the key named by the low nibble
    /// of `vx` is not pressed.
    pub fn skip_if_key_is_not_pressed(&mut self, vx: u8)
        requires
            old(self)@.wf(),
            old(self)@.pc + 2 <= 0xFFFF,
        ensures
            final(self)@ == (if !old(self)@.keypad[(vx % 16) as int] {
                pc_write(old(self)@, old(self)@.pc + 2)
            } else {
                old(self)@
            }),
    {
        if !self.keypad[(vx % 16) as usize] {
            self.pc += 2;
        }
    }

    /// Fx0A: blocks until the key named by the low nibble of `vx` is pressed,
    /// realized as instruction replay: when the key is up the program counter
    /// rewinds by one instruction so the same instruction re-executes on the
    /// next step.
    pub fn block_until_key_is_pressed(&mut self, vx: u8)
        requires
            old(self)@.wf(),
            old(self)@.pc >= 2,
        ensures
            final(self)@ == (if !old(self)@.keypad[(vx % 16) as int] {
                pc_write(old(self)@, old(self)@.pc - 2)
            } else {
                old(self)@
            }),
    {
        if !self.keypad[(vx % 16) as usize] {
            self.pc -= 2;
        }
    }

    /// Annn: loads `address` into the index register.
    pub fn set_I(&mut self, address: usize)
        requires
            address <= 0xFFF,
        ensures
            final(self)@ == (Chip8View { i: address as int, ..old(self)@ }),
    {
        self.registers.I = address;
    }

    /// Fx1E: adds `vx` into the 16-bit index register, wrapping modulo 2^16.
    pub fn increment_i(&mut self, vx: u8)
        requires
            old(self)@.wf(),
        ensures
            final(self)@ == (Chip8View { i: (old(self)@.i + vx) % 0x10000, ..old(self)@ }),
    {
        self.registers.I = (self.registers.I + vx as usize) % 0x10000;
    }

    /// Fx29: points the index register at the five-byte font glyph for `vx`.
    pub fn load_font_location_in_I(&mut self, vx: u8)
        ensures
            final(self)@ == (Chip8View { i: FONT_LOCATION + vx * 5, ..old(self)@ }),
    {
        self.registers.I = FONT_LOCATION + (vx as usize) * 5;
    }

    /// Fx07: loads the delay timer value into Vx.
    pub fn load_from_delay_timer(&mut self, x: usize)
        requires
            old(self)@.wf(),
            x < 16,
        ensures
            final(self)@ == reg_write(old(self)@, x as int, old(self)@.delay),
    {
        let d = self.registers.delay;
        self.registers.Vx.set(x, d);
    }

    /// Fx15: sets the delay timer to `vx`.
    pub fn set_delay_timer(&mut self, vx: u8)
        ensures
            final(self)@ == (Chip8View { delay: vx, ..old(self)@ }),
    {
        self.registers.delay = vx;
    }

    /// Fx18: sets the sound timer to `vx`.
    pub fn set_sound_timer(&mut self, vx: u8)
        ensures
            final(self)@ == (Chip8View { sound: vx, ..old(self)@ }),
    {
        self.registers.sound = vx;
    }

    /// Resolves `title` through the program table, copies its code bytes into
    /// memory from the program start offset, resets PC and SP and applies the
    /// resolved quirk flags.  An unrecognized title is a configuration error:
    /// the machine, and in particular the previously loaded program's memory,
    /// is left untouched.
    pub fn load_rom(&mut self, title: &str) -> (r: Result<(), Chip8Error>)
        requires
            old(self)@.wf(),
        ensures
            final(self)@.wf(),
            r is Ok <==> games::known_title(games::lower_seq(title@)),
            r is Ok ==> final(self)@ == load_post(old(self)@, games::lower_seq(title@)),
            r is Err ==> r == Result::<(), Chip8Error>::Err(Chip8Error::UnknownProgram)
                && final(self)@ == old(self)@,
    {
        let game = match Game::new(title) {
            Err(e) => {
                return Err(e);
            },
            Ok(game) => game,
        };
        let n = if game.code.len() <= MEMORY_SIZE - PROGRAM_START {
            game.code.len()
        } else {
            MEMORY_SIZE - PROGRAM_START
        };
        let mut j: usize = 0;
        while j < n
            invariant
                old(self)@.wf(),
                j <= n,
                n <= game.code@.len(),
                PROGRAM_START + n <= MEMORY_SIZE,
                self.registers == old(self).registers,
                self.pc == old(self).pc,
                self.sp == old(self).sp,
                self.keypad == old(self).keypad,
                self.game == old(self).game,
                self.memory@.len() == MEMORY_SIZE,
                forall|k: int|
                    0 <= k < MEMORY_SIZE && !(PROGRAM_START <= k < PROGRAM_START + j)
                        ==> self.memory@[k] == old(self)@.mem[k],
                forall|k: int|
                    PROGRAM_START <= k < PROGRAM_START + j ==> self.memory@[k] == game.code@[
                        k - PROGRAM_START
                    ],
            decreases n - j,
        {
            let b = game.code[j];
            self.memory.set(PROGRAM_START + j, b);
            j += 1;
        }
        self.pc = PROGRAM_START;
        self.sp = STACK_START;
        self.game = game;
        proof {
            assert(final(self)@.mem =~= store_range(
                old(self)@.mem,
                PROGRAM_START as int,
                clipped_code(games::title_code(games::lower_seq(title@))),
            ));
        }
        Ok(())
    }

    /// 2nnn: pushes the current program counter big-endian onto the stack and
    /// jumps to `address`.  Fails with `StackOverflow`, leaving the machine
    /// unchanged, when the reserved stack depth is already exhausted.
    pub fn call_subroutine(&mut self, address: usize) -> (r: Result<(), Chip8Error>)
        requires
            old(self)@.wf(),
            address <= 0xFFF,
        ensures
            final(self)@.wf(),
            r is Ok <==> old(self)@.sp - 2 >= STACK_LIMIT,
            r is Ok ==> final(self)@ == call_post(old(self)@, address as int),
            r is Err ==> r == Result::<(), Chip8Error>::Err(Chip8Error::StackOverflow) && final(self)@ == old(self)@,
    {
        if self.sp < STACK_LIMIT + 2 {
            return Err(Chip8Error::StackOverflow);
        }
        self.sp -= 2;
        let hi: u8 = (self.pc / 256) as u8;
        let lo: u8 = (self.pc % 256) as u8;
        self.memory.set(self.sp, hi);
        self.memory.set(self.sp + 1, lo);
        self.pc = address;
        Ok(())
    }

    /// 00EE: pops the stored return address into the program counter.  Fails
    /// with `StackUnderflow`, leaving the machine unchanged, when the stack is
    /// empty.
    pub fn return_from_subroutine(&mut self) -> (r: Result<(), Chip8Error>)
        requires
            old(self)@.wf(),
        ensures
            final(self)@.wf(),
            r is Ok <==> old(self)@.sp + 2 <= STACK_START,
            r is Ok ==> final(self)@ == return_post(old(self)@),
            r is Err ==> r == Result::<(), Chip8Error>::Err(Chip8Error::StackUnderflow) && final(self)@ == old(self)@,
    {
        if self.sp + 2 > STACK_START {
            return Err(Chip8Error::StackUnderflow);
        }
        self.pc = (self.memory[self.sp] as usize) * 256 + self.memory[self.sp + 1] as usize;
        self.sp += 2;
        Ok(())
    }

    /// Fx33: stores the decimal digits of `vx` (hundreds, tens, ones) at the
    /// three bytes starting at the index register.  Fails with
    /// `AddressOutOfBounds`, leaving the machine unchanged, when those three
    /// bytes do not all lie in memory.
    pub fn store_bcd(&mut self, vx: u8) -> (r: Result<(), Chip8Error>)
        requires
            old(self)@.wf(),
        ensures
            final(self)@.wf(),
            r is Ok <==> old(self)@.i + 3 <= MEMORY_SIZE,
            r is Ok ==> final(self)@ == (Chip8View {
                mem: old(self)@.mem.update(old(self)@.i, (vx / 100) as u8).update(
                    old(self)@.i + 1,
                    ((vx / 10) % 10) as u8,
                ).update(old(self)@.i + 2, (vx % 10) as u8),
                ..old(self)@
            }),
            r is Err ==> r == Result::<(), Chip8Error>::Err(Chip8Error::AddressOutOfBounds)
                && final(self)@ == old(self)@,
    {
        if self.registers.I + 3 > MEMORY_SIZE {
            return Err(Chip8Error::AddressOutOfBounds);
        }
        let hundreds = vx / 100;
        let tens = (vx % 100) / 10;
        let ones = vx % 10;
        proof {
            assert((vx % 100) / 10 == (vx / 10) % 10) by (nonlinear_arith);
        }
        self.memory.set(self.registers.I, hundreds);
        self.memory.set(self.registers.I + 1, tens);
        self.memory.set(self.registers.I + 2, ones);
        Ok(())
    }

    /// Fx55: copies registers V0..=Vx to memory starting at the index
    /// register; without the load/store quirk, I then advances past the
    /// transfer.  Fails with `AddressOutOfBounds`, leaving the machine
    /// unchanged, when the destination range leaves memory.
    pub fn bulk_store(&mut self, x: usize) -> (r: Result<(), Chip8Error>)
        requires
            old(self)@.wf(),
            x < 16,
        ensures
            final(self)@.wf(),
            r is Ok <==> old(self)@.i + x + 1 <= MEMORY_SIZE,
            r is Ok ==> final(self)@ == (Chip8View {
                mem: store_range(
                    old(self)@.mem,
                    old(self)@.i,
                    old(self)@.regs.subrange(0, x + 1),
                ),
                i: bulk_next_i(old(self)@, x as int),
                ..old(self)@
            }),
            r is Err ==> r == Result::<(), Chip8Error>::Err(Chip8Error::AddressOutOfBounds)
                && final(self)@ == old(self)@,
    {
        if self.registers.I + x + 1 > MEMORY_SIZE {
            return Err(Chip8Error::AddressOutOfBounds);
        }
        let base = self.registers.I;
        let mut j: usize = 0;
        while j < x + 1
            invariant
                old(self)@.wf(),
                j <= x + 1,
                x < 16,
                base == old(self)@.i,
                base + x + 1 <= MEMORY_SIZE,
                self.registers == old(self).registers,
                self.pc == old(self).pc,
                self.sp == old(self).sp,
                self.keypad == old(self).keypad,
                self.game == old(self).game,
                self.memory@.len() == MEMORY_SIZE,
                forall|k: int|
                    0 <= k < MEMORY_SIZE && !(base <= k < base + j) ==> self.memory@[k] == old(
                        self,
                    )@.mem[k],
                forall|k: int| base <= k < base + j ==> self.memory@[k] == old(self)@.regs[k - base],
            decreases x + 1 - j,
        {
            let v = self.registers.Vx[j];
            self.memory.set(base + j, v);
            j += 1;
        }
        if !self.game.load_store_quirk {
            self.registers.I = self.registers.I + x + 1;
        }
        proof {
            assert(final(self)@.mem =~= store_range(
                old(self)@.mem,
                old(self)@.i,
                old(self)@.regs.subrange(0, x + 1),
            ));
        }
        Ok(())
    }

    /// Fx65: loads registers V0..=Vx from memory starting at the index
    /// register; without the load/store quirk, I then advances past the
    /// transfer.  Fails with `AddressOutOfBounds`, leaving the machine
    /// unchanged, when the source range leaves memory.
    pub fn bulk_load(&mut self, x: usize) -> (r: Result<(), Chip8Error>)
        requires
            old(self)@.wf(),
            x < 16,
        ensures
            final(self)@.wf(),
            r is Ok <==> old(self)@.i + x + 1 <= MEMORY_SIZE,
            r is Ok ==> final(self)@ == (Chip8View {
                regs: store_range(
                    old(self)@.regs,
                    0,
                    old(self)@.mem.subrange(old(self)@.i, old(self)@.i + x + 1),
                ),
                i: bulk_next_i(old(self)@, x as int),
                ..old(self)@
            }),
            r is Err ==> r == Result::<(), Chip8Error>::Err(Chip8Error::AddressOutOfBounds)
                && final(self)@ == old(self)@,
    {
        if self.registers.I + x + 1 > MEMORY_SIZE {
            return Err(Chip8Error::AddressOutOfBounds);
        }
        let base = self.registers.I;
        let mut j: usize = 0;
        while j < x + 1
            invariant
                old(self)@.wf(),
                j <= x + 1,
                x < 16,
                base == old(self)@.i,
                base + x + 1 <= MEMORY_SIZE,
                self.memory == old(self).memory,
                self.registers.I == old(self).registers.I,
                self.registers.delay == old(self).registers.delay,
                self.registers.sound == old(self).registers.sound,
                self.pc == old(self).pc,
                self.sp == old(self).sp,
                self.keypad == old(self).keypad,
                self.game == old(self).game,
                self.registers.Vx@.len() == 16,
                forall|k: int| j <= k < 16 ==> self.registers.Vx@[k] == old(self)@.regs[k],
                forall|k: int| 0 <= k < j ==> self.registers.Vx@[k] == old(self)@.mem[base + k],
            decreases x + 1 - j,
        {
            let v = self.memory[base + j];
            self.registers.Vx.set(j, v);
            j += 1;
        }
        if !self.game.load_store_quirk {
            self.registers.I = self.registers.I + x + 1;
        }
        proof {
            assert(final(self)@.regs =~= store_range(
                old(self)@.regs,
                0,
                old(self)@.mem.subrange(old(self)@.i, old(self)@.i + x + 1),
            ));
        }
        Ok(())
    }

    /// Cxkk: draws one random byte, masks it with the immediate `byte` and
    /// stores the result in Vx.  Nothing is promised of the random byte, only
    /// that the stored value has no bit outside the mask.
    pub fn set_random_number(&mut self, x: usize, byte: u8)
        requires
            old(self)@.wf(),
            x < 16,
        ensures
            final(self)@ == reg_write(old(self)@, x as int, final(self)@.regs[x as int]),
            final(self)@.regs[x as int] & byte == final(self)@.regs[x as int],
    {
        let random_num: u8 = random_byte();
        let masked = random_num & byte;
        proof {
            assert((random_num & byte) & byte == random_num & byte) by (bit_vector);
        }
        self.registers.Vx.set(x, masked);
        proof {
            assert(final(self)@ =~= reg_write(old(self)@, x as int, masked));
        }
    }

    /// Reads the big-endian instruction word at PC and advances PC by two,
    /// unconditionally, so jump, call and skip handlers overwrite PC as
    /// needed.
    fn fetch(&mut self) -> (w: u16)
        requires
            old(self)@.wf(),
            old(self)@.pc + 1 < MEMORY_SIZE,
        ensures
            final(self)@ == pc_write(old(self)@, old(self)@.pc + 2),
            w == word_at(old(self)@.mem, old(self)@.pc),
    {
        let hi = self.memory[self.pc];
        let lo = self.memory[self.pc + 1];
        let w = (hi as u16) << 8u16 | (lo as u16);
        self.pc += 2;
        w
    }

    /// Splits `instruction_code` into nibbles and dispatches to the handler
    /// the standard CHIP-8 encoding table selects; a pattern outside the
    /// table is an execution-fatal `UnknownInstruction`.
    pub fn decode_and_execute(&mut self, instruction_code: u16) -> (r: Result<(), Chip8Error>)
        requires
            old(self)@.wf(),
            2 <= old(self)@.pc <= MEMORY_SIZE,
        ensures
            final(self)@.wf(),
            exec_rel(old(self)@, instruction_code, final(self)@, r),
    {
        let w = instruction_code;
        let n0 = (w >> 12u16) & 0xF;
        let x = ((w >> 8u16) & 0xF) as usize;
        let y = ((w >> 4u16) & 0xF) as usize;
        let n3 = w & 0xF;
        let kk = (w & 0xFF) as u8;
        let nnn = (w & 0xFFF) as usize;
        proof {
            assert(((w >> 8u16) & 0xF) < 16 && ((w >> 4u16) & 0xF) < 16 && (w & 0xFFF) < 4096 && (w
                & 0xF) < 16) by (bit_vector);
        }
        let vx = self.registers.Vx[x];
        let vy = self.registers.Vx[y];
        if w == 0x00E0 {
            self.clear_display();
            Ok(())
        } else if w == 0x00EE {
            self.return_from_subroutine()
        } else if n0 == 0x1 {
            self.jump(nnn);
            Ok(())
        } else if n0 == 0x2 {
            self.call_subroutine(nnn)
        } else if n0 == 0x3 {
            self.skip_next_if_equal_to_byte(vx, kk);
            Ok(())
        } else if n0 == 0x4 {
            self.skip_next_if_not_equal_to_byte(vx, kk);
            Ok(())
        } else if n0 == 0x5 && n3 == 0x0 {
            self.skip_next_if_equal_to_register(vx, vy);
            Ok(())
        } else if n0 == 0x6 {
            self.load_from_byte(x, kk);
            Ok(())
        } else if n0 == 0x7 {
            self.add_byte(x, kk);
            Ok(())
        } else if n0 == 0x8 && n3 == 0x0 {
            self.load_from_register(x, vy);
            Ok(())
        } else if n0 == 0x8 && n3 == 0x1 {
            self.or(x, vy);
            Ok(())
        } else if n0 == 0x8 && n3 == 0x2 {
            self.and(x, vy);
            Ok(())
        } else if n0 == 0x8 && n3 == 0x3 {
            self.xor(x, vy);
            Ok(())
        } else if n0 == 0x8 && n3 == 0x4 {
            self.add_registers(x, vy);
            Ok(())
        } else if n0 == 0x8 && n3 == 0x5 {
            self.sub_vy_from_vx(x, vy);
            Ok(())
        } else if n0 == 0x8 && n3 == 0x6 {
            self.shift_right(x, y);
            Ok(())
        } else if n0 == 0x8 && n3 == 0x7 {
            self.sub_vx_from_vy(x, vy);
            Ok(())
        } else if n0 == 0x8 && n3 == 0xE {
            self.shift_left(x, y);
            Ok(())
        } else if n0 == 0x9 && n3 == 0x0 {
            self.skip_next_if_not_equal_to_register(vx, vy);
            Ok(())
        } else if n0 == 0xA {
            self.set_I(nnn);
            Ok(())
        } else if n0 == 0xB {
            self.jump_relative(nnn);
            Ok(())
        } else if n0 == 0xC {
            self.set_random_number(x, kk);
            proof {
                let b = final(self)@.regs[x as int];
                assert((b & kk) == b && final(self)@ == reg_write(old(self)@, x as int, b));
                assert(exists|bb: u8| (bb & kk) == bb && final(self)@ == reg_write(
                    old(self)@,
                    x as int,
                    bb,
                ));
            }
            Ok(())
        } else if n0 == 0xD {
            self.draw(vx, vy, (w & 0xF) as u8)
        } else if n0 == 0xE && kk == 0x9E {
            self.skip_if_key_is_pressed(vx);
            Ok(())
        } else if n0 == 0xE && kk == 0xA1 {
            self.skip_if_key_is_not_pressed(vx);
            Ok(())
        } else if n0 == 0xF && kk == 0x07 {
            self.load_from_delay_timer(x);
            Ok(())
        } else if n0 == 0xF && kk == 0x0A {
            self.block_until_key_is_pressed(vx);
            Ok(())
        } else if n0 == 0xF && kk == 0x15 {
            self.set_delay_timer(vx);
            Ok(())
        } else if n0 == 0xF && kk == 0x18 {
            self.set_sound_timer(vx);
            Ok(())
        } else if n0 == 0xF && kk == 0x1E {
            self.increment_i(vx);
            Ok(())
        } else if n0 == 0xF && kk == 0x29 {
            self.load_font_location_in_I(vx);
            Ok(())
        } else if n0 == 0xF && kk == 0x33 {
            self.store_bcd(vx)
        } else if n0 == 0xF && kk == 0x55 {
            self.bulk_store(x)
        } else if n0 == 0xF && kk == 0x65 {
            self.bulk_load(x)
        } else {
            Err(Chip8Error::UnknownInstruction)
        }
    }

    /// Performs exactly one fetch-decode-execute step.  A misaligned or
    /// out-of-range program counter, and every failure a handler reports, is
    /// execution-fatal: the machine should be considered non-continuable
    /// until reset or reloaded.
    pub fn tick(&mut self) -> (r: Result<(), Chip8Error>)
        requires
            old(self)@.wf(),
        ensures
            final(self)@.wf(),
            step_rel(old(self)@, final(self)@, r),
    {
        if self.pc % 2 != 0 {
            return Err(Chip8Error::MisalignedProgramCounter);
        }
        if self.pc + 1 >= MEMORY_SIZE {
            return Err(Chip8Error::AddressOutOfBounds);
        }
        let machine_code = self.fetch();
        self.decode_and_execute(machine_code)
    }
}

/// Relies on rand::random, which draws a fresh value from the thread-local
/// generator; nothing can be promised of the byte it returns.
#[verifier::external_body]
fn random_byte() -> u8 {
    rand::random()
}

/// A code image cut down to what fits between the program start offset and
/// the end of memory.
pub open spec fn clipped_code(code: Seq<u8>) -> Seq<u8> {
    if code.len() <= MEMORY_SIZE - PROGRAM_START {
        code
    } else {
        code.subrange(0, MEMORY_SIZE - PROGRAM_START)
    }
}

/// The state after the program whose lowercased title is `key` is loaded:
/// its code sits at the program start, PC and SP are reset, the table's
/// quirk flags are applied, and everything else is untouched.
pub open spec fn load_post(v: Chip8View, key: Seq<char>) -> Chip8View {
    Chip8View {
        mem: store_range(v.mem, PROGRAM_START as int, clipped_code(games::title_code(key))),
        pc: PROGRAM_START as int,
        sp: STACK_START as int,
        load_store_quirk: true,
        shift_quirk: true,
        ..v
    }
}

/// The state after 2nnn pushes `v.pc` and jumps to `address`.
pub open spec fn call_post(v: Chip8View, address: int) -> Chip8View {
    Chip8View {
        mem: v.mem.update(v.sp - 2, (v.pc / 256) as u8).update(v.sp - 1, (v.pc % 256) as u8),
        sp: v.sp - 2,
        pc: address,
        ..v
    }
}

/// The state after 00EE pops the stored return address.
pub open spec fn return_post(v: Chip8View) -> Chip8View {
    Chip8View { pc: v.mem[v.sp] * 256 + v.mem[v.sp + 1], sp: v.sp + 2, ..v }
}

/// Where the index register stands after a bulk transfer of V0..=Vx: it
/// advances past the transferred block unless the load/store quirk holds it.
pub open spec fn bulk_next_i(v: Chip8View, x: int) -> int {
    if v.load_store_quirk {
        v.i
    } else {
        v.i + x + 1
    }
}

/// The register a shift instruction reads: Vx under the shift quirk, Vy
/// otherwise.
pub open spec fn shift_source(v: Chip8View, x: int, y: int) -> u8 {
    if v.shift_quirk {
        v.regs[x]
    } else {
        v.regs[y]
    }
}

/// The instruction family: the top nibble of the instruction word.
pub open spec fn nib0(w: u16) -> u16 {
    (w >> 12u16) & 0xF
}

/// The second nibble, selecting register Vx.
pub open spec fn nib1(w: u16) -> u16 {
    (w >> 8u16) & 0xF
}

/// The third nibble, selecting register Vy.
pub open spec fn nib2(w: u16) -> u16 {
    (w >> 4u16) & 0xF
}

/// The low nibble, a sub-opcode or sprite height.
pub open spec fn nib3(w: u16) -> u16 {
    w & 0xF
}

/// The low byte, an immediate operand or sub-opcode.
pub open spec fn low_byte(w: u16) -> u8 {
    (w & 0xFF) as u8
}

/// The low 12 bits, an address operand.
pub open spec fn triple(w: u16) -> u16 {
    w & 0xFFF
}

/// How executing the already-fetched instruction word `w` in state `v`
/// relates to the resulting state `post` and outcome `r`: one case per
/// opcode of the standard encoding table, and `UnknownInstruction`, leaving
/// the state as it stands, for every other nibble pattern.
pub open spec fn exec_rel(
    v: Chip8View,
    w: u16,
    post: Chip8View,
    r: Result<(), Chip8Error>,
) -> bool {
    let x = nib1(w) as int;
    let y = nib2(w) as int;
    let vx = v.regs[x];
    let vy = v.regs[y];
    let kk = low_byte(w);
    let nnn = triple(w) as int;
    if w == 0x00E0 {
        r is Ok && post == display::clear_post(v)
    } else if w == 0x00EE {
        if v.sp + 2 <= STACK_START {
            r is Ok && post == return_post(v)
        } else {
            r == Result::<(), Chip8Error>::Err(Chip8Error::StackUnderflow) && post == v
        }
    } else if nib0(w) == 0x1 {
        r is Ok && post == pc_write(v, nnn)
    } else if nib0(w) == 0x2 {
        if v.sp - 2 >= STACK_LIMIT {
            r is Ok && post == call_post(v, nnn)
        } else {
            r == Result::<(), Chip8Error>::Err(Chip8Error::StackOverflow) && post == v
        }
    } else if nib0(w) == 0x3 {
        r is Ok && post == (if vx == kk {
            pc_write(v, v.pc + 2)
        } else {
            v
        })
    } else if nib0(w) == 0x4 {
        r is Ok && post == (if vx != kk {
            pc_write(v, v.pc + 2)
        } else {
            v
        })
    } else if nib0(w) == 0x5 && nib3(w) == 0x0 {
        r is Ok && post == (if vx == vy {
            pc_write(v, v.pc + 2)
        } else {
            v
        })
    } else if nib0(w) == 0x6 {
        r is Ok && post == reg_write(v, x, kk)
    } else if nib0(w) == 0x7 {
        r is Ok && post == reg_write(v, x, ((vx + kk) % 256) as u8)
    } else if nib0(w) == 0x8 && nib3(w) == 0x0 {
        r is Ok && post == reg_write(v, x, vy)
    } else if nib0(w) == 0x8 && nib3(w) == 0x1 {
        r is Ok && post == reg_write(v, x, vx | vy)
    } else if nib0(w) == 0x8 && nib3(w) == 0x2 {
        r is Ok && post == reg_write(v, x, vx & vy)
    } else if nib0(w) == 0x8 && nib3(w) == 0x3 {
        r is Ok && post == reg_write(v, x, vx ^ vy)
    } else if nib0(w) == 0x8 && nib3(w) == 0x4 {
        r is Ok && post == flag_result_write(
            v,
            x,
            (if vx + vy > 255 {
                1u8
            } else {
                0u8
            }),
            ((vx + vy) % 256) as u8,
        )
    } else if nib0(w) == 0x8 && nib3(w) == 0x5 {
        r is Ok && post == flag_result_write(
            v,
            x,
            (if vx >= vy {
                1u8
            } else {
                0u8
            }),
            ((vx + 256 - vy) % 256) as u8,
        )
    } else if nib0(w) == 0x8 && nib3(w) == 0x6 {
        r is Ok && post == flag_result_write(
            v,
            x,
            (shift_source(v, x, y) % 2) as u8,
            (shift_source(v, x, y) / 2) as u8,
        )
    } else if nib0(w) == 0x8 && nib3(w) == 0x7 {
        r is Ok && post == flag_result_write(
            v,
            x,
            (if vy >= vx {
                1u8
            } else {
                0u8
            }),
            ((vy + 256 - vx) % 256) as u8,
        )
    } else if nib0(w) == 0x8 && nib3(w) == 0xE {
        r is Ok && post == flag_result_write(
            v,
            x,
            (shift_source(v, x, y) / 128) as u8,
            ((shift_source(v, x, y) * 2) % 256) as u8,
        )
    } else if nib0(w) == 0x9 && nib3(w) == 0x0 {
        r is Ok && post == (if vx != vy {
            pc_write(v, v.pc + 2)
        } else {
            v
        })
    } else if nib0(w) == 0xA {
        r is Ok && post == (Chip8View { i: nnn, ..v })
    } else if nib0(w) == 0xB {
        r is Ok && post == pc_write(v, nnn + v.regs[0])
    } else if nib0(w) == 0xC {
        r is Ok && exists|b: u8| (b & kk) == b && post == reg_write(v, x, b)
    } else if nib0(w) == 0xD {
        let n = nib3(w) as int;
        if v.i + n <= STACK_START {
            r is Ok && display::draw_post(v, post, vx, vy, n)
        } else {
            r == Result::<(), Chip8Error>::Err(Chip8Error::AddressOutOfBounds) && post == v
        }
    } else if nib0(w) == 0xE && kk == 0x9E {
        r is Ok && post == (if v.keypad[(vx % 16) as int] {
            pc_write(v, v.pc + 2)
        } else {
            v
        })
    } else if nib0(w) == 0xE && kk == 0xA1 {
        r is Ok && post == (if !v.keypad[(vx % 16) as int] {
            pc_write(v, v.pc + 2)
        } else {
            v
        })
    } else if nib0(w) == 0xF && kk == 0x07 {
        r is Ok && post == reg_write(v, x, v.delay)
    } else if nib0(w) == 0xF && kk == 0x0A {
        r is Ok && post == (if !v.keypad[(vx % 16) as int] {
            pc_write(v, v.pc - 2)
        } else {
            v
        })
    } else if nib0(w) == 0xF && kk == 0x15 {
        r is Ok && post == (Chip8View { delay: vx, ..v })
    } else if nib0(w) == 0xF && kk == 0x18 {
        r is Ok && post == (Chip8View { sound: vx, ..v })
    } else if nib0(w) == 0xF && kk == 0x1E {
        r is Ok && post == (Chip8View { i: (v.i + vx) % 0x10000, ..v })
    } else if nib0(w) == 0xF && kk == 0x29 {
        r is Ok && post == (Chip8View { i: FONT_LOCATION + vx * 5, ..v })
    } else if nib0(w) == 0xF && kk == 0x33 {
        if v.i + 3 <= MEMORY_SIZE {
            r is Ok && post == (Chip8View {
                mem: v.mem.update(v.i, (vx / 100) as u8).update(v.i + 1, ((vx / 10) % 10) as u8)
                    .update(v.i + 2, (vx % 10) as u8),
                ..v
            })
        } else {
            r == Result::<(), Chip8Error>::Err(Chip8Error::AddressOutOfBounds) && post == v
        }
    } else if nib0(w) == 0xF && kk == 0x55 {
        if v.i + x + 1 <= MEMORY_SIZE {
            r is Ok && post == (Chip8View {
                mem: store_range(v.mem, v.i, v.regs.subrange(0, x + 1)),
                i: bulk_next_i(v, x),
                ..v
            })
        } else {
            r == Result::<(), Chip8Error>::Err(Chip8Error::AddressOutOfBounds) && post == v
        }
    } else if nib0(w) == 0xF && kk == 0x65 {
        if v.i + x + 1 <= MEMORY_SIZE {
            r is Ok && post == (Chip8View {
                regs: store_range(v.regs, 0, v.mem.subrange(v.i, v.i + x + 1)),
                i: bulk_next_i(v, x),
                ..v
            })
        } else {
            r == Result::<(), Chip8Error>::Err(Chip8Error::AddressOutOfBounds) && post == v
        }
    } else {
        r == Result::<(), Chip8Error>::Err(Chip8Error::UnknownInstruction) && post == v
    }
}

/// How one whole step relates states and outcome: a misaligned or out-of-
/// range program counter is execution-fatal and leaves the state as it
/// stands; otherwise the word at PC is fetched big-endian, PC advances by
/// two before dispatch, and the instruction executes per `exec_rel`.
pub open spec fn step_rel(pre: Chip8View, post: Chip8View, r: Result<(), Chip8Error>) -> bool {
    if pre.pc % 2 != 0 {
        r == Result::<(), Chip8Error>::Err(Chip8Error::MisalignedProgramCounter) && post == pre
    } else if pre.pc + 1 >= MEMORY_SIZE {
        r == Result::<(), Chip8Error>::Err(Chip8Error::AddressOutOfBounds) && post == pre
    } else {
        exec_rel(pc_write(pre, pre.pc + 2), word_at(pre.mem, pre.pc), post, r)
    }
}

} // verus!
