//! The mathematical model of the CHIP-8 machine and the meaning of each
//! instruction, stated over that model.
use vstd::prelude::*;

use crate::machine::{Chip8Error, DISPLAY_HEIGHT, DISPLAY_SIZE, DISPLAY_WIDTH, MEMORY_SIZE, PROGRAM_START};

verus! {

/// Address at which the built-in hexadecimal font is stored.
pub const FONT_START: usize = 0x50;

/// The abstract state of a CHIP-8 machine.
pub ghost struct Machine {
    pub memory: Seq<u8>,
    pub v: Seq<u8>,
    pub i: u16,
    pub pc: u16,
    pub stack: Seq<u16>,
    pub sp: usize,
    pub delay_timer: u8,
    pub sound_timer: u8,
    pub keypad: Seq<bool>,
    pub display: Seq<bool>,
    pub waiting_for_key: Option<usize>,
    pub rng_state: u32,
    pub draw_flag: bool,
}

impl Machine {
    /// The shape every reachable machine state has.
    pub open spec fn wf(self) -> bool {
        &&& self.memory.len() == MEMORY_SIZE
        &&& self.v.len() == 16
        &&& self.stack.len() == 16
        &&& self.keypad.len() == 16
        &&& self.display.len() == DISPLAY_SIZE
        &&& self.sp <= 16
        &&& (self.waiting_for_key matches Some(r) ==> r < 16)
    }
}

/// The sprite data of the hexadecimal digits 0 to F, five bytes each.
pub open spec fn font_set() -> Seq<u8> {
    seq![
        0xF0u8, 0x90, 0x90, 0x90, 0xF0,
        0x20, 0x60, 0x20, 0x20, 0x70,
        0xF0, 0x10, 0xF0, 0x80, 0xF0,
        0xF0, 0x10, 0xF0, 0x10, 0xF0,
        0x90, 0x90, 0xF0, 0x10, 0x10,
        0xF0, 0x80, 0xF0, 0x10, 0xF0,
        0xF0, 0x80, 0xF0, 0x90, 0xF0,
        0xF0, 0x10, 0x20, 0x40, 0x40,
        0xF0, 0x90, 0xF0, 0x90, 0xF0,
        0xF0, 0x90, 0xF0, 0x10, 0xF0,
        0xF0, 0x90, 0xF0, 0x90, 0x90,
        0xE0, 0x90, 0xE0, 0x90, 0xE0,
        0xF0, 0x80, 0x80, 0x80, 0xF0,
        0xE0, 0x90, 0x90, 0x90, 0xE0,
        0xF0, 0x80, 0xF0, 0x80, 0xF0,
        0xF0, 0x80, 0xF0, 0x80, 0x80,
    ]
}

/// The state of a freshly powered-on machine.
pub open spec fn initial_machine() -> Machine {
    Machine {
        memory: Seq::new(MEMORY_SIZE as nat, |k: int|
            if FONT_START <= k < FONT_START + 80 { font_set()[k - FONT_START] } else { 0u8 }),
        v: Seq::new(16, |k: int| 0u8),
        i: 0,
        pc: 0x200,
        stack: Seq::new(16, |k: int| 0u16),
        sp: 0,
        delay_timer: 0,
        sound_timer: 0,
        keypad: Seq::new(16, |k: int| false),
        display: Seq::new(DISPLAY_SIZE as nat, |k: int| false),
        waiting_for_key: None,
        rng_state: 0xC0DE_1234,
        draw_flag: true,
    }
}


/// Memory after a program has been copied to the program start.
pub open spec fn loaded_memory(memory: Seq<u8>, program: Seq<u8>) -> Seq<u8> {
    Seq::new(memory.len(), |a: int|
        if PROGRAM_START <= a < PROGRAM_START + program.len() { program[a - PROGRAM_START] } else { memory[a] })
}

// ----------------------------------------------------------------------------
// Instruction decoding
// ----------------------------------------------------------------------------

/// The instruction family: the opcode's highest nibble.
pub open spec fn op_family(op: u16) -> u16 {
    op / 0x1000
}

/// The 12-bit address operand `nnn`.
pub open spec fn op_nnn(op: u16) -> u16 {
    op % 0x1000
}

/// The lowest nibble `n`.
pub open spec fn op_n(op: u16) -> u8 {
    (op % 0x10) as u8
}

/// The register index `x`, from the second nibble.
pub open spec fn op_x(op: u16) -> usize {
    ((op / 0x100) % 0x10) as usize
}

/// The register index `y`, from the third nibble.
pub open spec fn op_y(op: u16) -> usize {
    ((op / 0x10) % 0x10) as usize
}

/// The 8-bit immediate operand `kk`.
pub open spec fn op_kk(op: u16) -> u8 {
    (op % 0x100) as u8
}

/// The opcode stored big-endian at `pc`.
pub open spec fn fetched_opcode(s: Machine) -> u16 {
    (s.memory[s.pc as int] as int * 0x100 + s.memory[s.pc as int + 1] as int) as u16
}

// ----------------------------------------------------------------------------
// Helpers over machine states
// ----------------------------------------------------------------------------

/// `pc + 2`, wrapping at 16 bits.
pub open spec fn pc_plus_2(pc: u16) -> u16 {
    ((pc + 2) % 0x10000) as u16
}

/// Skips the next instruction when `cond` holds.
pub open spec fn skip_if(s: Machine, cond: bool) -> Machine {
    if cond {
        Machine { pc: pc_plus_2(s.pc), ..s }
    } else {
        s
    }
}

/// Writes register `x`.
pub open spec fn set_v(s: Machine, x: int, value: u8) -> Machine {
    Machine { v: s.v.update(x, value), ..s }
}

/// Whether the keypad key named by `key` is held down; a value that names
/// no key counts as not pressed.
pub open spec fn key_pressed(s: Machine, key: u8) -> bool {
    key < 16 && s.keypad[key as int]
}

/// Key `key` pressed or released. A press completes a pending wait for a
/// key by storing the key in the waiting register; a `key` beyond the keypad
/// changes nothing.
pub open spec fn set_key_spec(s: Machine, key: usize, pressed: bool) -> Machine {
    if key >= 16 {
        s
    } else if pressed && s.waiting_for_key is Some {
        Machine {
            keypad: s.keypad.update(key as int, pressed),
            v: s.v.update(s.waiting_for_key->0 as int, key as u8),
            waiting_for_key: None,
            ..s
        }
    } else {
        Machine { keypad: s.keypad.update(key as int, pressed), ..s }
    }
}

/// The next state of the linear congruential generator.
pub open spec fn lcg_next(r: u32) -> u32 {
    ((r * 1_664_525 + 1_013_904_223) % 0x1_0000_0000) as u32
}

/// The random byte drawn from generator state `r`: the top byte of the next state.
pub open spec fn random_byte(r: u32) -> u8 {
    (lcg_next(r) / 0x100_0000) as u8
}

/// Timer countdown, stopping at zero.
pub open spec fn count_down(t: u8) -> u8 {
    if t == 0 { 0 } else { (t - 1) as u8 }
}

/// A timer after `n` ticks.
pub open spec fn count_down_times(t: u8, n: nat) -> u8
    decreases n,
{
    if n == 0 { t } else { count_down(count_down_times(t, (n - 1) as nat)) }
}

/// Whether `op` names an instruction of the machine.
pub open spec fn is_known_opcode(op: u16) -> bool {
    let fam = op_family(op);
    let n = op_n(op);
    let kk = op_kk(op);
    if fam == 0x0 {
        op == 0x00E0 || op == 0x00EE
    } else if fam == 0x5 || fam == 0x9 {
        n == 0
    } else if fam == 0x8 {
        n <= 0x7 || n == 0xE
    } else if fam == 0xE {
        kk == 0x9E || kk == 0xA1
    } else if fam == 0xF {
        kk == 0x07 || kk == 0x0A || kk == 0x15 || kk == 0x18 || kk == 0x1E || kk == 0x29 || kk == 0x33
            || kk == 0x55 || kk == 0x65
    } else {
        true
    }
}

// ----------------------------------------------------------------------------
// Sprites
// ----------------------------------------------------------------------------

/// Bit `bit` of a sprite row, counted from the most significant bit.
pub open spec fn sprite_bit(byte: u8, bit: usize) -> bool {
    byte & (0x80u8 >> bit) != 0
}

/// The column at which a sprite drawn from register `xr` starts. The flag
/// register is cleared before the coordinates are read.
pub open spec fn sprite_x(s: Machine, xr: int) -> int {
    (if xr == 15 { 0 } else { s.v[xr] as int }) % (DISPLAY_WIDTH as int)
}

/// The row at which a sprite drawn from register `yr` starts.
pub open spec fn sprite_y(s: Machine, yr: int) -> int {
    (if yr == 15 { 0 } else { s.v[yr] as int }) % (DISPLAY_HEIGHT as int)
}

/// Row offset of pixel `p` from the sprite origin row `ys`, wrapping around the screen.
pub open spec fn row_offset(p: int, ys: int) -> int {
    (p / (DISPLAY_WIDTH as int) - ys) % (DISPLAY_HEIGHT as int)
}

/// Column offset of pixel `p` from the sprite origin column `xs`, wrapping around the screen.
pub open spec fn col_offset(p: int, xs: int) -> int {
    (p % (DISPLAY_WIDTH as int) - xs) % (DISPLAY_WIDTH as int)
}

/// Whether the `rows`-row sprite at `I`, drawn with origin (`xs`, `ys`),
/// has a set bit over pixel `p`.
pub open spec fn sprite_covers(s: Machine, xs: int, ys: int, rows: int, p: int) -> bool {
    let dy = row_offset(p, ys);
    let dx = col_offset(p, xs);
    dy < rows && dx < 8 && sprite_bit(s.memory[s.i + dy], dx as usize)
}

/// Whether the sprite covers a pixel that is already lit.
pub open spec fn sprite_collides(s: Machine, xs: int, ys: int, rows: int) -> bool {
    exists|p: int|
        0 <= p < DISPLAY_SIZE && #[trigger] sprite_covers(s, xs, ys, rows, p) && s.display[p]
}

/// `DXYN`: each covered pixel is flipped; the flag register tells whether a
/// lit pixel was covered.
#[verifier::opaque]
pub open spec fn draw_sprite_spec(s: Machine, xr: int, yr: int, rows: int) -> Machine {
    let xs = sprite_x(s, xr);
    let ys = sprite_y(s, yr);
    Machine {
        display: Seq::new(
            DISPLAY_SIZE as nat,
            |p: int| s.display[p] != sprite_covers(s, xs, ys, rows, p),
        ),
        v: s.v.update(15, if sprite_collides(s, xs, ys, rows) { 1u8 } else { 0u8 }),
        draw_flag: true,
        ..s
    }
}

// ----------------------------------------------------------------------------
// Instructions
// ----------------------------------------------------------------------------

/// The arithmetic and logic group `8XYN` on the register file `v`;
/// `None` for an `n` that names no instruction.
#[verifier::opaque]
pub open spec fn alu_spec(v: Seq<u8>, x: int, y: int, n: u8) -> Option<Seq<u8>> {
    let vx = v[x];
    let vy = v[y];
    if n == 0x0 {
        Some(v.update(x, vy))
    } else if n == 0x1 {
        Some(v.update(x, vx | vy))
    } else if n == 0x2 {
        Some(v.update(x, vx & vy))
    } else if n == 0x3 {
        Some(v.update(x, vx ^ vy))
    } else if n == 0x4 {
        Some(v.update(x, ((vx + vy) % 256) as u8).update(15, if vx + vy > 255 { 1u8 } else { 0u8 }))
    } else if n == 0x5 {
        Some(v.update(x, ((vx - vy) % 256) as u8).update(15, if vx >= vy { 1u8 } else { 0u8 }))
    } else if n == 0x6 {
        let v1 = v.update(15, vx % 2);
        Some(v1.update(x, v1[x] / 2))
    } else if n == 0x7 {
        Some(v.update(x, ((vy - vx) % 256) as u8).update(15, if vy >= vx { 1u8 } else { 0u8 }))
    } else if n == 0xE {
        let v1 = v.update(15, vx / 128);
        Some(v1.update(x, ((v1[x] * 2) % 256) as u8))
    } else {
        None
    }
}

/// The `FXKK` group; `None` for a `kk` that names no instruction.
#[verifier::opaque]
pub open spec fn misc_spec(s: Machine, x: int, kk: u8) -> Option<Machine> {
    let vx = s.v[x];
    let i = s.i as int;
    if kk == 0x07 {
        Some(set_v(s, x, s.delay_timer))
    } else if kk == 0x0A {
        Some(Machine { waiting_for_key: Some(x as usize), ..s })
    } else if kk == 0x15 {
        Some(Machine { delay_timer: vx, ..s })
    } else if kk == 0x18 {
        Some(Machine { sound_timer: vx, ..s })
    } else if kk == 0x1E {
        Some(Machine { i: ((i + vx) % 0x10000) as u16, ..s })
    } else if kk == 0x29 {
        Some(Machine { i: (FONT_START + (vx % 16) * 5) as u16, ..s })
    } else if kk == 0x33 {
        Some(Machine {
            memory: s.memory.update(i, vx / 100).update(i + 1, (vx / 10) % 10).update(i + 2, vx % 10),
            ..s
        })
    } else if kk == 0x55 {
        Some(Machine {
            memory: Seq::new(
                MEMORY_SIZE as nat,
                |a: int| if i <= a <= i + x { s.v[a - i] } else { s.memory[a] },
            ),
            ..s
        })
    } else if kk == 0x65 {
        Some(Machine {
            v: Seq::new(16, |r: int| if r <= x { s.memory[i + r] } else { s.v[r] }),
            ..s
        })
    } else {
        None
    }
}

/// Whether executing `op` in state `s` stays inside memory. Outside this,
/// the instruction would address memory past its end.
pub open spec fn execute_in_bounds(s: Machine, op: u16) -> bool {
    let i = s.i as int;
    let fam = op_family(op);
    let kk = op_kk(op);
    &&& fam == 0xD ==> (op_n(op) == 0 || i + op_n(op) <= MEMORY_SIZE)
    &&& (fam == 0xF && kk == 0x33) ==> i + 2 < MEMORY_SIZE
    &&& (fam == 0xF && (kk == 0x55 || kk == 0x65)) ==> i + op_x(op) < MEMORY_SIZE
}

/// Control flow: `00E0` (clear), `00EE` (return), `1NNN` (jump), `2NNN` (call)
/// and `BNNN` (jump plus `V0`).
#[verifier::opaque]
pub open spec fn flow_spec(s: Machine, op: u16) -> (Machine, Result<(), Chip8Error>) {
    let fam = op_family(op);
    let nnn = op_nnn(op);
    if fam == 0x0 {
        if op == 0x00E0 {
            (Machine { display: Seq::new(DISPLAY_SIZE as nat, |p: int| false), draw_flag: true, ..s }, Ok(()))
        } else if op == 0x00EE {
            if s.sp == 0 {
                (s, Err(Chip8Error::StackUnderflow))
            } else {
                (Machine { sp: (s.sp - 1) as usize, pc: s.stack[s.sp - 1], ..s }, Ok(()))
            }
        } else {
            (s, Err(Chip8Error::UnknownOpcode(op)))
        }
    } else if fam == 0x1 {
        (Machine { pc: nnn, ..s }, Ok(()))
    } else if fam == 0x2 {
        if s.sp == 16 {
            (s, Err(Chip8Error::StackOverflow))
        } else {
            (Machine { stack: s.stack.update(s.sp as int, s.pc), sp: (s.sp + 1) as usize, pc: nnn, ..s }, Ok(()))
        }
    } else {
        (Machine { pc: (nnn + s.v[0]) as u16, ..s }, Ok(()))
    }
}

/// Conditional skips: `3XKK`, `4XKK`, `5XY0`, `9XY0`, `EX9E` and `EXA1`.
#[verifier::opaque]
pub open spec fn skip_spec(s: Machine, op: u16) -> (Machine, Result<(), Chip8Error>) {
    let fam = op_family(op);
    let vx = s.v[op_x(op) as int];
    let vy = s.v[op_y(op) as int];
    let kk = op_kk(op);
    let n = op_n(op);
    let unknown = (s, Err(Chip8Error::UnknownOpcode(op)));
    if fam == 0x3 {
        (skip_if(s, vx == kk), Ok(()))
    } else if fam == 0x4 {
        (skip_if(s, vx != kk), Ok(()))
    } else if fam == 0x5 {
        if n == 0 { (skip_if(s, vx == vy), Ok(())) } else { unknown }
    } else if fam == 0x9 {
        if n == 0 { (skip_if(s, vx != vy), Ok(())) } else { unknown }
    } else {
        if kk == 0x9E {
            (skip_if(s, key_pressed(s, vx)), Ok(()))
        } else if kk == 0xA1 {
            (skip_if(s, !key_pressed(s, vx)), Ok(()))
        } else {
            unknown
        }
    }
}

/// Loads: `6XKK`, `7XKK` (add without carry), `ANNN` (set `I`) and `CXKK` (random).
#[verifier::opaque]
pub open spec fn load_spec(s: Machine, op: u16) -> Machine {
    let fam = op_family(op);
    let x = op_x(op) as int;
    let vx = s.v[x];
    let kk = op_kk(op);
    if fam == 0x6 {
        set_v(s, x, kk)
    } else if fam == 0x7 {
        set_v(s, x, ((vx + kk) % 256) as u8)
    } else if fam == 0xA {
        Machine { i: op_nnn(op), ..s }
    } else {
        Machine { v: s.v.update(x, random_byte(s.rng_state) & kk), rng_state: lcg_next(s.rng_state), ..s }
    }
}

/// The effect of one instruction: the next state and whether it succeeded.
/// A failing instruction leaves the state as it was.
pub open spec fn execute_spec(s: Machine, op: u16) -> (Machine, Result<(), Chip8Error>) {
    let fam = op_family(op);
    if fam == 0x0 || fam == 0x1 || fam == 0x2 || fam == 0xB {
        flow_spec(s, op)
    } else if fam == 0x3 || fam == 0x4 || fam == 0x5 || fam == 0x9 || fam == 0xE {
        skip_spec(s, op)
    } else if fam == 0x6 || fam == 0x7 || fam == 0xA || fam == 0xC {
        (load_spec(s, op), Ok(()))
    } else if fam == 0x8 {
        match alu_spec(s.v, op_x(op) as int, op_y(op) as int, op_n(op)) {
            Some(v) => (Machine { v, ..s }, Ok(())),
            None => (s, Err(Chip8Error::UnknownOpcode(op))),
        }
    } else if fam == 0xD {
        (draw_sprite_spec(s, op_x(op) as int, op_y(op) as int, op_n(op) as int), Ok(()))
    } else {
        match misc_spec(s, op_x(op) as int, op_kk(op)) {
            Some(m) => (m, Ok(())),
            None => (s, Err(Chip8Error::UnknownOpcode(op))),
        }
    }
}


/// Whether the next cycle stays inside memory: a machine waiting for a key
/// does nothing; otherwise both opcode bytes and the memory the instruction
/// addresses lie inside memory.
pub open spec fn cycle_in_bounds(s: Machine) -> bool {
    ||| s.waiting_for_key is Some
    ||| s.pc + 1 < MEMORY_SIZE && execute_in_bounds(s, fetched_opcode(s))
}

/// One machine cycle: while waiting for a key nothing happens; otherwise the
/// opcode at `pc` is fetched, `pc` advances by two and the opcode executes.
pub open spec fn cycle_spec(s: Machine) -> (Machine, Result<(), Chip8Error>) {
    if s.waiting_for_key is Some {
        (s, Ok(()))
    } else {
        execute_spec(Machine { pc: pc_plus_2(s.pc), ..s }, fetched_opcode(s))
    }
}

} // verus!
