//! Properties of the instruction set that hold across instructions and states.
use vstd::prelude::*;

use crate::machine::{Chip8Error, DISPLAY_SIZE, MEMORY_SIZE, PROGRAM_START};
use crate::spec::{
    alu_spec, col_offset, count_down, count_down_times, set_key_spec, cycle_spec, draw_sprite_spec, execute_in_bounds,
    execute_spec, fetched_opcode, flow_spec, font_set, is_known_opcode, load_spec, loaded_memory,
    misc_spec, op_family, op_kk, op_n, op_nnn, op_x, op_y, pc_plus_2, row_offset, skip_spec,
    sprite_bit, sprite_collides, sprite_covers, sprite_x, sprite_y, Machine, FONT_START,
};

verus! {

/// Every instruction that stays inside memory keeps the machine well formed.
pub proof fn execute_preserves_wf(s: Machine, op: u16)
    requires
        s.wf(),
        execute_in_bounds(s, op),
    ensures
        execute_spec(s, op).0.wf(),
{
    reveal(flow_spec);
    reveal(skip_spec);
    reveal(load_spec);
    reveal(alu_spec);
    reveal(misc_spec);
    reveal(draw_sprite_spec);
    if op_family(op) == 0xF {
        let m = misc_spec(s, op_x(op) as int, op_kk(op));
        if m is Some {
            assert(m->0.memory.len() == MEMORY_SIZE);
        }
    }
}

/// An instruction that fails leaves the machine exactly as it was.
pub proof fn failed_instruction_changes_nothing(s: Machine, op: u16)
    requires
        execute_spec(s, op).1 is Err,
    ensures
        execute_spec(s, op).0 == s,
{
    reveal(flow_spec);
    reveal(skip_spec);
    reveal(alu_spec);
    reveal(misc_spec);
}

/// While the machine waits for a key, a cycle changes nothing.
pub proof fn cycle_while_waiting_is_idle(s: Machine)
    requires
        s.waiting_for_key is Some,
    ensures
        cycle_spec(s) == (s, Ok::<(), Chip8Error>(())),
{
}

/// A subroutine call (`2NNN`) followed by a return (`00EE`) resumes at the
/// address after the call with the stack depth it had, leaving the return
/// address in the stack slot the call used.
pub proof fn call_then_return(s: Machine, nnn: u16)
    requires
        s.wf(),
        s.sp < 16,
        nnn < 0x1000,
    ensures
        ({
            let (s1, r1) = execute_spec(s, (0x2000 + nnn) as u16);
            let (s2, r2) = execute_spec(s1, 0x00EE);
            &&& r1 is Ok
            &&& s1.pc == nnn
            &&& s1.sp == s.sp + 1
            &&& r2 is Ok
            &&& s2 == (Machine { stack: s.stack.update(s.sp as int, s.pc), ..s })
        }),
{
    reveal(flow_spec);
    let op = (0x2000 + nnn) as u16;
    assert(op_family(op) == 2);
    assert(op_nnn(op) == nnn);
    assert(op_family(0x00EEu16) == 0);
}

/// A return with an empty stack fails and a call with a full stack fails.
pub proof fn stack_limits(s: Machine, nnn: u16)
    requires
        s.wf(),
        nnn < 0x1000,
    ensures
        s.sp == 0 ==> execute_spec(s, 0x00EE).1 == Err::<(), Chip8Error>(Chip8Error::StackUnderflow),
        s.sp == 16 ==> execute_spec(s, (0x2000 + nnn) as u16).1 == Err::<(), Chip8Error>(
            Chip8Error::StackOverflow,
        ),
{
    reveal(flow_spec);
    assert(op_family((0x2000 + nnn) as u16) == 2);
    assert(op_family(0x00EEu16) == 0);
}

/// Drawing the same sprite twice in a row restores the display: each pixel
/// is flipped twice.
pub proof fn draw_twice_restores_display(s: Machine, op: u16)
    requires
        s.wf(),
        op_family(op) == 0xD,
    ensures
        execute_spec(execute_spec(s, op).0, op).0.display == s.display,
{
    reveal(draw_sprite_spec);
    let x = op_x(op) as int;
    let y = op_y(op) as int;
    let n = op_n(op) as int;
    let s1 = execute_spec(s, op).0;
    let s2 = execute_spec(s1, op).0;
    assert(s1 == draw_sprite_spec(s, x, y, n));
    assert(s2 == draw_sprite_spec(s1, x, y, n));
    assert(sprite_x(s1, x) == sprite_x(s, x));
    assert(sprite_y(s1, y) == sprite_y(s, y));
    let xs = sprite_x(s, x);
    let ys = sprite_y(s, y);
    assert forall|p: int| 0 <= p < DISPLAY_SIZE implies sprite_covers(s1, xs, ys, n, p)
        == sprite_covers(s, xs, ys, n, p) by {
    }
    assert(s2.display =~= s.display);
}

/// On a blank display a sprite reports no collision; drawing it a second
/// time blanks the display again and reports a collision exactly when the
/// sprite has a set bit somewhere on screen.
pub proof fn draw_on_blank_then_again(s: Machine, op: u16)
    requires
        s.wf(),
        op_family(op) == 0xD,
        forall|p: int| 0 <= p < DISPLAY_SIZE ==> !#[trigger] s.display[p],
    ensures
        ({
            let s1 = execute_spec(s, op).0;
            let s2 = execute_spec(s1, op).0;
            let covers_some = exists|p: int|
                0 <= p < DISPLAY_SIZE && #[trigger] sprite_covers(
                    s,
                    sprite_x(s, op_x(op) as int),
                    sprite_y(s, op_y(op) as int),
                    op_n(op) as int,
                    p,
                );
            &&& s1.v[15] == 0
            &&& forall|p: int| 0 <= p < DISPLAY_SIZE ==> !#[trigger] s2.display[p]
            &&& s2.v[15] == (if covers_some { 1u8 } else { 0u8 })
        }),
{
    reveal(draw_sprite_spec);
    draw_twice_restores_display(s, op);
    let x = op_x(op) as int;
    let y = op_y(op) as int;
    let n = op_n(op) as int;
    let s1 = execute_spec(s, op).0;
    let xs = sprite_x(s, x);
    let ys = sprite_y(s, y);
    assert(sprite_x(s1, x) == xs);
    assert(sprite_y(s1, y) == ys);
    assert(!sprite_collides(s, xs, ys, n));
    assert forall|p: int| 0 <= p < DISPLAY_SIZE implies sprite_covers(s1, xs, ys, n, p)
        == sprite_covers(s, xs, ys, n, p) by {
    }
    let covers_some = exists|p: int| 0 <= p < DISPLAY_SIZE && #[trigger] sprite_covers(s, xs, ys, n, p);
    if covers_some {
        let p = choose|p: int| 0 <= p < DISPLAY_SIZE && #[trigger] sprite_covers(s, xs, ys, n, p);
        assert(s1.display[p]);
        assert(sprite_covers(s1, xs, ys, n, p));
        assert(sprite_collides(s1, xs, ys, n));
    }
    if sprite_collides(s1, xs, ys, n) {
        let p = choose|p: int| 0 <= p < DISPLAY_SIZE && #[trigger] sprite_covers(s1, xs, ys, n, p) && s1.display[p];
        assert(sprite_covers(s, xs, ys, n, p));
    }
}

/// `8XY4` adds with carry: the sum is the result plus 256 times the carry flag.
pub proof fn add_with_carry(s: Machine, op: u16)
    requires
        s.wf(),
        op_family(op) == 0x8,
        op_n(op) == 0x4,
        op_x(op) != 15,
    ensures
        ({
            let s1 = execute_spec(s, op).0;
            s1.v[op_x(op) as int] + 256 * s1.v[15] == s.v[op_x(op) as int] + s.v[op_y(op) as int]
        }),
{
    reveal(alu_spec);
}

/// `8XY5` subtracts with borrow: the flag is 1 exactly when no borrow occurred.
pub proof fn subtract_with_borrow(s: Machine, op: u16)
    requires
        s.wf(),
        op_family(op) == 0x8,
        op_n(op) == 0x5,
        op_x(op) != 15,
    ensures
        ({
            let s1 = execute_spec(s, op).0;
            s1.v[op_x(op) as int] == s.v[op_x(op) as int] - s.v[op_y(op) as int] + 256 * (1 - s1.v[15])
        }),
{
    reveal(alu_spec);
}

/// `8XY6` and `8XYE` shift `VX` (not `VY`) by one bit; the bit shifted out
/// lands in the flag and nothing else changes.
pub proof fn shifts_keep_the_lost_bit(s: Machine, op: u16)
    requires
        s.wf(),
        op_family(op) == 0x8,
        op_n(op) == 0x6 || op_n(op) == 0xE,
        op_x(op) != 15,
    ensures
        ({
            let s1 = execute_spec(s, op).0;
            let x = op_x(op) as int;
            &&& op_n(op) == 0x6 ==> 2 * s1.v[x] + s1.v[15] == s.v[x]
            &&& op_n(op) == 0xE ==> s1.v[x] + 256 * s1.v[15] == 2 * s.v[x]
            &&& op_n(op) == 0x6 ==> s1.v[15] == s.v[x] % 2 && s1.v[x] == s.v[x] / 2
            &&& op_n(op) == 0xE ==> s1.v[15] == s.v[x] / 128 && s1.v[x] == (s.v[x] * 2) % 256
            &&& execute_spec(s, op).1 is Ok
            &&& s1 == (Machine { v: s1.v, ..s })
            &&& forall|k: int| 0 <= k < 16 && k != x && k != 15 ==> s1.v[k] == s.v[k]
        }),
{
    reveal(alu_spec);
}

/// `FX33` stores the three decimal digits of `VX` at `I`, `I + 1`, `I + 2`.
pub proof fn bcd_digits(s: Machine, op: u16)
    requires
        s.wf(),
        op_family(op) == 0xF,
        op_kk(op) == 0x33,
        execute_in_bounds(s, op),
    ensures
        ({
            let m = execute_spec(s, op).0.memory;
            let i = s.i as int;
            &&& m[i] < 10 && m[i + 1] < 10 && m[i + 2] < 10
            &&& 100 * m[i] + 10 * m[i + 1] + m[i + 2] == s.v[op_x(op) as int]
        }),
{
    reveal(misc_spec);
}

/// Loading registers `V0..=VX` (`FX65`) right after storing them (`FX55`)
/// changes nothing: the load reads back exactly what the store wrote.
pub proof fn store_then_load_registers(s: Machine, x: u16)
    requires
        s.wf(),
        x < 16,
        s.i + x < MEMORY_SIZE,
    ensures
        ({
            let stored = execute_spec(s, (0xF055 + x * 0x100) as u16).0;
            execute_spec(stored, (0xF065 + x * 0x100) as u16).0 == stored
        }),
{
    reveal(misc_spec);
    let store = (0xF055 + x * 0x100) as u16;
    let load = (0xF065 + x * 0x100) as u16;
    assert(op_family(store) == 0xF && op_kk(store) == 0x55 && op_x(store) == x);
    assert(op_family(load) == 0xF && op_kk(load) == 0x65 && op_x(load) == x);
    let stored = execute_spec(s, store).0;
    let loaded = execute_spec(stored, load).0;
    assert(loaded.v =~= stored.v);
}

/// `3XKK` and `4XKK` with the same operands are complementary: exactly one
/// of them skips the next instruction.
pub proof fn skip_equal_and_not_equal_complement(s: Machine, x: u16, kk: u16)
    requires
        s.wf(),
        x < 16,
        kk < 0x100,
    ensures
        ({
            let eq = execute_spec(s, (0x3000 + x * 0x100 + kk) as u16).0;
            let ne = execute_spec(s, (0x4000 + x * 0x100 + kk) as u16).0;
            (eq.pc == s.pc) != (ne.pc == s.pc)
        }),
{
    reveal(skip_spec);
    let eq_op = (0x3000 + x * 0x100 + kk) as u16;
    let ne_op = (0x4000 + x * 0x100 + kk) as u16;
    assert(op_family(eq_op) == 3 && op_x(eq_op) == x && op_kk(eq_op) == kk);
    assert(op_family(ne_op) == 4 && op_x(ne_op) == x && op_kk(ne_op) == kk);
}


/// After a program is loaded, the first opcode fetched is its first two
/// bytes, high byte first.
pub proof fn loaded_program_is_fetched(s: Machine, program: Seq<u8>)
    requires
        s.wf(),
        2 <= program.len() <= MEMORY_SIZE - PROGRAM_START,
    ensures
        fetched_opcode(Machine { memory: loaded_memory(s.memory, program), pc: PROGRAM_START as u16, ..s })
            == (program[0] as int * 0x100 + program[1] as int) as u16,
{
}

/// Loads, arithmetic, drawing and the `FX` group never redirect the program:
/// a cycle that executes one of them moves on to the next instruction.
pub proof fn straight_line_cycle_advances_pc(s: Machine)
    requires
        s.wf(),
        s.waiting_for_key is None,
        s.pc + 1 < MEMORY_SIZE,
        ({
            let fam = op_family(fetched_opcode(s));
            fam == 0x6 || fam == 0x7 || fam == 0x8 || fam == 0xA || fam == 0xC || fam == 0xD
                || fam == 0xF
        }),
    ensures
        cycle_spec(s).0.pc == pc_plus_2(s.pc),
{
    reveal(load_spec);
    reveal(alu_spec);
    reveal(misc_spec);
    reveal(draw_sprite_spec);
}

/// A conditional skip moves on by one or two instructions.
pub proof fn skip_cycle_moves_one_or_two(s: Machine)
    requires
        s.wf(),
        s.waiting_for_key is None,
        s.pc + 1 < MEMORY_SIZE,
        ({
            let fam = op_family(fetched_opcode(s));
            fam == 0x3 || fam == 0x4 || fam == 0x5 || fam == 0x9 || fam == 0xE
        }),
        cycle_spec(s).1 is Ok,
    ensures
        cycle_spec(s).0.pc == pc_plus_2(s.pc) || cycle_spec(s).0.pc == pc_plus_2(pc_plus_2(s.pc)),
{
    reveal(skip_spec);
}

/// Each sprite offset names exactly one screen pixel: the pixel at row
/// offset `r` and column offset `b` from the origin (`xs`, `ys`) is `q`, and no
/// other pixel has these offsets.
pub proof fn sprite_offset_names_one_pixel(xs: int, ys: int, r: int, b: int)
    requires
        0 <= xs < 64,
        0 <= ys < 32,
        0 <= r < 32,
        0 <= b < 64,
    ensures
        ({
            let q = ((ys + r) % 32) * 64 + (xs + b) % 64;
            &&& 0 <= q < DISPLAY_SIZE
            &&& row_offset(q, ys) == r
            &&& col_offset(q, xs) == b
            &&& forall|p: int|
                0 <= p < DISPLAY_SIZE && row_offset(p, ys) == r && col_offset(p, xs) == b ==> p == q
        }),
{
    let qy = (ys + r) % 32;
    let qx = (xs + b) % 64;
    let q = qy * 64 + qx;
    assert(q / 64 == qy && q % 64 == qx) by (nonlinear_arith)
        requires q == qy * 64 + qx, 0 <= qx < 64, 0 <= qy;
    assert(qy == ys + r || qy == ys + r - 32);
    assert(qx == xs + b || qx == xs + b - 64);
    assert forall|p: int|
        0 <= p < DISPLAY_SIZE && row_offset(p, ys) == r && col_offset(p, xs) == b implies p == q by {
        let py = p / 64;
        let px = p % 64;
        assert(p == py * 64 + px && 0 <= py < 32 && 0 <= px < 64) by (nonlinear_arith)
            requires 0 <= p < 2048, py == p / 64, px == p % 64;
        assert(py == qy);
        assert(px == qx);
    }
}


/// The outcome of an instruction: an opcode outside the instruction set is
/// refused; a return with an empty stack underflows; a call with a full
/// stack overflows; everything else succeeds.
pub proof fn execute_outcome(s: Machine, op: u16)
    requires
        s.wf(),
    ensures
        execute_spec(s, op).1 == (if !is_known_opcode(op) {
            Err::<(), Chip8Error>(Chip8Error::UnknownOpcode(op))
        } else if op == 0x00EE && s.sp == 0 {
            Err(Chip8Error::StackUnderflow)
        } else if op_family(op) == 0x2 && s.sp == 16 {
            Err(Chip8Error::StackOverflow)
        } else {
            Ok(())
        }),
{
    reveal(flow_spec);
    reveal(skip_spec);
    reveal(alu_spec);
    reveal(misc_spec);
}

/// `3XKK`, `4XKK`, `5XY0` and `9XY0` skip the next instruction exactly when
/// their comparison holds, and change nothing else.
pub proof fn compare_skips(s: Machine, op: u16)
    requires
        s.wf(),
        is_known_opcode(op),
        op_family(op) == 0x3 || op_family(op) == 0x4 || op_family(op) == 0x5 || op_family(op) == 0x9,
    ensures
        ({
            let vx = s.v[op_x(op) as int];
            let vy = s.v[op_y(op) as int];
            let kk = op_kk(op);
            let fam = op_family(op);
            let taken = if fam == 0x3 {
                vx == kk
            } else if fam == 0x4 {
                vx != kk
            } else if fam == 0x5 {
                vx == vy
            } else {
                vx != vy
            };
            execute_spec(s, op) == (
                Machine { pc: if taken { pc_plus_2(s.pc) } else { s.pc }, ..s },
                Ok::<(), Chip8Error>(()),
            )
        }),
{
    reveal(skip_spec);
}

/// `7XKK` adds without carry: `VX` wraps at 256 and no other register,
/// `VF` included, changes.
pub proof fn add_immediate_wraps(s: Machine, op: u16)
    requires
        s.wf(),
        op_family(op) == 0x7,
    ensures
        execute_spec(s, op) == (
            Machine {
                v: s.v.update(op_x(op) as int, ((s.v[op_x(op) as int] + op_kk(op)) % 256) as u8),
                ..s
            },
            Ok::<(), Chip8Error>(()),
        ),
{
    reveal(load_spec);
}

/// `8XY4`, `8XY5` and `8XY7` set `VF` to the carry, or to "no borrow", even
/// when `X` is `F` (the flag is written last); `VX` gets the wrapped result
/// otherwise; no other register and nothing outside the registers changes.
pub proof fn arithmetic_flags(s: Machine, op: u16)
    requires
        s.wf(),
        op_family(op) == 0x8,
        op_n(op) == 0x4 || op_n(op) == 0x5 || op_n(op) == 0x7,
    ensures
        ({
            let x = op_x(op) as int;
            let a = s.v[x];
            let b = s.v[op_y(op) as int];
            let n = op_n(op);
            let (s1, r) = execute_spec(s, op);
            &&& r is Ok
            &&& s1 == (Machine { v: s1.v, ..s })
            &&& s1.v.len() == 16
            &&& s1.v[15] == (if n == 0x4 {
                if a + b > 255 { 1u8 } else { 0u8 }
            } else if n == 0x5 {
                if a >= b { 1u8 } else { 0u8 }
            } else {
                if b >= a { 1u8 } else { 0u8 }
            })
            &&& x != 15 ==> s1.v[x] == (if n == 0x4 {
                ((a + b) % 256) as u8
            } else if n == 0x5 {
                ((a - b) % 256) as u8
            } else {
                ((b - a) % 256) as u8
            })
            &&& forall|k: int| 0 <= k < 16 && k != x && k != 15 ==> s1.v[k] == s.v[k]
        }),
{
    reveal(alu_spec);
}

/// `FX33` writes only `I`, `I + 1` and `I + 2`, hundreds first.
pub proof fn bcd_writes_three_bytes(s: Machine, op: u16)
    requires
        s.wf(),
        op_family(op) == 0xF,
        op_kk(op) == 0x33,
        execute_in_bounds(s, op),
    ensures
        ({
            let (s1, r) = execute_spec(s, op);
            let i = s.i as int;
            let d = s.v[op_x(op) as int];
            &&& r is Ok
            &&& s1 == (Machine { memory: s1.memory, ..s })
            &&& s1.memory.len() == MEMORY_SIZE
            &&& s1.memory[i] == d / 100 && s1.memory[i + 1] == (d / 10) % 10 && s1.memory[i + 2] == d % 10
            &&& forall|a: int| 0 <= a < MEMORY_SIZE && a != i && a != i + 1 && a != i + 2 ==> s1.memory[a] == s.memory[a]
        }),
{
    reveal(misc_spec);
}

/// `FX55` copies `V0..=VX` to `I..=I+X` and `FX65` copies them back; neither
/// moves `I` or touches anything else.
pub proof fn register_transfers(s: Machine, op: u16)
    requires
        s.wf(),
        op_family(op) == 0xF,
        op_kk(op) == 0x55 || op_kk(op) == 0x65,
        execute_in_bounds(s, op),
    ensures
        ({
            let (s1, r) = execute_spec(s, op);
            let i = s.i as int;
            let x = op_x(op) as int;
            &&& r is Ok
            &&& op_kk(op) == 0x55 ==> {
                &&& s1 == (Machine { memory: s1.memory, ..s })
                &&& forall|k: int| 0 <= k <= x ==> s1.memory[i + k] == s.v[k]
                &&& forall|a: int| 0 <= a < MEMORY_SIZE && !(i <= a <= i + x) ==> s1.memory[a] == s.memory[a]
            }
            &&& op_kk(op) == 0x65 ==> {
                &&& s1 == (Machine { v: s1.v, ..s })
                &&& forall|k: int| 0 <= k <= x ==> s1.v[k] == s.memory[i + k]
                &&& forall|k: int| x < k < 16 ==> s1.v[k] == s.v[k]
            }
        }),
{
    reveal(misc_spec);
}

/// `FX29` points `I` at the font sprite of the low nibble of `VX`; while the
/// font is intact, the five bytes there are that digit's sprite.
pub proof fn font_sprite_address(s: Machine, op: u16)
    requires
        s.wf(),
        op_family(op) == 0xF,
        op_kk(op) == 0x29,
        forall|k: int| 0 <= k < 80 ==> s.memory[FONT_START + k] == #[trigger] font_set()[k],
    ensures
        ({
            let (s1, r) = execute_spec(s, op);
            let d = s.v[op_x(op) as int] % 16;
            &&& r is Ok
            &&& s1 == (Machine { i: s1.i, ..s })
            &&& s1.i == FONT_START + 5 * d
            &&& s1.memory.subrange(s1.i as int, s1.i + 5) == font_set().subrange(5 * d, 5 * d + 5)
        }),
{
    reveal(misc_spec);
    let d = s.v[op_x(op) as int] % 16;
    let s1 = execute_spec(s, op).0;
    assert forall|j: int| 0 <= j < 5 implies #[trigger] s1.memory.subrange(s1.i as int, s1.i + 5)[j]
        == font_set().subrange(5 * d, 5 * d + 5)[j] by {
        assert(0 <= 5 * d + j < 80);
        assert(s.memory[FONT_START + (5 * d + j)] == font_set()[5 * d + j]);
    }
    assert(s1.memory.subrange(s1.i as int, s1.i + 5) =~= font_set().subrange(5 * d, 5 * d + 5));
}

/// A cycle fetches the opcode at `pc`, advances `pc` by two and executes
/// the opcode; when the instruction fails, only `pc` has moved.
pub proof fn cycle_is_fetch_advance_execute(s: Machine)
    requires
        s.wf(),
        s.waiting_for_key is None,
        s.pc + 1 < MEMORY_SIZE,
    ensures
        cycle_spec(s) == execute_spec(Machine { pc: pc_plus_2(s.pc), ..s }, fetched_opcode(s)),
        cycle_spec(s).1 is Err ==> cycle_spec(s).0 == (Machine { pc: pc_plus_2(s.pc), ..s }),
{
    let moved = Machine { pc: pc_plus_2(s.pc), ..s };
    if execute_spec(moved, fetched_opcode(s)).1 is Err {
        failed_instruction_changes_nothing(moved, fetched_opcode(s));
    }
}

/// Only `00E0` and `DXYN` request a redraw.
pub proof fn only_clear_and_draw_request_redraw(s: Machine)
    requires
        s.wf(),
        s.waiting_for_key is None,
        s.pc + 1 < MEMORY_SIZE,
    ensures
        ({
            let op = fetched_opcode(s);
            cycle_spec(s).0.draw_flag == (s.draw_flag || op == 0x00E0 || op_family(op) == 0xD)
        }),
{
    reveal(flow_spec);
    reveal(skip_spec);
    reveal(load_spec);
    reveal(alu_spec);
    reveal(misc_spec);
    reveal(draw_sprite_spec);
}

/// After `n` ticks a timer that started at `t` reads `t - n`, or zero once
/// `n` reaches `t`.
pub proof fn timer_after_ticks(t: u8, n: nat)
    ensures
        count_down_times(t, n) == (if n <= t { (t - n) as u8 } else { 0u8 }),
    decreases n,
{
    if n > 0 {
        timer_after_ticks(t, (n - 1) as nat);
    }
}


/// The screen pixel on which bit `b` of sprite row `r` lands when the
/// sprite's origin is (`xs`, `ys`).
pub open spec fn sprite_pixel(xs: int, ys: int, r: int, b: int) -> int {
    ((ys + r) % 32) * 64 + (xs + b) % 64
}

/// The sprite rule as a set of pixels: a sprite covers exactly the pixels on
/// which one of its set bits lands.
pub proof fn sprite_covers_its_set_bits(s: Machine, xs: int, ys: int, rows: int, p: int)
    requires
        s.wf(),
        0 <= xs < 64,
        0 <= ys < 32,
        0 <= rows <= 15,
        0 <= p < DISPLAY_SIZE,
    ensures
        sprite_covers(s, xs, ys, rows, p) <==> exists|r: int, b: int|
            0 <= r < rows && 0 <= b < 8 && sprite_bit(s.memory[s.i + r], b as usize)
                && p == #[trigger] sprite_pixel(xs, ys, r, b),
{
    let dy = row_offset(p, ys);
    let dx = col_offset(p, xs);
    if sprite_covers(s, xs, ys, rows, p) {
        sprite_offset_names_one_pixel(xs, ys, dy, dx);
        assert(p == sprite_pixel(xs, ys, dy, dx));
    }
    if exists|r: int, b: int|
        0 <= r < rows && 0 <= b < 8 && sprite_bit(s.memory[s.i + r], b as usize)
            && p == #[trigger] sprite_pixel(xs, ys, r, b) {
        let (r, b) = choose|r: int, b: int|
            0 <= r < rows && 0 <= b < 8 && sprite_bit(s.memory[s.i + r], b as usize)
                && p == #[trigger] sprite_pixel(xs, ys, r, b);
        sprite_offset_names_one_pixel(xs, ys, r, b);
    }
}

/// Drawing a sprite a second time reports a collision exactly when the
/// sprite covers a pixel that was dark before the first draw.
pub proof fn second_draw_collides_iff_covered_pixel_was_dark(s: Machine, op: u16)
    requires
        s.wf(),
        op_family(op) == 0xD,
    ensures
        ({
            let xs = sprite_x(s, op_x(op) as int);
            let ys = sprite_y(s, op_y(op) as int);
            let n = op_n(op) as int;
            let s2 = execute_spec(execute_spec(s, op).0, op).0;
            s2.v[15] == (if exists|p: int|
                0 <= p < DISPLAY_SIZE && #[trigger] sprite_covers(s, xs, ys, n, p) && !s.display[p] {
                1u8
            } else {
                0u8
            })
        }),
{
    reveal(draw_sprite_spec);
    let x = op_x(op) as int;
    let y = op_y(op) as int;
    let n = op_n(op) as int;
    let s1 = execute_spec(s, op).0;
    let xs = sprite_x(s, x);
    let ys = sprite_y(s, y);
    assert(sprite_x(s1, x) == xs);
    assert(sprite_y(s1, y) == ys);
    assert forall|p: int| 0 <= p < DISPLAY_SIZE implies sprite_covers(s1, xs, ys, n, p)
        == sprite_covers(s, xs, ys, n, p) by {
    }
    let dark = exists|p: int| 0 <= p < DISPLAY_SIZE && #[trigger] sprite_covers(s, xs, ys, n, p) && !s.display[p];
    if dark {
        let p = choose|p: int| 0 <= p < DISPLAY_SIZE && #[trigger] sprite_covers(s, xs, ys, n, p) && !s.display[p];
        assert(sprite_covers(s1, xs, ys, n, p) && s1.display[p]);
    }
    if sprite_collides(s1, xs, ys, n) {
        let p = choose|p: int| 0 <= p < DISPLAY_SIZE && #[trigger] sprite_covers(s1, xs, ys, n, p) && s1.display[p];
        assert(sprite_covers(s, xs, ys, n, p) && !s.display[p]);
    }
}


/// `00E0` darkens every pixel, whatever the display showed, and requests a redraw.
pub proof fn clear_screen_darkens_every_pixel(s: Machine)
    requires
        s.wf(),
    ensures
        execute_spec(s, 0x00E0).1 is Ok,
        execute_spec(s, 0x00E0).0.draw_flag,
        execute_spec(s, 0x00E0).0.display.len() == DISPLAY_SIZE,
        forall|p: int| 0 <= p < DISPLAY_SIZE ==> !#[trigger] execute_spec(s, 0x00E0).0.display[p],
{
    reveal(flow_spec);
    assert(op_family(0x00E0u16) == 0);
}

/// `DXYN` flips, for every row `r < N` and every bit `b < 8` of the byte at
/// `I + r` counted from the most significant bit, the pixel at column
/// `(VX + b) mod 64` and row `(VY + r) mod 32` exactly when that bit is set
/// (`VF` reads as 0 when it is a coordinate register, as it is cleared first).
pub proof fn draw_flips_each_set_bit(s: Machine, op: u16, r: int, b: int)
    requires
        s.wf(),
        op_family(op) == 0xD,
        0 <= r < op_n(op),
        0 <= b < 8,
    ensures
        ({
            let x = op_x(op) as int;
            let y = op_y(op) as int;
            let xs = (if x == 15 { 0 } else { s.v[x] as int }) % 64;
            let ys = (if y == 15 { 0 } else { s.v[y] as int }) % 32;
            let p = ((ys + r) % 32) * 64 + (xs + b) % 64;
            let byte = s.memory[s.i + r];
            &&& 0 <= p < DISPLAY_SIZE
            &&& execute_spec(s, op).0.display[p] == (s.display[p] != (byte & (0x80u8 >> (b as usize)) != 0))
        }),
{
    reveal(draw_sprite_spec);
    let x = op_x(op) as int;
    let y = op_y(op) as int;
    let xs = sprite_x(s, x);
    let ys = sprite_y(s, y);
    sprite_offset_names_one_pixel(xs, ys, r, b);
}

/// A pixel that no set sprite bit lands on keeps its value under `DXYN`.
pub proof fn draw_leaves_uncovered_pixels(s: Machine, op: u16, p: int)
    requires
        s.wf(),
        op_family(op) == 0xD,
        0 <= p < DISPLAY_SIZE,
        forall|r: int, b: int| 0 <= r < op_n(op) && 0 <= b < 8 && #[trigger] sprite_pixel(
            sprite_x(s, op_x(op) as int),
            sprite_y(s, op_y(op) as int),
            r,
            b,
        ) == p ==> s.memory[s.i + r] & (0x80u8 >> (b as usize)) == 0,
    ensures
        execute_spec(s, op).0.display[p] == s.display[p],
{
    reveal(draw_sprite_spec);
    let xs = sprite_x(s, op_x(op) as int);
    let ys = sprite_y(s, op_y(op) as int);
    sprite_covers_its_set_bits(s, xs, ys, op_n(op) as int, p);
}

/// `FX0A` followed by a press of key `k` stores `k` in `VX`, the register the
/// opcode names, ends the wait and leaves every other register as it was.
pub proof fn key_wait_stores_the_key(s: Machine, x: u16, k: usize)
    requires
        s.wf(),
        x < 16,
        k < 16,
    ensures
        ({
            let s1 = execute_spec(s, (0xF00A + x * 0x100) as u16).0;
            let s2 = set_key_spec(s1, k, true);
            &&& s1.waiting_for_key == Some(x as usize)
            &&& s2.waiting_for_key is None
            &&& s2.v.len() == 16
            &&& s2.v[x as int] == k
            &&& forall|r: int| 0 <= r < 16 && r != x ==> s2.v[r] == s.v[r]
            &&& s2.keypad[k as int]
        }),
{
    reveal(misc_spec);
    let op = (0xF00A + x * 0x100) as u16;
    assert(op_family(op) == 0xF && op_kk(op) == 0x0A && op_x(op) == x);
}

/// A key press or release that no wait is pending for changes only the keypad.
pub proof fn key_press_without_wait_changes_only_keypad(s: Machine, k: usize, pressed: bool)
    requires
        s.wf(),
        s.waiting_for_key is None,
        k < 16,
    ensures
        set_key_spec(s, k, pressed) == (Machine { keypad: set_key_spec(s, k, pressed).keypad, ..s }),
        set_key_spec(s, k, pressed).keypad == s.keypad.update(k as int, pressed),
{
}

/// `FX15` loads the delay timer from `VX` and `FY07` reads it back into `VY`;
/// `FX18` loads the sound timer. Each leaves the other timer as it was.
pub proof fn timer_loads_and_reads(s: Machine, x: u16, y: u16)
    requires
        s.wf(),
        x < 16,
        y < 16,
    ensures
        ({
            let d = execute_spec(s, (0xF015 + x * 0x100) as u16).0;
            let back = execute_spec(d, (0xF007 + y * 0x100) as u16).0;
            let snd = execute_spec(s, (0xF018 + x * 0x100) as u16).0;
            &&& d.delay_timer == s.v[x as int]
            &&& d.sound_timer == s.sound_timer
            &&& d.v == s.v
            &&& back.v[y as int] == s.v[x as int]
            &&& snd.sound_timer == s.v[x as int]
            &&& snd.delay_timer == s.delay_timer
            &&& snd.v == s.v
        }),
{
    reveal(misc_spec);
    let op15 = (0xF015 + x * 0x100) as u16;
    let op07 = (0xF007 + y * 0x100) as u16;
    let op18 = (0xF018 + x * 0x100) as u16;
    assert(op_family(op15) == 0xF && op_kk(op15) == 0x15 && op_x(op15) == x);
    assert(op_family(op07) == 0xF && op_kk(op07) == 0x07 && op_x(op07) == y);
    assert(op_family(op18) == 0xF && op_kk(op18) == 0x18 && op_x(op18) == x);
}

/// The plain loads, jumps and logic operations, each stated by its effect.
pub proof fn simple_instructions(s: Machine, op: u16)
    requires
        s.wf(),
    ensures
        ({
            let x = op_x(op) as int;
            let y = op_y(op) as int;
            let kk = op_kk(op);
            let nnn = op_nnn(op);
            let fam = op_family(op);
            let n = op_n(op);
            let (s1, r) = execute_spec(s, op);
            &&& fam == 0x1 ==> s1 == (Machine { pc: nnn, ..s }) && r is Ok
            &&& fam == 0x6 ==> s1 == (Machine { v: s.v.update(x, kk), ..s }) && r is Ok
            &&& fam == 0xA ==> s1 == (Machine { i: nnn, ..s }) && r is Ok
            &&& fam == 0xB ==> s1 == (Machine { pc: (nnn + s.v[0]) as u16, ..s }) && r is Ok
            &&& (fam == 0x8 && n == 0x0) ==> s1 == (Machine { v: s.v.update(x, s.v[y]), ..s })
            &&& (fam == 0x8 && n == 0x1) ==> s1 == (Machine { v: s.v.update(x, s.v[x] | s.v[y]), ..s })
            &&& (fam == 0x8 && n == 0x2) ==> s1 == (Machine { v: s.v.update(x, s.v[x] & s.v[y]), ..s })
            &&& (fam == 0x8 && n == 0x3) ==> s1 == (Machine { v: s.v.update(x, s.v[x] ^ s.v[y]), ..s })
            &&& (fam == 0xF && kk == 0x1E) ==> s1 == (Machine { i: ((s.i + s.v[x]) % 0x10000) as u16, ..s })
            &&& fam == 0xC ==> s1.rng_state == ((s.rng_state * 1_664_525 + 1_013_904_223) % 0x1_0000_0000) as u32
                && s1.v == s.v.update(x, ((s1.rng_state / 0x100_0000) as u8) & kk)
                && s1 == (Machine { v: s1.v, rng_state: s1.rng_state, ..s })
            &&& (fam == 0xE && kk == 0x9E) ==> s1.pc == (if s.v[x] < 16 && s.keypad[s.v[x] as int] {
                ((s.pc + 2) % 0x10000) as u16
            } else {
                s.pc
            }) && s1 == (Machine { pc: s1.pc, ..s })
            &&& (fam == 0xE && kk == 0xA1) ==> s1.pc == (if s.v[x] < 16 && s.keypad[s.v[x] as int] {
                s.pc
            } else {
                ((s.pc + 2) % 0x10000) as u16
            }) && s1 == (Machine { pc: s1.pc, ..s })
        }),
{
    reveal(flow_spec);
    reveal(skip_spec);
    reveal(load_spec);
    reveal(alu_spec);
    reveal(misc_spec);
}

/// The timers count down by one per tick and stop at zero.
pub proof fn timer_tick(t: u8)
    ensures
        count_down(t) == (if t == 0 { 0u8 } else { (t - 1) as u8 }),
        count_down_times(t, 1) == count_down(t),
{
    assert(count_down_times(t, 0) == t);
}


/// Loading a program puts byte `k` of it at address `0x200 + k` and leaves
/// every other address as it was.
pub proof fn load_places_program_bytes(memory: Seq<u8>, program: Seq<u8>)
    requires
        memory.len() == MEMORY_SIZE,
        program.len() <= MEMORY_SIZE - PROGRAM_START,
    ensures
        loaded_memory(memory, program).len() == MEMORY_SIZE,
        forall|k: int| 0 <= k < program.len() ==> loaded_memory(memory, program)[0x200 + k] == program[k],
        forall|a: int| 0 <= a < MEMORY_SIZE && !(0x200 <= a < 0x200 + program.len())
            ==> loaded_memory(memory, program)[a] == memory[a],
{
}

/// Advancing the program counter adds two, wrapping at 16 bits.
pub proof fn pc_advance_adds_two(pc: u16)
    ensures
        pc_plus_2(pc) as int == (pc as int + 2) % 0x10000,
{
}

} // verus!
