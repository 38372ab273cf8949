//! The CHIP-8 interpreter: memory, registers, timers, keypad and display.
use vstd::prelude::*;

use crate::laws::sprite_offset_names_one_pixel;
use crate::spec::{
    alu_spec, col_offset, count_down, cycle_in_bounds, cycle_spec, draw_sprite_spec,
    execute_in_bounds, execute_spec, fetched_opcode, flow_spec, font_set, initial_machine,
    key_pressed, lcg_next, set_key_spec, load_spec, loaded_memory, misc_spec, op_family, op_kk, op_n, op_nnn,
    op_x, op_y, random_byte, row_offset, skip_spec, sprite_collides, sprite_covers, sprite_x,
    sprite_y, Machine, FONT_START,
};

verus! {

pub const DISPLAY_WIDTH: usize = 64;
pub const DISPLAY_HEIGHT: usize = 32;
pub const DISPLAY_SIZE: usize = DISPLAY_WIDTH * DISPLAY_HEIGHT;
pub const MEMORY_SIZE: usize = 4096;
pub const PROGRAM_START: usize = 0x200;

/// Why the machine stopped executing.
#[derive(Debug, Clone, Copy, PartialEq, Eq, Structural)]
pub enum Chip8Error {
    ProgramTooLarge { size: usize, capacity: usize },
    StackOverflow,
    StackUnderflow,
    UnknownOpcode(u16),
}

/// A CHIP-8 machine. The fields are open to inspection and to direct
/// writes; the methods keep `wf`, which `cycle` needs.
pub struct Chip8 {
    /// 4 KiB of memory; the font lives at `FONT_START`, programs at `PROGRAM_START`.
    pub memory: [u8; MEMORY_SIZE],
    /// Registers `V0` to `VF`; `VF` doubles as the flag register.
    pub v: [u8; 16],
    /// The address register `I`.
    pub i: u16,
    /// The program counter.
    pub pc: u16,
    /// Return addresses of the subroutines in progress.
    pub stack: [u16; 16],
    /// Number of entries in use on `stack`.
    pub sp: usize,
    pub delay_timer: u8,
    pub sound_timer: u8,
    /// Which of the 16 keypad keys are held down.
    pub keypad: [bool; 16],
    /// 64 x 32 pixels, row by row.
    pub display: [bool; DISPLAY_SIZE],
    /// The register that receives the next key press, while `FX0A` waits.
    pub waiting_for_key: Option<usize>,
    /// State of the random generator used by `CXKK`.
    pub rng_state: u32,
    /// Whether the display changed since the flag was last taken.
    pub draw_flag: bool,
}

impl View for Chip8 {
    type V = Machine;

    open spec fn view(&self) -> Machine {
        Machine {
            memory: self.memory@,
            v: self.v@,
            i: self.i,
            pc: self.pc,
            stack: self.stack@,
            sp: self.sp,
            delay_timer: self.delay_timer,
            sound_timer: self.sound_timer,
            keypad: self.keypad@,
            display: self.display@,
            waiting_for_key: self.waiting_for_key,
            rng_state: self.rng_state,
            draw_flag: self.draw_flag,
        }
    }
}

impl Default for Chip8 {
    fn default() -> (chip8: Self)
        ensures
            chip8.wf(),
            chip8@ == initial_machine(),
    {
        Self::new()
    }
}

impl Chip8 {
    /// The invariant that every method keeps.
    pub open spec fn wf(&self) -> bool {
        self@.wf()
    }

    pub fn new() -> (chip8: Self)
        ensures
            chip8.wf(),
            chip8@ == initial_machine(),
    {
        let mut chip8 = Chip8 {
            memory: [0u8; MEMORY_SIZE],
            v: [0u8; 16],
            i: 0,
            pc: PROGRAM_START as u16,
            stack: [0u16; 16],
            sp: 0,
            delay_timer: 0,
            sound_timer: 0,
            keypad: [false; 16],
            display: [false; DISPLAY_SIZE],
            waiting_for_key: None,
            rng_state: 0xC0DE_1234,
            draw_flag: true,
        };
        let font: [u8; 80] = [
            0xF0, 0x90, 0x90, 0x90, 0xF0, // 0
            0x20, 0x60, 0x20, 0x20, 0x70, // 1
            0xF0, 0x10, 0xF0, 0x80, 0xF0, // 2
            0xF0, 0x10, 0xF0, 0x10, 0xF0, // 3
            0x90, 0x90, 0xF0, 0x10, 0x10, // 4
            0xF0, 0x80, 0xF0, 0x10, 0xF0, // 5
            0xF0, 0x80, 0xF0, 0x90, 0xF0, // 6
            0xF0, 0x10, 0x20, 0x40, 0x40, // 7
            0xF0, 0x90, 0xF0, 0x90, 0xF0, // 8
            0xF0, 0x90, 0xF0, 0x10, 0xF0, // 9
            0xF0, 0x90, 0xF0, 0x90, 0x90, // A
            0xE0, 0x90, 0xE0, 0x90, 0xE0, // B
            0xF0, 0x80, 0x80, 0x80, 0xF0, // C
            0xE0, 0x90, 0x90, 0x90, 0xE0, // D
            0xF0, 0x80, 0xF0, 0x80, 0xF0, // E
            0xF0, 0x80, 0xF0, 0x80, 0x80, // F
        ];
        assert(font@ =~= font_set());
        assert(chip8@.v =~= initial_machine().v);
        assert(chip8@.stack =~= initial_machine().stack);
        assert(chip8@.keypad =~= initial_machine().keypad);
        assert(chip8@.display =~= initial_machine().display);
        let mut k: usize = 0;
        while k < 80
            invariant
                k <= 80,
                font@ == font_set(),
                chip8@.v == initial_machine().v,
                chip8@.stack == initial_machine().stack,
                chip8@.keypad == initial_machine().keypad,
                chip8@.display == initial_machine().display,
                chip8.i == 0,
                chip8.pc == 0x200,
                chip8.sp == 0,
                chip8.delay_timer == 0,
                chip8.sound_timer == 0,
                chip8.waiting_for_key is None,
                chip8.rng_state == 0xC0DE_1234,
                chip8.draw_flag,
                chip8.memory@.len() == MEMORY_SIZE,
                forall|a: int| 0 <= a < MEMORY_SIZE ==> #[trigger] chip8.memory@[a] == (
                    if FONT_START <= a < FONT_START + k { font_set()[a - FONT_START] } else { 0u8 }),
            decreases 80 - k,
        {
            chip8.memory[FONT_START + k] = font[k];
            k += 1;
        }
        assert(chip8@.memory =~= initial_machine().memory);
        chip8
    }

    /// Runs one machine cycle: fetch, advance `pc`, execute. Nothing happens
    /// while the machine waits for a key.
    pub fn cycle(&mut self) -> (r: Result<(), Chip8Error>)
        requires
            old(self).wf(),
            cycle_in_bounds(old(self)@),
        ensures
            final(self).wf(),
            (final(self)@, r) == cycle_spec(old(self)@),
    {
        if self.waiting_for_key.is_some() {
            return Ok(());
        }
        let opcode = self.fetch_opcode();
        self.pc = self.pc.wrapping_add(2);
        self.execute(opcode)
    }

    /// Whether `cycle` can run now without addressing memory past its end.
    pub fn next_cycle_in_bounds(&self) -> (b: bool)
        requires
            self.wf(),
        ensures
            b == cycle_in_bounds(self@),
    {
        if self.waiting_for_key.is_some() {
            return true;
        }
        if self.pc as usize + 1 >= MEMORY_SIZE {
            return false;
        }
        let opcode = self.fetch_opcode();
        let n = (opcode & 0x000F) as usize;
        let x = ((opcode & 0x0F00) >> 8) as usize;
        let kk = opcode & 0x00FF;
        let family = opcode & 0xF000;
        proof {
            lemma_decode(opcode);
        }
        let i = self.i as usize;
        if family == 0xD000 {
            n == 0 || i + n <= MEMORY_SIZE
        } else if family == 0xF000 && kk == 0x33 {
            i + 2 < MEMORY_SIZE
        } else if family == 0xF000 && (kk == 0x55 || kk == 0x65) {
            i + x < MEMORY_SIZE
        } else {
            true
        }
    }

    /// Counts both timers down by one, stopping at zero.
    pub fn tick_timers(&mut self)
        requires
            old(self).wf(),
        ensures
            final(self).wf(),
            final(self)@ == (Machine {
                delay_timer: count_down(old(self)@.delay_timer),
                sound_timer: count_down(old(self)@.sound_timer),
                ..old(self)@
            }),
    {
        self.delay_timer = self.delay_timer.saturating_sub(1);
        self.sound_timer = self.sound_timer.saturating_sub(1);
    }

    /// The display as 64 x 32 pixels, row by row.
    pub fn display(&self) -> (d: &[bool; DISPLAY_SIZE])
        ensures
            d@ == self@.display,
    {
        &self.display
    }

    /// Whether the sound timer is running.
    pub fn sound_active(&self) -> (b: bool)
        ensures
            b == (self@.sound_timer > 0),
    {
        self.sound_timer > 0
    }

    /// Returns whether the display changed since the last call, and clears that flag.
    pub fn take_draw_flag(&mut self) -> (flag: bool)
        requires
            old(self).wf(),
        ensures
            final(self).wf(),
            flag == old(self)@.draw_flag,
            final(self)@ == (Machine { draw_flag: false, ..old(self)@ }),
    {
        let flag = self.draw_flag;
        self.draw_flag = false;
        flag
    }

    /// The opcode at the program counter.
    pub fn fetch_opcode(&self) -> (op: u16)
        requires
            self.wf(),
            self@.pc + 1 < MEMORY_SIZE,
        ensures
            op == fetched_opcode(self@),
    {
        let pc = self.pc as usize;
        let hi = self.memory[pc];
        let lo = self.memory[pc + 1];
        proof {
            lemma_join_bytes(hi, lo);
        }
        ((hi as u16) << 8) | lo as u16
    }

    /// Whether `key` names a keypad key that is held down.
    fn is_key_pressed(&self, key: u8) -> (b: bool)
        requires
            self.wf(),
        ensures
            b == key_pressed(self@, key),
    {
        if (key as usize) < self.keypad.len() {
            self.keypad[key as usize]
        } else {
            false
        }
    }

    /// Advances the random generator and returns its top byte.
    fn next_random(&mut self) -> (r: u8)
        requires
            old(self).wf(),
        ensures
            final(self).wf(),
            r == random_byte(old(self)@.rng_state),
            final(self)@ == (Machine { rng_state: lcg_next(old(self)@.rng_state), ..old(self)@ }),
    {
        let old_state = self.rng_state;
        self.rng_state = self.rng_state.wrapping_mul(1_664_525).wrapping_add(1_013_904_223);
        proof {
            lemma_lcg(old_state, self.rng_state);
        }
        (self.rng_state >> 24) as u8
    }

    /// Presses or releases keypad key `key`; a press completes a pending
    /// wait for a key. A `key` beyond the keypad is ignored.
    pub fn set_key(&mut self, key: usize, pressed: bool)
        requires
            old(self).wf(),
        ensures
            final(self).wf(),
            final(self)@ == set_key_spec(old(self)@, key, pressed),
    {
        if key >= self.keypad.len() {
            return;
        }
        self.keypad[key] = pressed;
        if pressed {
            if let Some(register) = self.waiting_for_key.take() {
                self.v[register] = key as u8;
            }
        }
    }

    /// Copies `program` into memory at the program start and points the
    /// program counter there; a program that does not fit is refused.
    pub fn load_program(&mut self, program: &[u8]) -> (r: Result<(), Chip8Error>)
        requires
            old(self).wf(),
        ensures
            final(self).wf(),
            program@.len() > MEMORY_SIZE - PROGRAM_START ==> r == Err::<(), Chip8Error>(
                Chip8Error::ProgramTooLarge {
                    size: program@.len() as usize,
                    capacity: (MEMORY_SIZE - PROGRAM_START) as usize,
                },
            ) && final(self)@ == old(self)@,
            program@.len() <= MEMORY_SIZE - PROGRAM_START ==> r is Ok && final(self)@ == (Machine {
                memory: loaded_memory(old(self)@.memory, program@),
                pc: PROGRAM_START as u16,
                ..old(self)@
            }),
    {
        let capacity = MEMORY_SIZE - PROGRAM_START;
        if program.len() > capacity {
            return Err(Chip8Error::ProgramTooLarge { size: program.len(), capacity });
        }
        let ghost old_memory = self.memory@;
        let mut k: usize = 0;
        while k < program.len()
            invariant
                program@.len() <= capacity,
                capacity == MEMORY_SIZE - PROGRAM_START,
                k <= program@.len(),
                self.memory@.len() == MEMORY_SIZE,
                old_memory.len() == MEMORY_SIZE,
                forall|a: int| 0 <= a < MEMORY_SIZE ==> #[trigger] self.memory@[a] == (
                    if PROGRAM_START <= a < PROGRAM_START + k { program@[a - PROGRAM_START] } else { old_memory[a] }),
                self@ == (Machine { memory: self.memory@, ..old(self)@ }),
            decreases program@.len() - k,
        {
            self.memory[PROGRAM_START + k] = program[k];
            k += 1;
        }
        self.pc = PROGRAM_START as u16;
        assert(self.memory@ =~= loaded_memory(old_memory, program@));
        Ok(())
    }

    /// Executes one decoded instruction.
    fn execute(&mut self, opcode: u16) -> (r: Result<(), Chip8Error>)
        requires
            old(self).wf(),
            execute_in_bounds(old(self)@, opcode),
        ensures
            final(self).wf(),
            (final(self)@, r) == execute_spec(old(self)@, opcode),
    {
        let n = (opcode & 0x000F) as u8;
        let x = ((opcode & 0x0F00) >> 8) as usize;
        let y = ((opcode & 0x00F0) >> 4) as usize;
        let kk = (opcode & 0x00FF) as u8;
        proof {
            lemma_decode(opcode);
        }
        let family = opcode & 0xF000;
        let ghost s0 = self@;
        if family == 0x0000 || family == 0x1000 || family == 0x2000 || family == 0xB000 {
            self.execute_flow(opcode)
        } else if family == 0x3000 || family == 0x4000 || family == 0x5000 || family == 0x9000
            || family == 0xE000 {
            self.execute_skip(opcode)
        } else if family == 0x6000 || family == 0x7000 || family == 0xA000 || family == 0xC000 {
            self.execute_load(opcode);
            Ok(())
        } else if family == 0x8000 {
            let r = self.execute_alu(opcode, x, y, n);
            assert((self@, r) == execute_spec(s0, opcode));
            r
        } else if family == 0xD000 {
            self.draw_sprite(x, y, n);
            assert(self@ == execute_spec(s0, opcode).0);
            Ok(())
        } else {
            assert(op_family(opcode) == 0xF);
            let r = self.execute_misc(opcode, x, kk);
            assert((self@, r) == execute_spec(s0, opcode));
            r
        }
    }

    /// Control flow: clear screen, return, jump, call and jump with offset.
    fn execute_flow(&mut self, opcode: u16) -> (r: Result<(), Chip8Error>)
        requires
            old(self).wf(),
            op_family(opcode) == 0x0 || op_family(opcode) == 0x1 || op_family(opcode) == 0x2
                || op_family(opcode) == 0xB,
        ensures
            final(self).wf(),
            (final(self)@, r) == flow_spec(old(self)@, opcode),
    {
        reveal(flow_spec);
        let nnn = opcode & 0x0FFF;
        proof {
            lemma_decode(opcode);
        }
        let ghost s0 = self@;
        match opcode & 0xF000 {
            0x0000 => match opcode {
                0x00E0 => {
                    self.display = [false; DISPLAY_SIZE];
                    self.draw_flag = true;
                    assert(self@.display =~= flow_spec(s0, opcode).0.display);
                },
                0x00EE => {
                    if self.sp == 0 {
                        return Err(Chip8Error::StackUnderflow);
                    }
                    self.sp -= 1;
                    self.pc = self.stack[self.sp];
                },
                _ => return Err(Chip8Error::UnknownOpcode(opcode)),
            },
            0x1000 => self.pc = nnn,
            0x2000 => {
                if self.sp == self.stack.len() {
                    return Err(Chip8Error::StackOverflow);
                }
                self.stack[self.sp] = self.pc;
                self.sp += 1;
                self.pc = nnn;
            },
            _ => self.pc = nnn + self.v[0] as u16,
        }
        Ok(())
    }

    /// Conditional skips on registers, immediates and keys.
    fn execute_skip(&mut self, opcode: u16) -> (r: Result<(), Chip8Error>)
        requires
            old(self).wf(),
            op_family(opcode) == 0x3 || op_family(opcode) == 0x4 || op_family(opcode) == 0x5
                || op_family(opcode) == 0x9 || op_family(opcode) == 0xE,
        ensures
            final(self).wf(),
            (final(self)@, r) == skip_spec(old(self)@, opcode),
    {
        reveal(skip_spec);
        let n = (opcode & 0x000F) as u8;
        let x = ((opcode & 0x0F00) >> 8) as usize;
        let y = ((opcode & 0x00F0) >> 4) as usize;
        let kk = (opcode & 0x00FF) as u8;
        proof {
            lemma_decode(opcode);
        }
        assert(n == op_n(opcode));
        assert(kk == op_kk(opcode));
        assert(x == op_x(opcode));
        let family = opcode & 0xF000;
        if ((family == 0x5000 || family == 0x9000) && n != 0)
            || (family == 0xE000 && kk != 0x9E && kk != 0xA1) {
            return Err(Chip8Error::UnknownOpcode(opcode));
        }
        let skip = if family == 0x3000 {
            self.v[x] == kk
        } else if family == 0x4000 {
            self.v[x] != kk
        } else if family == 0x5000 {
            self.v[x] == self.v[y]
        } else if family == 0x9000 {
            self.v[x] != self.v[y]
        } else if kk == 0x9E {
            self.is_key_pressed(self.v[x])
        } else {
            !self.is_key_pressed(self.v[x])
        };
        if skip {
            self.pc = self.pc.wrapping_add(2);
        }
        Ok(())
    }

    /// Register loads: immediate, add immediate, set `I`, and random.
    fn execute_load(&mut self, opcode: u16)
        requires
            old(self).wf(),
            op_family(opcode) == 0x6 || op_family(opcode) == 0x7 || op_family(opcode) == 0xA
                || op_family(opcode) == 0xC,
        ensures
            final(self).wf(),
            final(self)@ == load_spec(old(self)@, opcode),
    {
        reveal(load_spec);
        let nnn = opcode & 0x0FFF;
        let x = ((opcode & 0x0F00) >> 8) as usize;
        let kk = (opcode & 0x00FF) as u8;
        proof {
            lemma_decode(opcode);
        }
        match opcode & 0xF000 {
            0x6000 => self.v[x] = kk,
            0x7000 => self.v[x] = self.v[x].wrapping_add(kk),
            0xA000 => self.i = nnn,
            _ => {
                let random = self.next_random();
                self.v[x] = random & kk;
            },
        }
    }

    /// The arithmetic and logic group `8XYN`.
    fn execute_alu(&mut self, opcode: u16, x: usize, y: usize, n: u8) -> (r: Result<(), Chip8Error>)
        requires
            old(self).wf(),
            x < 16,
            y < 16,
        ensures
            final(self).wf(),
            match alu_spec(old(self)@.v, x as int, y as int, n) {
                Some(v) => final(self)@ == (Machine { v, ..old(self)@ }) && r == Ok::<(), Chip8Error>(()),
                None => final(self)@ == old(self)@ && r == Err::<(), Chip8Error>(Chip8Error::UnknownOpcode(opcode)),
            },
    {
        reveal(alu_spec);
        let ghost v0 = self.v@;
        proof {
            lemma_byte_shifts(v0[x as int]);
        }
        match n {
            0x0 => self.v[x] = self.v[y],
            0x1 => self.v[x] |= self.v[y],
            0x2 => self.v[x] &= self.v[y],
            0x3 => self.v[x] ^= self.v[y],
            0x4 => {
                let vx = self.v[x];
                let vy = self.v[y];
                let carry: u8 = if vx as u16 + vy as u16 > 0xFF { 1 } else { 0 };
                self.v[x] = vx.wrapping_add(vy);
                self.v[0xF] = carry;
                assert(self.v@ =~= alu_spec(v0, x as int, y as int, n)->0);
            },
            0x5 => {
                let vx = self.v[x];
                let vy = self.v[y];
                let not_borrow: u8 = if vx < vy { 0 } else { 1 };
                self.v[x] = vx.wrapping_sub(vy);
                self.v[0xF] = not_borrow;
                assert(self.v@ =~= alu_spec(v0, x as int, y as int, n)->0);
            },
            0x6 => {
                self.v[0xF] = self.v[x] & 1;
                proof {
                    lemma_byte_shifts(self.v[x as int]);
                }
                let shifted = self.v[x] >> 1;
                self.v[x] = shifted;
                assert(self.v@ =~= alu_spec(v0, x as int, y as int, n)->0);
            },
            0x7 => {
                let vx = self.v[x];
                let vy = self.v[y];
                let not_borrow: u8 = if vy < vx { 0 } else { 1 };
                self.v[x] = vy.wrapping_sub(vx);
                self.v[0xF] = not_borrow;
                assert(self.v@ =~= alu_spec(v0, x as int, y as int, n)->0);
            },
            0xE => {
                self.v[0xF] = (self.v[x] & 0x80) >> 7;
                proof {
                    lemma_byte_shifts(self.v[x as int]);
                }
                let shifted = self.v[x] << 1;
                self.v[x] = shifted;
                assert(self.v@ =~= alu_spec(v0, x as int, y as int, n)->0);
            },
            _ => return Err(Chip8Error::UnknownOpcode(opcode)),
        }
        assert(self.v@ =~= alu_spec(v0, x as int, y as int, n)->0);
        Ok(())
    }

    /// The `FXKK` group: timers, keypad wait, `I` arithmetic and memory transfers.
    fn execute_misc(&mut self, opcode: u16, x: usize, kk: u8) -> (r: Result<(), Chip8Error>)
        requires
            old(self).wf(),
            x < 16,
            kk == 0x33 ==> old(self)@.i + 2 < MEMORY_SIZE,
            (kk == 0x55 || kk == 0x65) ==> old(self)@.i + x < MEMORY_SIZE,
        ensures
            final(self).wf(),
            match misc_spec(old(self)@, x as int, kk) {
                Some(m) => final(self)@ == m && r == Ok::<(), Chip8Error>(()),
                None => final(self)@ == old(self)@ && r == Err::<(), Chip8Error>(Chip8Error::UnknownOpcode(opcode)),
            },
    {
        reveal(misc_spec);
        let ghost s0 = self@;
        proof {
            lemma_low_nibble(s0.v[x as int]);
        }
        match kk {
            0x07 => self.v[x] = self.delay_timer,
            0x0A => self.waiting_for_key = Some(x),
            0x15 => self.delay_timer = self.v[x],
            0x18 => self.sound_timer = self.v[x],
            0x1E => self.i = self.i.wrapping_add(self.v[x] as u16),
            0x29 => self.i = FONT_START as u16 + (self.v[x] as u16 & 0x0F) * 5,
            0x33 => {
                let value = self.v[x];
                let i = self.i as usize;
                self.memory[i] = value / 100;
                self.memory[i + 1] = (value / 10) % 10;
                self.memory[i + 2] = value % 10;
            },
            0x55 => {
                let i = self.i as usize;
                let mut k: usize = 0;
                while k <= x
                    invariant
                        x < 16,
                        k <= x + 1,
                        i == s0.i,
                        i + x < MEMORY_SIZE,
                        self.memory@.len() == MEMORY_SIZE,
                        self@ == (Machine { memory: self.memory@, ..s0 }),
                        forall|a: int| 0 <= a < MEMORY_SIZE ==> #[trigger] self.memory@[a] == (
                            if i <= a < i + k { s0.v[a - i] } else { s0.memory[a] }),
                    decreases x + 1 - k,
                {
                    self.memory[i + k] = self.v[k];
                    k += 1;
                }
                assert(self.memory@ =~= misc_spec(s0, x as int, kk)->0.memory);
            },
            0x65 => {
                let i = self.i as usize;
                let mut k: usize = 0;
                while k <= x
                    invariant
                        x < 16,
                        k <= x + 1,
                        i == s0.i,
                        i + x < MEMORY_SIZE,
                        self.v@.len() == 16,
                        self@ == (Machine { v: self.v@, ..s0 }),
                        forall|r: int| 0 <= r < 16 ==> #[trigger] self.v@[r] == (
                            if r < k { s0.memory[i + r] } else { s0.v[r] }),
                    decreases x + 1 - k,
                {
                    self.v[k] = self.memory[i + k];
                    k += 1;
                }
                assert(self.v@ =~= misc_spec(s0, x as int, kk)->0.v);
            },
            _ => return Err(Chip8Error::UnknownOpcode(opcode)),
        }
        Ok(())
    }

    /// `DXYN`: flips the pixels under the `rows`-row sprite at `I`, placed at
    /// (`v[x_register]`, `v[y_register]`) and wrapping around the screen.
    fn draw_sprite(&mut self, x_register: usize, y_register: usize, rows: u8)
        requires
            old(self).wf(),
            x_register < 16,
            y_register < 16,
            rows < 16,
            rows == 0 || old(self)@.i + rows <= MEMORY_SIZE,
        ensures
            final(self).wf(),
            final(self)@ == draw_sprite_spec(old(self)@, x_register as int, y_register as int, rows as int),
    {
        reveal(draw_sprite_spec);
        let ghost s0 = self@;
        self.v[0xF] = 0;
        let x_start = self.v[x_register] as usize % DISPLAY_WIDTH;
        let y_start = self.v[y_register] as usize % DISPLAY_HEIGHT;
        let ghost xs = x_start as int;
        let ghost ys = y_start as int;
        let ghost n = rows as int;
        assert(xs == sprite_x(s0, x_register as int));
        assert(ys == sprite_y(s0, y_register as int));

        let mut row: usize = 0;
        while row < rows as usize
            invariant
                s0.wf(),
                row <= rows,
                n == rows as int,
                rows == 0 || s0.i + rows <= MEMORY_SIZE,
                x_start < DISPLAY_WIDTH,
                y_start < DISPLAY_HEIGHT,
                xs == x_start,
                ys == y_start,
                rows < 16,
                self@ == (Machine { display: self.display@, v: self.v@, ..s0 }),
                self.display@.len() == DISPLAY_SIZE,
                self.v@.len() == 16,
                forall|p: int| 0 <= p < DISPLAY_SIZE ==> #[trigger] self.display@[p] == (
                    s0.display[p] != covered_before(s0, xs, ys, n, p, row as int, 0)),
                self.v@ == s0.v.update(15, if collided_before(s0, xs, ys, n, row as int, 0) { 1u8 } else { 0u8 }),
            decreases rows - row,
        {
            let sprite_byte = self.memory[self.i as usize + row];
            let y = (y_start + row) % DISPLAY_HEIGHT;

            let mut bit: usize = 0;
            while bit < 8
                invariant
                    s0.wf(),
                    row < rows,
                    n == rows as int,
                    rows < 16,
                    bit <= 8,
                    x_start < DISPLAY_WIDTH,
                    y_start < DISPLAY_HEIGHT,
                    xs == x_start,
                    ys == y_start,
                    y == (y_start + row) % (DISPLAY_HEIGHT as int),
                    sprite_byte == s0.memory[s0.i + row],
                    self@ == (Machine { display: self.display@, v: self.v@, ..s0 }),
                    self.display@.len() == DISPLAY_SIZE,
                    self.v@.len() == 16,
                    forall|p: int| 0 <= p < DISPLAY_SIZE ==> #[trigger] self.display@[p] == (
                        s0.display[p] != covered_before(s0, xs, ys, n, p, row as int, bit as int)),
                    self.v@ == s0.v.update(
                        15,
                        if collided_before(s0, xs, ys, n, row as int, bit as int) { 1u8 } else { 0u8 },
                    ),
                decreases 8 - bit,
            {
                let ghost r = row as int;
                let ghost b = bit as int;
                proof {
                    sprite_offset_names_one_pixel(xs, ys, r, b);
                }
                let ghost q = ((ys + r) % 32) * 64 + (xs + b) % 64;
                if (sprite_byte & (0x80 >> bit)) == 0 {
                    assert(!sprite_covers(s0, xs, ys, n, q));
                    assert forall|p: int| 0 <= p < DISPLAY_SIZE implies covered_before(s0, xs, ys, n, p, r, b + 1)
                        == covered_before(s0, xs, ys, n, p, r, b) by {
                        if p == q {
                        } else {
                        }
                    }
                    assert(collided_before(s0, xs, ys, n, r, b + 1) == collided_before(s0, xs, ys, n, r, b)) by {
                        if collided_before(s0, xs, ys, n, r, b + 1) {
                            let p = choose|p: int| 0 <= p < DISPLAY_SIZE && #[trigger] covered_before(s0, xs, ys, n, p, r, b + 1) && s0.display[p];
                            assert(covered_before(s0, xs, ys, n, p, r, b));
                        }
                        if collided_before(s0, xs, ys, n, r, b) {
                            let p = choose|p: int| 0 <= p < DISPLAY_SIZE && #[trigger] covered_before(s0, xs, ys, n, p, r, b) && s0.display[p];
                            assert(covered_before(s0, xs, ys, n, p, r, b + 1));
                        }
                    }
                    bit += 1;
                    continue;
                }
                let x = (x_start + bit) % DISPLAY_WIDTH;
                let index = y * DISPLAY_WIDTH + x;
                assert(index == q);
                assert(sprite_covers(s0, xs, ys, n, q));
                assert(!covered_before(s0, xs, ys, n, q, r, b));
                assert(covered_before(s0, xs, ys, n, q, r, b + 1));
                assert forall|p: int| 0 <= p < DISPLAY_SIZE && p != q implies covered_before(s0, xs, ys, n, p, r, b + 1)
                    == covered_before(s0, xs, ys, n, p, r, b) by {
                }
                let ghost lit = self.display@[q];
                assert(lit == s0.display[q]);
                if self.display[index] {
                    self.v[0xF] = 1;
                }
                self.display[index] ^= true;
                assert(collided_before(s0, xs, ys, n, r, b + 1) == (collided_before(s0, xs, ys, n, r, b) || lit)) by {
                    if collided_before(s0, xs, ys, n, r, b + 1) {
                        let p = choose|p: int| 0 <= p < DISPLAY_SIZE && #[trigger] covered_before(s0, xs, ys, n, p, r, b + 1) && s0.display[p];
                        if p != q {
                            assert(covered_before(s0, xs, ys, n, p, r, b));
                        }
                    }
                    if collided_before(s0, xs, ys, n, r, b) {
                        let p = choose|p: int| 0 <= p < DISPLAY_SIZE && #[trigger] covered_before(s0, xs, ys, n, p, r, b) && s0.display[p];
                        assert(covered_before(s0, xs, ys, n, p, r, b + 1));
                    }
                    if lit {
                        assert(covered_before(s0, xs, ys, n, q, r, b + 1) && s0.display[q]);
                    }
                }
                bit += 1;
            }
            assert forall|p: int| 0 <= p < DISPLAY_SIZE implies covered_before(s0, xs, ys, n, p, row as int + 1, 0)
                == covered_before(s0, xs, ys, n, p, row as int, 8) by {
            }
            assert(collided_before(s0, xs, ys, n, row as int + 1, 0) == collided_before(s0, xs, ys, n, row as int, 8)) by {
                if collided_before(s0, xs, ys, n, row as int + 1, 0) {
                    let p = choose|p: int| 0 <= p < DISPLAY_SIZE && #[trigger] covered_before(s0, xs, ys, n, p, row as int + 1, 0) && s0.display[p];
                    assert(covered_before(s0, xs, ys, n, p, row as int, 8));
                }
                if collided_before(s0, xs, ys, n, row as int, 8) {
                    let p = choose|p: int| 0 <= p < DISPLAY_SIZE && #[trigger] covered_before(s0, xs, ys, n, p, row as int, 8) && s0.display[p];
                    assert(covered_before(s0, xs, ys, n, p, row as int + 1, 0));
                }
            }
            row += 1;
        }
        self.draw_flag = true;
        proof {
            let spec = draw_sprite_spec(s0, x_register as int, y_register as int, n);
            assert forall|p: int| 0 <= p < DISPLAY_SIZE implies covered_before(s0, xs, ys, n, p, n, 0)
                == sprite_covers(s0, xs, ys, n, p) by {
            }
            assert(self.display@ =~= spec.display);
            assert(collided_before(s0, xs, ys, n, n, 0) == sprite_collides(s0, xs, ys, n)) by {
                if collided_before(s0, xs, ys, n, n, 0) {
                    let p = choose|p: int| 0 <= p < DISPLAY_SIZE && #[trigger] covered_before(s0, xs, ys, n, p, n, 0) && s0.display[p];
                    assert(sprite_covers(s0, xs, ys, n, p));
                }
                if sprite_collides(s0, xs, ys, n) {
                    let p = choose|p: int| 0 <= p < DISPLAY_SIZE && #[trigger] sprite_covers(s0, xs, ys, n, p) && s0.display[p];
                    assert(covered_before(s0, xs, ys, n, p, n, 0));
                }
            }
        }
    }
}

/// Pixel `p` is covered by the sprite at an offset that comes before
/// (row `r`, bit `b`) in drawing order.
spec fn covered_before(s: Machine, xs: int, ys: int, rows: int, p: int, r: int, b: int) -> bool {
    &&& sprite_covers(s, xs, ys, rows, p)
    &&& (row_offset(p, ys) < r || (row_offset(p, ys) == r && col_offset(p, xs) < b))
}

/// A lit pixel has been covered before (row `r`, bit `b`).
spec fn collided_before(s: Machine, xs: int, ys: int, rows: int, r: int, b: int) -> bool {
    exists|p: int|
        0 <= p < DISPLAY_SIZE && #[trigger] covered_before(s, xs, ys, rows, p, r, b) && s.display[p]
}

proof fn lemma_decode(op: u16)
    ensures
        op & 0x0FFF == op_nnn(op),
        op & 0x000F == op % 0x10,
        op & 0x00FF == op % 0x100,
        (op & 0x000F) as u8 == op_n(op),
        ((op & 0x0F00) >> 8) as usize == op_x(op),
        ((op & 0x00F0) >> 4) as usize == op_y(op),
        (op & 0x00FF) as u8 == op_kk(op),
        op & 0xF000 == op_family(op) * 0x1000,
        op_x(op) < 16,
        op_y(op) < 16,
        op_n(op) < 16,
        op_family(op) < 16,
{
    assert(op & 0x0FFF == op % 0x1000) by (bit_vector);
    assert(op & 0x000F == op % 0x10) by (bit_vector);
    assert((op & 0x0F00) >> 8 == (op / 0x100) % 0x10) by (bit_vector);
    assert((op & 0x00F0) >> 4 == (op / 0x10) % 0x10) by (bit_vector);
    assert(op & 0x00FF == op % 0x100) by (bit_vector);
    assert(op & 0xF000 == (op / 0x1000) * 0x1000) by (bit_vector);
}

proof fn lemma_byte_shifts(b: u8)
    ensures
        b & 1 == b % 2,
        b >> 1 == b / 2,
        (b & 0x80) >> 7 == b / 128,
        b << 1 == (b * 2) % 256,
{
    assert(b & 1 == b % 2) by (bit_vector);
    assert(b >> 1 == b / 2) by (bit_vector);
    assert((b & 0x80) >> 7 == b / 128) by (bit_vector);
    assert(b << 1 == (b * 2) % 256) by (bit_vector);
}

proof fn lemma_low_nibble(b: u8)
    ensures
        (b as u16) & 0x0F == b % 16,
        (b as u16) & 0x0F < 16,
{
    assert((b as u16) & 0x0F < 16) by (bit_vector);
    assert((b as u16) & 0x0F == b % 16) by (bit_vector);
}

proof fn lemma_join_bytes(hi: u8, lo: u8)
    ensures
        ((hi as u16) << 8) | (lo as u16) == (hi as int * 0x100 + lo as int) as u16,
{
    assert(((hi as u16) << 8) | (lo as u16) == (hi as u16) * 0x100 + (lo as u16)) by (bit_vector);
}

proof fn lemma_lcg(r: u32, next: u32)
    requires
        next == vstd::wrapping::u32_specs::wrapping_add(vstd::wrapping::u32_specs::wrapping_mul(r, 1_664_525), 1_013_904_223),
    ensures
        next == lcg_next(r),
        (next >> 24) as u8 == random_byte(r),
{
    let m = (r as nat * 1_664_525) % 0x1_0000_0000;
    assert((r as nat * 1_664_525 + 1_013_904_223) % 0x1_0000_0000 == (m + 1_013_904_223) % 0x1_0000_0000) by {
        vstd::arithmetic::div_mod::lemma_add_mod_noop(r as int * 1_664_525, 1_013_904_223, 0x1_0000_0000);
        vstd::arithmetic::div_mod::lemma_small_mod(1_013_904_223, 0x1_0000_0000);
    }
    assert((next >> 24) as u8 == (next / 0x100_0000) as u8) by (bit_vector);
}

} // verus!
