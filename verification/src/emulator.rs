//! The executable CHIP-8 machine and its verified decode/execute engine.

use vstd::prelude::*;

use crate::machine::{
    addr_nnn, fontset, imm_nn, initial_memory, initial_state, nib1, nib2, nib3, nib4,
    spec_collision_upto, spec_covered, spec_covered_upto, spec_draw_collision, spec_draw_index,
    spec_draw_screen, spec_execute, spec_first_key, spec_load_regs, spec_reset, spec_skip,
    spec_sprite_bit, spec_store_regs, spec_tick, spec_tick_timer, Chip8Error, Chip8State,
    DISPLAY_HEIGHT, DISPLAY_WIDTH, FONT_SIZE, MEMORY_SIZE, NUM_KEYS, NUM_REGISTERS, START_ADDRESS,
};
use crate::machine::{
    lemma_covered_at_fresh, lemma_covered_done, lemma_covered_none, lemma_covered_row_end,
    lemma_covered_step,
};
use crate::stack::{Stack, STACK_CAPACITY};

verus! {

/// The whole machine state: memory, registers, timers, display and keypad,
/// owning its call stack. Its mathematical view is a [`Chip8State`].
pub struct Emulator {
    pc: u16,
    memory: Vec<u8>,
    screen: Vec<bool>,
    v_register: Vec<u8>,
    i_register: u16,
    stack: Stack,
    keypad: Vec<bool>,
    delay_timer: u8,
    sound_timer: u8,
    draw_flag: bool,
}

impl View for Emulator {
    type V = Chip8State;

    closed spec fn view(&self) -> Chip8State {
        Chip8State {
            pc: self.pc,
            mem: self.memory@,
            screen: self.screen@,
            v: self.v_register@,
            ireg: self.i_register,
            stack: self.stack@,
            keypad: self.keypad@,
            delay: self.delay_timer,
            sound: self.sound_timer,
            draw: self.draw_flag,
        }
    }
}

/// A vector of `n` copies of `val`.
fn filled<T: Copy>(n: usize, val: T) -> (r: Vec<T>)
    ensures
        r@ == Seq::new(n as nat, |j: int| val),
{
    let mut r: Vec<T> = Vec::new();
    while r.len() < n
        invariant
            r@.len() <= n,
            forall|j: int| 0 <= j < r@.len() ==> r@[j] == val,
        decreases n - r@.len(),
    {
        r.push(val);
    }
    proof {
        assert(r@ =~= Seq::new(n as nat, |j: int| val));
    }
    r
}

/// Memory as init and reset build it: the glyph table low, zeroes above.
fn fresh_memory() -> (r: Vec<u8>)
    ensures
        r@ == initial_memory(),
{
    let mut mem: Vec<u8> = vec![
        0xF0, 0x90, 0x90, 0x90, 0xF0,
        0x20, 0x60, 0x20, 0x20, 0x70,
        0xF0, 0x10, 0xF0, 0x80, 0xF0,
        0xF0, 0x10, 0xF0, 0x10, 0xF0,
        0x90, 0x90, 0xF0, 0x10, 0x10,
        0xF0, 0x80, 0xF0, 0x10, 0xF0,
        0xF0, 0x80, 0xF0, 0x90, 0xF0,
        0xF0, 0x10, 0x20, 0x40, 0x40,
        0xF0, 0x90, 0xF0, 0x90, 0xF0,
        0xF0, 0x90, 0xF0, 0x10, 0xF0,
        0xF0, 0x90, 0xF0, 0x90, 0x90,
        0xE0, 0x90, 0xE0, 0x90, 0xE0,
        0xF0, 0x80, 0x80, 0x80, 0xF0,
        0xE0, 0x90, 0x90, 0x90, 0xE0,
        0xF0, 0x80, 0xF0, 0x80, 0xF0,
        0xF0, 0x80, 0xF0, 0x80, 0x80,
    ];
    proof {
        assert(mem@ =~= fontset());
        assert(forall|j: int| 0 <= j < FONT_SIZE ==> mem@[j] == initial_memory()[j]);
    }
    while mem.len() < MEMORY_SIZE
        invariant
            FONT_SIZE <= mem@.len() <= MEMORY_SIZE,
            forall|j: int| 0 <= j < mem@.len() ==> mem@[j] == initial_memory()[j],
        decreases MEMORY_SIZE - mem@.len(),
    {
        mem.push(0);
    }
    proof {
        assert(mem@ =~= initial_memory());
    }
    mem
}

/// Relies on `rand::random`: draws one byte from the thread-local
/// generator. Nothing is assumed of the value.
#[verifier::external_body]
fn random_byte() -> u8 {
    rand::random()
}

impl Emulator {
    /// The containers all have their fixed sizes and the stack its cap.
    pub open spec fn wf(&self) -> bool {
        self@.wf()
    }

    /// Builds a machine in its initial configuration: glyph table preloaded
    /// at the bottom of memory, program counter at the program start, all
    /// else zeroed.
    pub fn new() -> (r: Self)
        ensures
            r@ == initial_state(),
            r.wf(),
    {
        let emu = Emulator {
            pc: START_ADDRESS,
            memory: fresh_memory(),
            screen: filled(DISPLAY_WIDTH * DISPLAY_HEIGHT, false),
            v_register: filled(NUM_REGISTERS, 0u8),
            i_register: 0,
            stack: Stack::new(),
            keypad: filled(NUM_KEYS, false),
            delay_timer: 0,
            sound_timer: 0,
            draw_flag: false,
        };
        proof {
            assert(emu@ =~= initial_state());
        }
        emu
    }

    /// Returns the machine to its initial configuration, re-seeding the
    /// glyph table and zeroing everything else.
    pub fn reset(&mut self)
        ensures
            final(self)@ == spec_reset(old(self)@),
            final(self).wf(),
    {
        self.pc = START_ADDRESS;
        self.memory = fresh_memory();
        self.screen = filled(DISPLAY_WIDTH * DISPLAY_HEIGHT, false);
        self.v_register = filled(NUM_REGISTERS, 0u8);
        self.i_register = 0;
        self.stack = Stack::new();
        self.keypad = filled(NUM_KEYS, false);
        self.delay_timer = 0;
        self.sound_timer = 0;
        self.draw_flag = false;
        proof {
            assert(self@ =~= initial_state());
        }
    }

    /// Copies a program image into memory starting at [`START_ADDRESS`].
    /// The loader ensures the image fits in the address space.
    pub fn load(&mut self, data: &Vec<u8>)
        requires
            old(self).wf(),
            data@.len() <= MEMORY_SIZE - START_ADDRESS,
        ensures
            final(self).wf(),
            final(self)@ == (Chip8State {
                mem: Seq::new(
                    MEMORY_SIZE as nat,
                    |j: int|
                        if START_ADDRESS <= j < START_ADDRESS + data@.len() {
                            data@[j - START_ADDRESS]
                        } else {
                            old(self)@.mem[j]
                        },
                ),
                ..old(self)@
            }),
    {
        let ghost s = self@;
        let base: usize = START_ADDRESS as usize;
        let mut k: usize = 0;
        while k < data.len()
            invariant
                self.wf(),
                s.wf(),
                base == START_ADDRESS,
                k <= data@.len(),
                data@.len() <= MEMORY_SIZE - START_ADDRESS,
                self@ == (Chip8State { mem: self@.mem, ..s }),
                self@.mem.len() == MEMORY_SIZE,
                forall|j: int|
                    0 <= j < MEMORY_SIZE ==> self@.mem[j] == (if base <= j < base + k {
                        data@[j - base]
                    } else {
                        s.mem[j]
                    }),
            decreases data@.len() - k,
        {
            self.memory.set(base + k, data[k]);
            k += 1;
        }
        proof {
            assert(self@.mem =~= Seq::new(
                MEMORY_SIZE as nat,
                |j: int|
                    if START_ADDRESS <= j < START_ADDRESS + data@.len() {
                        data@[j - START_ADDRESS]
                    } else {
                        s.mem[j]
                    },
            ));
            assert(self@ =~= (Chip8State {
                mem: Seq::new(
                    MEMORY_SIZE as nat,
                    |j: int|
                        if START_ADDRESS <= j < START_ADDRESS + data@.len() {
                            data@[j - START_ADDRESS]
                        } else {
                            s.mem[j]
                        },
                ),
                ..s
            }));
        }
    }

    /// One 60 Hz timer tick: each timer counts down by one and saturates
    /// at zero, never wrapping.
    pub fn tick_timer(&mut self)
        requires
            old(self).wf(),
        ensures
            final(self).wf(),
            final(self)@ == spec_tick_timer(old(self)@),
    {
        if self.delay_timer > 0 {
            self.delay_timer = self.delay_timer - 1;
        }
        if self.sound_timer > 0 {
            self.sound_timer = self.sound_timer - 1;
        }
    }

    /// Reports a physical key transition for key `index`.
    pub fn set_key(&mut self, index: usize, down: bool)
        requires
            old(self).wf(),
            index < NUM_KEYS,
        ensures
            final(self).wf(),
            final(self)@ == (Chip8State {
                keypad: old(self)@.keypad.update(index as int, down),
                ..old(self)@
            }),
    {
        self.keypad.set(index, down);
    }

    /// Read-only access to the display pixels, row-major.
    pub fn get_display(&self) -> (r: &Vec<bool>)
        ensures
            r@ == self@.screen,
    {
        &self.screen
    }

    /// Current sound timer value; the audio collaborator emits tone while
    /// it is above zero.
    pub fn sound_timer(&self) -> (r: u8)
        ensures
            r == self@.sound,
    {
        self.sound_timer
    }

    /// Current delay timer value.
    pub fn delay_timer(&self) -> (r: u8)
        ensures
            r == self@.delay,
    {
        self.delay_timer
    }

    /// Current program counter.
    pub fn get_pc(&self) -> (r: u16)
        ensures
            r == self@.pc,
    {
        self.pc
    }

    /// Current index register I.
    pub fn get_index(&self) -> (r: u16)
        ensures
            r == self@.ireg,
    {
        self.i_register
    }

    /// Value of general register `idx`.
    pub fn get_register(&self, idx: usize) -> (r: u8)
        requires
            self.wf(),
            idx < NUM_REGISTERS,
        ensures
            r == self@.v[idx as int],
    {
        self.v_register[idx]
    }

    /// Byte of memory at `addr`.
    pub fn get_memory(&self, addr: usize) -> (r: u8)
        requires
            self.wf(),
            addr < MEMORY_SIZE,
        ensures
            r == self@.mem[addr as int],
    {
        self.memory[addr]
    }

    /// Current call-stack depth.
    pub fn stack_depth(&self) -> (r: usize)
        ensures
            r == self@.stack.len(),
    {
        self.stack.depth()
    }

    /// Whether a draw instruction ran since the flag was last cleared.
    pub fn draw_flag(&self) -> (r: bool)
        ensures
            r == self@.draw,
    {
        self.draw_flag
    }

    /// Clears the display-changed signal after the renderer consumed it.
    pub fn clear_draw_flag(&mut self)
        ensures
            final(self)@ == (Chip8State { draw: false, ..old(self)@ }),
            final(self).wf() == old(self).wf(),
    {
        self.draw_flag = false;
    }

    /// Fetches the big-endian instruction word at the program counter and
    /// advances the counter past it.
    pub fn fetch_opcode(&mut self) -> (r: u16)
        requires
            old(self).wf(),
            old(self)@.pc + 1 < MEMORY_SIZE,
        ensures
            final(self).wf(),
            final(self)@ == spec_skip(old(self)@),
            r == (old(self)@.mem[old(self)@.pc as int] as int) * 0x100 + (old(self)@.mem[old(
                self,
            )@.pc + 1] as int),
    {
        let higher_byte = self.memory[self.pc as usize] as u16;
        let lower_byte = self.memory[self.pc as usize + 1] as u16;
        let opcode = higher_byte * 0x100 + lower_byte;
        self.pc = self.pc + 2;
        opcode
    }

    /// XOR-draws the `n`-row sprite at address I onto the display at
    /// `(x0, y0)`, wrapping on both axes, and reports whether some pixel
    /// toggled from set to unset.
    fn draw_sprite(&mut self, x0: u8, y0: u8, n: usize) -> (r: bool)
        requires
            old(self).wf(),
            n < 16,
            old(self)@.ireg + n <= MEMORY_SIZE,
        ensures
            final(self).wf(),
            final(self)@ == (Chip8State {
                screen: spec_draw_screen(old(self)@, x0, y0, n as int),
                ..old(self)@
            }),
            r == spec_draw_collision(old(self)@, x0, y0, n as int),
    {
        let ghost s = self@;
        let i0 = self.i_register as usize;
        let mut flipped = false;
        let mut row: usize = 0;
        proof {
            assert forall|p: int| 0 <= p < DISPLAY_WIDTH * DISPLAY_HEIGHT implies self@.screen[p]
                == (s.screen[p] ^ spec_covered_upto(s, x0, y0, 0, 0, p)) by {
                lemma_covered_none(s, x0, y0, p);
            }
            lemma_covered_none(s, x0, y0, 0);
        }
        while row < n
            invariant
                self.wf(),
                s.wf(),
                n < 16,
                s.ireg + n <= MEMORY_SIZE,
                i0 == s.ireg,
                row <= n,
                self@ == (Chip8State { screen: self@.screen, ..s }),
                forall|p: int|
                    0 <= p < DISPLAY_WIDTH * DISPLAY_HEIGHT ==> self@.screen[p] == (s.screen[p]
                        ^ spec_covered_upto(s, x0, y0, row as int, 0, p)),
                flipped == spec_collision_upto(s, x0, y0, row as int, 0),
            decreases n - row,
        {
            let pixels = self.memory[i0 + row];
            let mut col: usize = 0;
            while col < 8
                invariant
                    self.wf(),
                    s.wf(),
                    n < 16,
                    s.ireg + n <= MEMORY_SIZE,
                    i0 == s.ireg,
                    row < n,
                    col <= 8,
                    pixels == s.mem[s.ireg + row],
                    self@ == (Chip8State { screen: self@.screen, ..s }),
                    forall|p: int|
                        0 <= p < DISPLAY_WIDTH * DISPLAY_HEIGHT ==> self@.screen[p] == (s.screen[p]
                            ^ spec_covered_upto(s, x0, y0, row as int, col as int, p)),
                    flipped == spec_collision_upto(s, x0, y0, row as int, col as int),
                decreases 8 - col,
            {
                let sh = (7 - col) as u8;
                if (pixels >> sh) & 1 == 1 {
                    let px = (x0 as usize + col) % DISPLAY_WIDTH;
                    let py = (y0 as usize + row) % DISPLAY_HEIGHT;
                    let idx = px + DISPLAY_WIDTH * py;
                    proof {
                        assert(idx == spec_draw_index(x0, y0, row as int, col as int));
                        assert(0 <= idx < DISPLAY_WIDTH * DISPLAY_HEIGHT);
                        lemma_covered_at_fresh(s, x0, y0, n as int, row as int, col as int);
                    }
                    let cur = self.screen[idx];
                    flipped = flipped || cur;
                    self.screen.set(idx, !cur);
                    proof {
                        assert(cur == s.screen[idx as int]);
                        assert forall|p: int| 0 <= p < DISPLAY_WIDTH * DISPLAY_HEIGHT implies
                            self@.screen[p] == (s.screen[p] ^ spec_covered_upto(
                            s,
                            x0,
                            y0,
                            row as int,
                            col as int + 1,
                            p,
                        )) by {
                            lemma_covered_step(s, x0, y0, row as int, col as int, p);
                        }
                        lemma_covered_step(s, x0, y0, row as int, col as int, 0);
                    }
                } else {
                    proof {
                        assert(!spec_sprite_bit(s, row as int, col as int));
                        assert forall|p: int| 0 <= p < DISPLAY_WIDTH * DISPLAY_HEIGHT implies
                            self@.screen[p] == (s.screen[p] ^ spec_covered_upto(
                            s,
                            x0,
                            y0,
                            row as int,
                            col as int + 1,
                            p,
                        )) by {
                            lemma_covered_step(s, x0, y0, row as int, col as int, p);
                        }
                        lemma_covered_step(s, x0, y0, row as int, col as int, 0);
                    }
                }
                col += 1;
            }
            proof {
                assert forall|p: int| 0 <= p < DISPLAY_WIDTH * DISPLAY_HEIGHT implies
                    self@.screen[p] == (s.screen[p] ^ spec_covered_upto(
                    s,
                    x0,
                    y0,
                    row as int + 1,
                    0,
                    p,
                )) by {
                    lemma_covered_row_end(s, x0, y0, row as int, p);
                }
                lemma_covered_row_end(s, x0, y0, row as int, 0);
            }
            row += 1;
        }
        proof {
            assert forall|p: int| 0 <= p < DISPLAY_WIDTH * DISPLAY_HEIGHT implies self@.screen[p]
                == (s.screen[p] ^ spec_covered(s, x0, y0, n as int, p)) by {
                lemma_covered_done(s, x0, y0, n as int, p);
            }
            lemma_covered_done(s, x0, y0, n as int, 0);
            assert(self@.screen =~= spec_draw_screen(s, x0, y0, n as int));
            assert(self@ =~= (Chip8State {
                screen: spec_draw_screen(s, x0, y0, n as int),
                ..s
            }));
        }
        flipped
    }

    /// Executes one already-fetched instruction word.
    ///
    /// The program counter must already sit past the fetched word, as
    /// [`Self::fetch_opcode`] leaves it. `rb` is the byte the random-number
    /// source supplied; only the random instruction reads it, and the
    /// engine is verified for every value of it. On an error the state is
    /// left exactly as it was.
    pub fn execute(&mut self, op: u16, rb: u8) -> (r: Result<(), Chip8Error>)
        requires
            old(self).wf(),
            2 <= old(self)@.pc <= MEMORY_SIZE,
        ensures
            final(self).wf(),
            match r {
                Ok(()) => spec_execute(old(self)@, op, rb) == Ok::<Chip8State, Chip8Error>(
                    final(self)@,
                ),
                Err(e) => spec_execute(old(self)@, op, rb) == Err::<Chip8State, Chip8Error>(e)
                    && final(self)@ == old(self)@,
            },
    {
        let ghost s = self@;
        let d1 = op / 0x1000;
        let d2 = (op / 0x100) % 16;
        let d3 = (op / 0x10) % 16;
        let d4 = op % 16;
        let x = d2 as usize;
        let y = d3 as usize;
        let nn = (op % 0x100) as u8;
        let nnn = op % 0x1000;
        proof {
            assert(d1 == nib1(op) && d2 == nib2(op) && d3 == nib3(op) && d4 == nib4(op));
            assert(nn == imm_nn(op) && nnn == addr_nnn(op));
            assert(x < NUM_REGISTERS && y < NUM_REGISTERS);
            assert(nnn < 0x1000);
        }
        match (d1, d2, d3, d4) {
            (0, 0, 0, 0) => Ok(()),
            (0, 0, 0xE, 0xE) => {
                if self.stack.depth() == 0 {
                    return Err(Chip8Error::StackUnderflow);
                }
                let addr = self.stack.pop();
                self.pc = addr;
                Ok(())
            },
            (1, _, _, _) => {
                self.pc = nnn;
                Ok(())
            },
            (2, _, _, _) => {
                if self.stack.depth() >= STACK_CAPACITY {
                    return Err(Chip8Error::StackOverflow);
                }
                self.stack.push(self.pc);
                self.pc = nnn;
                Ok(())
            },
            (3, _, _, _) => {
                if self.v_register[x] == nn {
                    self.pc = self.pc + 2;
                }
                Ok(())
            },
            (4, _, _, _) => {
                if self.v_register[x] != nn {
                    self.pc = self.pc + 2;
                }
                Ok(())
            },
            (5, _, _, 0) => {
                if self.v_register[x] == self.v_register[y] {
                    self.pc = self.pc + 2;
                }
                Ok(())
            },
            (6, _, _, _) => {
                self.v_register.set(x, nn);
                Ok(())
            },
            (7, _, _, _) => {
                let vx = self.v_register[x];
                self.v_register.set(x, vx.wrapping_add(nn));
                Ok(())
            },
            (8, _, _, 0) => {
                let vy = self.v_register[y];
                self.v_register.set(x, vy);
                Ok(())
            },
            (8, _, _, 1) => {
                let vx = self.v_register[x];
                let vy = self.v_register[y];
                self.v_register.set(x, vx | vy);
                Ok(())
            },
            (8, _, _, 2) => {
                let vx = self.v_register[x];
                let vy = self.v_register[y];
                self.v_register.set(x, vx & vy);
                Ok(())
            },
            (8, _, _, 3) => {
                let vx = self.v_register[x];
                let vy = self.v_register[y];
                self.v_register.set(x, vx ^ vy);
                Ok(())
            },
            (8, _, _, 4) => {
                let vx = self.v_register[x];
                let vy = self.v_register[y];
                let carry = (vx as u16) + (vy as u16) > 255;
                self.v_register.set(x, vx.wrapping_add(vy));
                self.v_register.set(0xF, if carry { 1 } else { 0 });
                Ok(())
            },
            (8, _, _, 5) => {
                let vx = self.v_register[x];
                let vy = self.v_register[y];
                let no_borrow = vx >= vy;
                self.v_register.set(x, vx.wrapping_sub(vy));
                self.v_register.set(0xF, if no_borrow { 1 } else { 0 });
                Ok(())
            },
            (8, _, _, 6) => {
                let vx = self.v_register[x];
                self.v_register.set(x, vx >> 1u8);
                self.v_register.set(0xF, vx & 1);
                Ok(())
            },
            (8, _, _, 7) => {
                let vx = self.v_register[x];
                let vy = self.v_register[y];
                let no_borrow = vy >= vx;
                self.v_register.set(x, vy.wrapping_sub(vx));
                self.v_register.set(0xF, if no_borrow { 1 } else { 0 });
                Ok(())
            },
            (8, _, _, 0xE) => {
                let vx = self.v_register[x];
                self.v_register.set(x, vx << 1u8);
                self.v_register.set(0xF, (vx >> 7u8) & 1);
                Ok(())
            },
            (9, _, _, 0) => {
                if self.v_register[x] != self.v_register[y] {
                    self.pc = self.pc + 2;
                }
                Ok(())
            },
            (0xA, _, _, _) => {
                self.i_register = nnn;
                Ok(())
            },
            (0xB, _, _, _) => {
                self.pc = self.v_register[0] as u16 + nnn;
                Ok(())
            },
            (0xC, _, _, _) => {
                self.v_register.set(x, rb & nn);
                Ok(())
            },
            (0xD, _, _, _) => {
                let x0 = self.v_register[x];
                let y0 = self.v_register[y];
                let n = d4 as usize;
                let i0 = self.i_register as usize;
                if i0 + n > MEMORY_SIZE {
                    return Err(Chip8Error::AddressOutOfBounds);
                }
                let flipped = self.draw_sprite(x0, y0, n);
                self.v_register.set(0xF, if flipped { 1 } else { 0 });
                self.draw_flag = true;
                Ok(())
            },
            (0xE, _, 9, 0xE) => {
                let vx = self.v_register[x];
                if vx as usize >= NUM_KEYS {
                    return Err(Chip8Error::KeyOutOfBounds);
                }
                if self.keypad[vx as usize] {
                    self.pc = self.pc + 2;
                }
                Ok(())
            },
            (0xE, _, 0xA, 1) => {
                let vx = self.v_register[x];
                if vx as usize >= NUM_KEYS {
                    return Err(Chip8Error::KeyOutOfBounds);
                }
                if !self.keypad[vx as usize] {
                    self.pc = self.pc + 2;
                }
                Ok(())
            },
            (0xF, _, 0, 7) => {
                let dt = self.delay_timer;
                self.v_register.set(x, dt);
                Ok(())
            },
            (0xF, _, 0, 0xA) => {
                let mut pressed = false;
                let mut key_value: u8 = 0;
                let mut ki: usize = 0;
                while ki < NUM_KEYS && !pressed
                    invariant
                        self.wf(),
                        self@ == s,
                        ki <= NUM_KEYS,
                        !pressed ==> spec_first_key(s.keypad, 0) == spec_first_key(
                            s.keypad,
                            ki as int,
                        ),
                        pressed ==> spec_first_key(s.keypad, 0) == Some(key_value),
                    decreases (if pressed { 0int } else { NUM_KEYS - ki }),
                {
                    if self.keypad[ki] {
                        pressed = true;
                        key_value = ki as u8;
                    } else {
                        ki += 1;
                    }
                }
                if pressed {
                    self.v_register.set(x, key_value);
                } else {
                    proof {
                        assert(spec_first_key(s.keypad, 16) is None);
                    }
                    self.pc = self.pc - 2;
                }
                Ok(())
            },
            (0xF, _, 1, 5) => {
                self.delay_timer = self.v_register[x];
                Ok(())
            },
            (0xF, _, 1, 8) => {
                self.sound_timer = self.v_register[x];
                Ok(())
            },
            (0xF, _, 1, 0xE) => {
                let vx = self.v_register[x] as u16;
                self.i_register = self.i_register.wrapping_add(vx);
                Ok(())
            },
            (0xF, _, 2, 9) => {
                let c = self.v_register[x] as u16;
                self.i_register = c * 5;
                Ok(())
            },
            (0xF, _, 3, 3) => {
                let vx = self.v_register[x];
                let i0 = self.i_register as usize;
                if i0 + 2 >= MEMORY_SIZE {
                    return Err(Chip8Error::AddressOutOfBounds);
                }
                self.memory.set(i0, vx / 100);
                self.memory.set(i0 + 1, (vx / 10) % 10);
                self.memory.set(i0 + 2, vx % 10);
                Ok(())
            },
            (0xF, _, 5, 5) => {
                let i0 = self.i_register as usize;
                if i0 + x >= MEMORY_SIZE {
                    return Err(Chip8Error::AddressOutOfBounds);
                }
                let mut k: usize = 0;
                while k <= x
                    invariant
                        self.wf(),
                        s.wf(),
                        k <= x + 1,
                        x < NUM_REGISTERS,
                        i0 == s.ireg,
                        i0 + x < MEMORY_SIZE,
                        self@ == (Chip8State { mem: self@.mem, ..s }),
                        forall|j: int|
                            0 <= j < MEMORY_SIZE ==> self@.mem[j] == (if i0 <= j < i0 + k {
                                s.v[j - i0]
                            } else {
                                s.mem[j]
                            }),
                    decreases x + 1 - k,
                {
                    let b = self.v_register[k];
                    self.memory.set(i0 + k, b);
                    k += 1;
                }
                proof {
                    assert(self@.mem =~= spec_store_regs(s, x as int));
                    assert(self@ =~= (Chip8State { mem: spec_store_regs(s, x as int), ..s }));
                }
                Ok(())
            },
            (0xF, _, 6, 5) => {
                let i0 = self.i_register as usize;
                if i0 + x >= MEMORY_SIZE {
                    return Err(Chip8Error::AddressOutOfBounds);
                }
                let mut k: usize = 0;
                while k <= x
                    invariant
                        self.wf(),
                        s.wf(),
                        k <= x + 1,
                        x < NUM_REGISTERS,
                        i0 == s.ireg,
                        i0 + x < MEMORY_SIZE,
                        self@ == (Chip8State { v: self@.v, ..s }),
                        forall|j: int|
                            0 <= j < NUM_REGISTERS ==> self@.v[j] == (if j < k {
                                s.mem[i0 + j]
                            } else {
                                s.v[j]
                            }),
                    decreases x + 1 - k,
                {
                    let b = self.memory[i0 + k];
                    self.v_register.set(k, b);
                    k += 1;
                }
                proof {
                    assert(self@.v =~= spec_load_regs(s, x as int));
                    assert(self@ =~= (Chip8State { v: spec_load_regs(s, x as int), ..s }));
                }
                Ok(())
            },
            (_, _, _, _) => Err(Chip8Error::UnimplementedOpcode(op)),
        }
    }

    /// One CPU step: fetch the instruction word at the program counter and
    /// execute it. Every failure leaves the state exactly as it was, so
    /// the caller may halt, reset, or carry on.
    pub fn tick(&mut self) -> (r: Result<(), Chip8Error>)
        requires
            old(self).wf(),
        ensures
            final(self).wf(),
            match r {
                Ok(()) => exists|rb: u8|
                    spec_tick(old(self)@, rb) == Ok::<Chip8State, Chip8Error>(final(self)@),
                Err(e) => final(self)@ == old(self)@ && exists|rb: u8|
                    spec_tick(old(self)@, rb) == Err::<Chip8State, Chip8Error>(e),
            },
    {
        if self.pc as usize + 1 >= MEMORY_SIZE {
            proof {
                assert(spec_tick(self@, 0u8) == Err::<Chip8State, Chip8Error>(
                    Chip8Error::AddressOutOfBounds,
                ));
            }
            return Err(Chip8Error::AddressOutOfBounds);
        }
        let ghost s0 = self@;
        let op = self.fetch_opcode();
        let rb = if op / 0x1000 == 0xC {
            random_byte()
        } else {
            0
        };
        let r = self.execute(op, rb);
        match r {
            Ok(()) => {
                proof {
                    assert(spec_tick(s0, rb) == Ok::<Chip8State, Chip8Error>(self@));
                }
                Ok(())
            },
            Err(e) => {
                self.pc = self.pc - 2;
                proof {
                    assert(self@ =~= s0);
                    assert(spec_tick(s0, rb) == Err::<Chip8State, Chip8Error>(e));
                }
                Err(e)
            },
        }
    }
}

} // verus!
