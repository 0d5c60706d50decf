//! Specification-level model of the CHIP-8 machine.
//!
//! [`Chip8State`] is the mathematical view of the emulator: plain sequences
//! and integers. [`spec_execute`] is the transition function of one decoded
//! instruction; the executable engine is proved to implement it exactly.

use vstd::prelude::*;

verus! {

/// Bytes of addressable memory.
pub const MEMORY_SIZE: usize = 4096;

/// Pixels per display row.
pub const DISPLAY_WIDTH: usize = 64;

/// Display rows.
pub const DISPLAY_HEIGHT: usize = 32;

/// General-purpose 8-bit registers (V0..VF).
pub const NUM_REGISTERS: usize = 16;

/// Keys on the hexadecimal keypad.
pub const NUM_KEYS: usize = 16;

/// First address of a loaded program image.
pub const START_ADDRESS: u16 = 0x200;

/// Bytes of the built-in glyph table (16 glyphs of 5 bytes).
pub const FONT_SIZE: usize = 80;

/// Failure conditions of a single CPU step.
///
/// Every error is local to one step: the machine state is left unchanged and
/// the caller decides whether to halt, reset, or continue.
#[derive(Clone, Copy, PartialEq, Eq, Structural, Debug)]
pub enum Chip8Error {
    /// The fetched instruction word matches no implemented pattern.
    UnimplementedOpcode(u16),
    /// A subroutine call would push past the fixed stack capacity.
    StackOverflow,
    /// A return was executed with an empty call stack.
    StackUnderflow,
    /// An instruction derived a memory address outside the address space.
    AddressOutOfBounds,
    /// A key-test instruction named a key index outside the keypad.
    KeyOutOfBounds,
}

/// Mathematical view of the whole machine state.
#[verifier::ext_equal]
pub struct Chip8State {
    /// Program counter.
    pub pc: u16,
    /// Addressable memory, [`MEMORY_SIZE`] bytes.
    pub mem: Seq<u8>,
    /// Display pixels, row-major, `DISPLAY_WIDTH * DISPLAY_HEIGHT` entries.
    pub screen: Seq<bool>,
    /// General registers V0..VF.
    pub v: Seq<u8>,
    /// Index register I.
    pub ireg: u16,
    /// Call stack of return addresses, most recent last.
    pub stack: Seq<u16>,
    /// Key-down flags of the 16-key pad.
    pub keypad: Seq<bool>,
    /// Delay timer.
    pub delay: u8,
    /// Sound timer.
    pub sound: u8,
    /// Set whenever a draw instruction ran; cleared by the renderer.
    pub draw: bool,
}

impl Chip8State {
    /// Every container has its fixed size and the stack respects its cap.
    pub open spec fn wf(self) -> bool {
        &&& self.mem.len() == MEMORY_SIZE
        &&& self.screen.len() == DISPLAY_WIDTH * DISPLAY_HEIGHT
        &&& self.v.len() == NUM_REGISTERS
        &&& self.keypad.len() == NUM_KEYS
        &&& self.stack.len() <= crate::stack::STACK_CAPACITY
    }
}

/// Highest nibble of an instruction word.
pub open spec fn nib1(op: u16) -> u16 {
    op / 0x1000
}

/// Second nibble (register selector `x`).
pub open spec fn nib2(op: u16) -> u16 {
    (op / 0x100) % 16
}

/// Third nibble (register selector `y`).
pub open spec fn nib3(op: u16) -> u16 {
    (op / 0x10) % 16
}

/// Lowest nibble.
pub open spec fn nib4(op: u16) -> u16 {
    op % 16
}

/// Low 12 bits (an absolute address).
pub open spec fn addr_nnn(op: u16) -> u16 {
    op % 0x1000
}

/// Low byte (an immediate operand).
pub open spec fn imm_nn(op: u16) -> u8 {
    (op % 0x100) as u8
}

/// 8-bit addition with modular wraparound.
pub open spec fn add_wrap(a: u8, b: u8) -> u8 {
    if a + b > 255 {
        (a + b - 256) as u8
    } else {
        (a + b) as u8
    }
}

/// 8-bit subtraction with modular wraparound.
pub open spec fn sub_wrap(a: u8, b: u8) -> u8 {
    if a - b < 0 {
        (a - b + 256) as u8
    } else {
        (a - b) as u8
    }
}

/// 16-bit addition with modular wraparound.
pub open spec fn add_wrap16(a: u16, b: u16) -> u16 {
    if a + b > 0xFFFF {
        (a + b - 0x10000) as u16
    } else {
        (a + b) as u16
    }
}

/// The state with the program counter moved past the next instruction.
pub open spec fn spec_skip(s: Chip8State) -> Chip8State {
    Chip8State { pc: (s.pc + 2) as u16, ..s }
}

/// Lowest pressed key index at or after `i`, if any key is down.
pub open spec fn spec_first_key(k: Seq<bool>, i: int) -> Option<u8>
    decreases 16 - i,
{
    if i < 0 || i >= 16 {
        None
    } else if k[i] {
        Some(i as u8)
    } else {
        spec_first_key(k, i + 1)
    }
}

/// Whether bit `col` (most significant first) of sprite row `row` is set.
pub open spec fn spec_sprite_bit(s: Chip8State, row: int, col: int) -> bool {
    ((s.mem[s.ireg + row] >> ((7 - col) as u8)) & 1) == 1
}

/// Display index hit by sprite cell `(row, col)` drawn at `(x0, y0)`,
/// wrapping toroidally on both axes.
pub open spec fn spec_draw_index(x0: u8, y0: u8, row: int, col: int) -> int {
    (x0 + col) % (DISPLAY_WIDTH as int) + (DISPLAY_WIDTH as int) * ((y0 + row) % (
    DISPLAY_HEIGHT as int))
}

/// Whether some set sprite cell of the `n`-row sprite lands on pixel `p`.
pub open spec fn spec_covered(s: Chip8State, x0: u8, y0: u8, n: int, p: int) -> bool {
    exists|row: int, col: int|
        0 <= row < n && 0 <= col < 8 && #[trigger] spec_draw_index(x0, y0, row, col) == p
            && spec_sprite_bit(s, row, col)
}

/// The display after XOR-drawing the `n`-row sprite at `(x0, y0)`.
pub open spec fn spec_draw_screen(s: Chip8State, x0: u8, y0: u8, n: int) -> Seq<bool> {
    Seq::new((DISPLAY_WIDTH * DISPLAY_HEIGHT) as nat, |p: int| s.screen[p] ^ spec_covered(s, x0, y0, n, p))
}

/// Whether the draw toggles some already-set pixel from set to unset.
pub open spec fn spec_draw_collision(s: Chip8State, x0: u8, y0: u8, n: int) -> bool {
    exists|row: int, col: int|
        0 <= row < n && 0 <= col < 8 && spec_sprite_bit(s, row, col) && s.screen[#[trigger] spec_draw_index(
            x0,
            y0,
            row,
            col,
        )]
}

/// Like [`spec_covered`], but only for sprite cells processed before the
/// cell `(r, c)` in row-major order: all rows below `r`, and the first `c`
/// columns of row `r`.
pub open spec fn spec_covered_upto(s: Chip8State, x0: u8, y0: u8, r: int, c: int, p: int) -> bool {
    exists|row: int, col: int|
        0 <= row && 0 <= col < 8 && (row < r || (row == r && col < c)) && #[trigger] spec_draw_index(
            x0,
            y0,
            row,
            col,
        ) == p && spec_sprite_bit(s, row, col)
}

/// Like [`spec_draw_collision`], but only for sprite cells processed before
/// the cell `(r, c)` in row-major order.
pub open spec fn spec_collision_upto(s: Chip8State, x0: u8, y0: u8, r: int, c: int) -> bool {
    exists|row: int, col: int|
        0 <= row && 0 <= col < 8 && (row < r || (row == r && col < c)) && spec_sprite_bit(
            s,
            row,
            col,
        ) && s.screen[#[trigger] spec_draw_index(x0, y0, row, col)]
}

/// Two distinct offsets under a common base stay distinct modulo `m` as
/// long as both offsets lie below `m`.
pub proof fn lemma_mod_shift_distinct(base: int, a: int, b: int, m: int)
    requires
        0 <= base,
        0 <= a < m,
        0 <= b < m,
        a != b,
    ensures
        (base + a) % m != (base + b) % m,
{
    if (base + a) % m == (base + b) % m {
        if a > b {
            vstd::arithmetic::div_mod::lemma_mod_equivalence(base + a, base + b, m);
            assert(((base + a) - (base + b)) % m == 0);
            vstd::arithmetic::div_mod::lemma_small_mod((a - b) as nat, m as nat);
        } else {
            vstd::arithmetic::div_mod::lemma_mod_equivalence(base + b, base + a, m);
            assert(((base + b) - (base + a)) % m == 0);
            vstd::arithmetic::div_mod::lemma_small_mod((b - a) as nat, m as nat);
        }
    }
}

/// Distinct sprite cells of a sprite at most 32 rows tall land on distinct
/// display pixels: the 8 columns stay distinct modulo the display width and
/// the rows stay distinct modulo the display height.
pub proof fn lemma_draw_index_injective(x0: u8, y0: u8, r1: int, c1: int, r2: int, c2: int)
    requires
        0 <= r1 < 32,
        0 <= r2 < 32,
        0 <= c1 < 8,
        0 <= c2 < 8,
        !(r1 == r2 && c1 == c2),
    ensures
        spec_draw_index(x0, y0, r1, c1) != spec_draw_index(x0, y0, r2, c2),
{
    let cx1 = (x0 + c1) % 64;
    let cx2 = (x0 + c2) % 64;
    let cy1 = (y0 + r1) % 32;
    let cy2 = (y0 + r2) % 32;
    vstd::arithmetic::div_mod::lemma_mod_bound(x0 + c1, 64);
    vstd::arithmetic::div_mod::lemma_mod_bound(x0 + c2, 64);
    vstd::arithmetic::div_mod::lemma_mod_bound(y0 + r1, 32);
    vstd::arithmetic::div_mod::lemma_mod_bound(y0 + r2, 32);
    if r1 == r2 {
        lemma_mod_shift_distinct(x0 as int, c1, c2, 64);
    } else {
        lemma_mod_shift_distinct(y0 as int, r1, r2, 32);
        assert(cx1 + 64 * cy1 != cx2 + 64 * cy2) by {
            if cx1 + 64 * cy1 == cx2 + 64 * cy2 {
                assert(cx1 - cx2 == 64 * (cy2 - cy1));
            }
        }
    }
}

/// Before any sprite cell is processed, nothing is covered.
pub proof fn lemma_covered_none(s: Chip8State, x0: u8, y0: u8, p: int)
    ensures
        !spec_covered_upto(s, x0, y0, 0, 0, p),
        !spec_collision_upto(s, x0, y0, 0, 0),
{
}

/// Processing one more cell of row `r` extends the covered cells by that
/// cell alone, and likewise for the collision account.
pub proof fn lemma_covered_step(s: Chip8State, x0: u8, y0: u8, r: int, c: int, p: int)
    requires
        0 <= r,
        0 <= c < 8,
    ensures
        spec_covered_upto(s, x0, y0, r, c + 1, p) == (spec_covered_upto(s, x0, y0, r, c, p) || (
        spec_sprite_bit(s, r, c) && spec_draw_index(x0, y0, r, c) == p)),
        spec_collision_upto(s, x0, y0, r, c + 1) == (spec_collision_upto(s, x0, y0, r, c) || (
        spec_sprite_bit(s, r, c) && s.screen[spec_draw_index(x0, y0, r, c)])),
{
    if spec_covered_upto(s, x0, y0, r, c + 1, p) {
        let (row, col) = choose|row: int, col: int|
            0 <= row && 0 <= col < 8 && (row < r || (row == r && col < c + 1))
                && #[trigger] spec_draw_index(x0, y0, row, col) == p && spec_sprite_bit(s, row, col);
        if row == r && col == c {
            assert(spec_sprite_bit(s, r, c) && spec_draw_index(x0, y0, r, c) == p);
        } else {
            assert(row < r || (row == r && col < c));
            assert(spec_covered_upto(s, x0, y0, r, c, p));
        }
    }
    if spec_collision_upto(s, x0, y0, r, c + 1) {
        let (row, col) = choose|row: int, col: int|
            0 <= row && 0 <= col < 8 && (row < r || (row == r && col < c + 1)) && spec_sprite_bit(
                s,
                row,
                col,
            ) && s.screen[#[trigger] spec_draw_index(x0, y0, row, col)];
        if row == r && col == c {
            assert(spec_sprite_bit(s, r, c) && s.screen[spec_draw_index(x0, y0, r, c)]);
        } else {
            assert(spec_collision_upto(s, x0, y0, r, c));
        }
    }
}

/// A fully processed row is the same account as the start of the next row.
pub proof fn lemma_covered_row_end(s: Chip8State, x0: u8, y0: u8, r: int, p: int)
    requires
        0 <= r,
    ensures
        spec_covered_upto(s, x0, y0, r, 8, p) == spec_covered_upto(s, x0, y0, r + 1, 0, p),
        spec_collision_upto(s, x0, y0, r, 8) == spec_collision_upto(s, x0, y0, r + 1, 0),
{
    if spec_covered_upto(s, x0, y0, r, 8, p) {
        let (row, col) = choose|row: int, col: int|
            0 <= row && 0 <= col < 8 && (row < r || (row == r && col < 8))
                && #[trigger] spec_draw_index(x0, y0, row, col) == p && spec_sprite_bit(s, row, col);
        assert(row < r + 1);
        assert(spec_covered_upto(s, x0, y0, r + 1, 0, p));
    }
    if spec_covered_upto(s, x0, y0, r + 1, 0, p) {
        let (row, col) = choose|row: int, col: int|
            0 <= row && 0 <= col < 8 && (row < r + 1 || (row == r + 1 && col < 0))
                && #[trigger] spec_draw_index(x0, y0, row, col) == p && spec_sprite_bit(s, row, col);
        assert(row < r || (row == r && col < 8));
        assert(spec_covered_upto(s, x0, y0, r, 8, p));
    }
    if spec_collision_upto(s, x0, y0, r, 8) {
        let (row, col) = choose|row: int, col: int|
            0 <= row && 0 <= col < 8 && (row < r || (row == r && col < 8)) && spec_sprite_bit(
                s,
                row,
                col,
            ) && s.screen[#[trigger] spec_draw_index(x0, y0, row, col)];
        assert(row < r + 1);
        assert(spec_collision_upto(s, x0, y0, r + 1, 0));
    }
    if spec_collision_upto(s, x0, y0, r + 1, 0) {
        let (row, col) = choose|row: int, col: int|
            0 <= row && 0 <= col < 8 && (row < r + 1 || (row == r + 1 && col < 0))
                && spec_sprite_bit(s, row, col) && s.screen[#[trigger] spec_draw_index(
                x0,
                y0,
                row,
                col,
            )];
        assert(row < r || (row == r && col < 8));
        assert(spec_collision_upto(s, x0, y0, r, 8));
    }
}

/// After the last row, the running account coincides with the full one.
pub proof fn lemma_covered_done(s: Chip8State, x0: u8, y0: u8, n: int, p: int)
    requires
        0 <= n,
    ensures
        spec_covered_upto(s, x0, y0, n, 0, p) == spec_covered(s, x0, y0, n, p),
        spec_collision_upto(s, x0, y0, n, 0) == spec_draw_collision(s, x0, y0, n),
{
}

/// No sprite cell processed before `(r, c)` lands on the pixel of `(r, c)`
/// itself, for sprites at most 32 rows tall.
pub proof fn lemma_covered_at_fresh(s: Chip8State, x0: u8, y0: u8, n: int, r: int, c: int)
    requires
        0 <= r < n <= 32,
        0 <= c < 8,
    ensures
        !spec_covered_upto(s, x0, y0, r, c, spec_draw_index(x0, y0, r, c)),
{
    let p = spec_draw_index(x0, y0, r, c);
    if spec_covered_upto(s, x0, y0, r, c, p) {
        let (row, col) = choose|row: int, col: int|
            0 <= row && 0 <= col < 8 && (row < r || (row == r && col < c))
                && #[trigger] spec_draw_index(x0, y0, row, col) == p && spec_sprite_bit(s, row, col);
        lemma_draw_index_injective(x0, y0, row, col, r, c);
    }
}

/// Memory after storing V0..Vx at addresses I..I+x.
pub open spec fn spec_store_regs(s: Chip8State, x: int) -> Seq<u8> {
    Seq::new(MEMORY_SIZE as nat, |j: int| if s.ireg <= j <= s.ireg + x { s.v[j - s.ireg] } else { s.mem[j] })
}

/// Registers after loading V0..Vx from addresses I..I+x.
pub open spec fn spec_load_regs(s: Chip8State, x: int) -> Seq<u8> {
    Seq::new(NUM_REGISTERS as nat, |j: int| if j <= x { s.mem[s.ireg + j] } else { s.v[j] })
}

/// Effect of one already-fetched instruction word on the machine state.
///
/// `s.pc` is the address after the fetched word; jump, call, return and
/// skip overwrite it. `rb` is the byte the random-number source supplied,
/// read only by the random instruction.
pub open spec fn spec_execute(s: Chip8State, op: u16, rb: u8) -> Result<Chip8State, Chip8Error> {
    let d1 = nib1(op);
    let d2 = nib2(op);
    let d3 = nib3(op);
    let d4 = nib4(op);
    let x = d2 as int;
    let y = d3 as int;
    let nn = imm_nn(op);
    let nnn = addr_nnn(op);
    if d1 == 0 && d2 == 0 && d3 == 0 && d4 == 0 {
        Ok(s)
    } else if d1 == 0 && d2 == 0 && d3 == 0xE && d4 == 0xE {
        if s.stack.len() == 0 {
            Err(Chip8Error::StackUnderflow)
        } else {
            Ok(Chip8State { pc: s.stack.last(), stack: s.stack.drop_last(), ..s })
        }
    } else if d1 == 1 {
        Ok(Chip8State { pc: nnn, ..s })
    } else if d1 == 2 {
        if s.stack.len() >= crate::stack::STACK_CAPACITY {
            Err(Chip8Error::StackOverflow)
        } else {
            Ok(Chip8State { pc: nnn, stack: s.stack.push(s.pc), ..s })
        }
    } else if d1 == 3 {
        Ok(if s.v[x] == nn { spec_skip(s) } else { s })
    } else if d1 == 4 {
        Ok(if s.v[x] != nn { spec_skip(s) } else { s })
    } else if d1 == 5 && d4 == 0 {
        Ok(if s.v[x] == s.v[y] { spec_skip(s) } else { s })
    } else if d1 == 6 {
        Ok(Chip8State { v: s.v.update(x, nn), ..s })
    } else if d1 == 7 {
        Ok(Chip8State { v: s.v.update(x, add_wrap(s.v[x], nn)), ..s })
    } else if d1 == 8 && d4 == 0 {
        Ok(Chip8State { v: s.v.update(x, s.v[y]), ..s })
    } else if d1 == 8 && d4 == 1 {
        Ok(Chip8State { v: s.v.update(x, s.v[x] | s.v[y]), ..s })
    } else if d1 == 8 && d4 == 2 {
        Ok(Chip8State { v: s.v.update(x, s.v[x] & s.v[y]), ..s })
    } else if d1 == 8 && d4 == 3 {
        Ok(Chip8State { v: s.v.update(x, s.v[x] ^ s.v[y]), ..s })
    } else if d1 == 8 && d4 == 4 {
        Ok(
            Chip8State {
                v: s.v.update(x, add_wrap(s.v[x], s.v[y])).update(
                    15,
                    if s.v[x] + s.v[y] > 255 { 1u8 } else { 0u8 },
                ),
                ..s
            },
        )
    } else if d1 == 8 && d4 == 5 {
        Ok(
            Chip8State {
                v: s.v.update(x, sub_wrap(s.v[x], s.v[y])).update(
                    15,
                    if s.v[x] >= s.v[y] { 1u8 } else { 0u8 },
                ),
                ..s
            },
        )
    } else if d1 == 8 && d4 == 6 {
        Ok(Chip8State { v: s.v.update(x, s.v[x] >> 1u8).update(15, s.v[x] & 1), ..s })
    } else if d1 == 8 && d4 == 7 {
        Ok(
            Chip8State {
                v: s.v.update(x, sub_wrap(s.v[y], s.v[x])).update(
                    15,
                    if s.v[y] >= s.v[x] { 1u8 } else { 0u8 },
                ),
                ..s
            },
        )
    } else if d1 == 8 && d4 == 0xE {
        Ok(Chip8State { v: s.v.update(x, s.v[x] << 1u8).update(15, (s.v[x] >> 7u8) & 1), ..s })
    } else if d1 == 9 && d4 == 0 {
        Ok(if s.v[x] != s.v[y] { spec_skip(s) } else { s })
    } else if d1 == 0xA {
        Ok(Chip8State { ireg: nnn, ..s })
    } else if d1 == 0xB {
        Ok(Chip8State { pc: (s.v[0] + nnn) as u16, ..s })
    } else if d1 == 0xC {
        Ok(Chip8State { v: s.v.update(x, rb & nn), ..s })
    } else if d1 == 0xD {
        if s.ireg + d4 > MEMORY_SIZE {
            Err(Chip8Error::AddressOutOfBounds)
        } else {
            Ok(
                Chip8State {
                    screen: spec_draw_screen(s, s.v[x], s.v[y], d4 as int),
                    v: s.v.update(
                        15,
                        if spec_draw_collision(s, s.v[x], s.v[y], d4 as int) { 1u8 } else { 0u8 },
                    ),
                    draw: true,
                    ..s
                },
            )
        }
    } else if d1 == 0xE && d3 == 9 && d4 == 0xE {
        if s.v[x] >= NUM_KEYS {
            Err(Chip8Error::KeyOutOfBounds)
        } else {
            Ok(if s.keypad[s.v[x] as int] { spec_skip(s) } else { s })
        }
    } else if d1 == 0xE && d3 == 0xA && d4 == 1 {
        if s.v[x] >= NUM_KEYS {
            Err(Chip8Error::KeyOutOfBounds)
        } else {
            Ok(if !s.keypad[s.v[x] as int] { spec_skip(s) } else { s })
        }
    } else if d1 == 0xF && d3 == 0 && d4 == 7 {
        Ok(Chip8State { v: s.v.update(x, s.delay), ..s })
    } else if d1 == 0xF && d3 == 0 && d4 == 0xA {
        match spec_first_key(s.keypad, 0) {
            Some(k) => Ok(Chip8State { v: s.v.update(x, k), ..s }),
            None => Ok(Chip8State { pc: (s.pc - 2) as u16, ..s }),
        }
    } else if d1 == 0xF && d3 == 1 && d4 == 5 {
        Ok(Chip8State { delay: s.v[x], ..s })
    } else if d1 == 0xF && d3 == 1 && d4 == 8 {
        Ok(Chip8State { sound: s.v[x], ..s })
    } else if d1 == 0xF && d3 == 1 && d4 == 0xE {
        Ok(Chip8State { ireg: add_wrap16(s.ireg, s.v[x] as u16), ..s })
    } else if d1 == 0xF && d3 == 2 && d4 == 9 {
        Ok(Chip8State { ireg: (s.v[x] * 5) as u16, ..s })
    } else if d1 == 0xF && d3 == 3 && d4 == 3 {
        if s.ireg + 2 >= MEMORY_SIZE {
            Err(Chip8Error::AddressOutOfBounds)
        } else {
            Ok(
                Chip8State {
                    mem: s.mem.update(s.ireg as int, s.v[x] / 100).update(
                        s.ireg + 1,
                        (s.v[x] / 10) % 10,
                    ).update(s.ireg + 2, s.v[x] % 10),
                    ..s
                },
            )
        }
    } else if d1 == 0xF && d3 == 5 && d4 == 5 {
        if s.ireg + x >= MEMORY_SIZE {
            Err(Chip8Error::AddressOutOfBounds)
        } else {
            Ok(Chip8State { mem: spec_store_regs(s, x), ..s })
        }
    } else if d1 == 0xF && d3 == 6 && d4 == 5 {
        if s.ireg + x >= MEMORY_SIZE {
            Err(Chip8Error::AddressOutOfBounds)
        } else {
            Ok(Chip8State { v: spec_load_regs(s, x), ..s })
        }
    } else {
        Err(Chip8Error::UnimplementedOpcode(op))
    }
}

/// Saturating decrement of both timers, one tick each.
pub open spec fn spec_tick_timer(s: Chip8State) -> Chip8State {
    Chip8State {
        delay: if s.delay > 0 { (s.delay - 1) as u8 } else { 0u8 },
        sound: if s.sound > 0 { (s.sound - 1) as u8 } else { 0u8 },
        ..s
    }
}

/// The built-in glyph table: a 5-byte bitmap per hexadecimal digit.
pub open spec fn fontset() -> Seq<u8> {
    seq![
        0xF0u8, 0x90, 0x90, 0x90, 0xF0,
        0x20, 0x60, 0x20, 0x20, 0x70,
        0xF0, 0x10, 0xF0, 0x80, 0xF0,
        0xF0, 0x10, 0xF0, 0x10, 0xF0,
        0x90, 0x90, 0xF0, 0x10, 0x10,
        0xF0, 0x80, 0xF0, 0x10, 0xF0,
        0xF0, 0x80, 0xF0, 0x90, 0xF0,
        0xF0, 0x10, 0x20, 0x40, 0x40,
        0xF0, 0x90, 0xF0, 0x90, 0xF0,
        0xF0, 0x90, 0xF0, 0x10, 0xF0,
        0xF0, 0x90, 0xF0, 0x90, 0x90,
        0xE0, 0x90, 0xE0, 0x90, 0xE0,
        0xF0, 0x80, 0x80, 0x80, 0xF0,
        0xE0, 0x90, 0x90, 0x90, 0xE0,
        0xF0, 0x80, 0xF0, 0x80, 0xF0,
        0xF0, 0x80, 0xF0, 0x80, 0x80,
    ]
}

/// Memory as init and reset leave it: the glyph table low, zeroes above.
pub open spec fn initial_memory() -> Seq<u8> {
    Seq::new(MEMORY_SIZE as nat, |j: int| if j < FONT_SIZE { fontset()[j] } else { 0u8 })
}

/// The machine state that `new` builds and `reset` restores.
pub open spec fn initial_state() -> Chip8State {
    Chip8State {
        pc: START_ADDRESS,
        mem: initial_memory(),
        screen: Seq::new((DISPLAY_WIDTH * DISPLAY_HEIGHT) as nat, |p: int| false),
        v: Seq::new(NUM_REGISTERS as nat, |j: int| 0u8),
        ireg: 0,
        stack: Seq::<u16>::empty(),
        keypad: Seq::new(NUM_KEYS as nat, |j: int| false),
        delay: 0,
        sound: 0,
        draw: false,
    }
}

/// What `reset` leaves behind, whatever state it started from.
pub open spec fn spec_reset(s: Chip8State) -> Chip8State {
    initial_state()
}

/// One whole CPU step: fetch the big-endian word at `pc`, advance `pc`
/// past it, then execute. Fails without touching the state when the fetch
/// would leave the address space.
pub open spec fn spec_tick(s: Chip8State, rb: u8) -> Result<Chip8State, Chip8Error> {
    if s.pc + 1 >= MEMORY_SIZE {
        Err(Chip8Error::AddressOutOfBounds)
    } else {
        let op = ((s.mem[s.pc as int] as int) * 0x100 + (s.mem[s.pc + 1] as int)) as u16;
        spec_execute(spec_skip(s), op, rb)
    }
}

} // verus!
