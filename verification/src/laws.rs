//! Proved laws of the instruction semantics.
//!
//! Each proof function states a property of the transition function
//! [`spec_execute`] (or of its companions) that holds for every machine
//! state and instruction the statement admits.

use vstd::prelude::*;

use crate::machine::{
    add_wrap, fontset, imm_nn, nib1, nib2, nib3, nib4, spec_covered, spec_draw_collision,
    spec_draw_index, spec_execute, spec_reset, spec_sprite_bit, spec_tick_timer, Chip8Error,
    Chip8State, DISPLAY_HEIGHT, DISPLAY_WIDTH, FONT_SIZE, MEMORY_SIZE,
};
use crate::stack::STACK_CAPACITY;

verus! {

/// Adding an immediate to a register (`7xnn`) wraps modulo 256 and changes
/// nothing else; in particular it has no flag side effect, so VF keeps its
/// value whenever it is not itself the target register.
pub proof fn lemma_add_imm_wraps(s: Chip8State, op: u16, rb: u8)
    requires
        s.wf(),
        nib1(op) == 7,
    ensures
        spec_execute(s, op, rb) == Ok::<Chip8State, Chip8Error>(
            Chip8State {
                v: s.v.update(
                    nib2(op) as int,
                    ((s.v[nib2(op) as int] + imm_nn(op)) % 256) as u8,
                ),
                ..s
            },
        ),
        nib2(op) != 15 ==> spec_execute(s, op, rb).unwrap().v[15] == s.v[15],
{
    let a = s.v[nib2(op) as int];
    let b = imm_nn(op);
    assert(add_wrap(a, b) == ((a + b) % 256) as u8) by {
        if a + b > 255 {
            assert((a + b) % 256 == a + b - 256);
        } else {
            assert((a + b) % 256 == a + b);
        }
    }
}

/// A subroutine call (`2nnn`) followed by a return (`00EE`) restores the
/// program counter to the instruction just after the call and the stack to
/// its pre-call contents.
pub proof fn lemma_call_return_round_trip(s: Chip8State, op: u16, rb1: u8, rb2: u8)
    requires
        s.wf(),
        nib1(op) == 2,
        s.stack.len() < STACK_CAPACITY,
    ensures
        spec_execute(s, op, rb1) is Ok,
        spec_execute(spec_execute(s, op, rb1).unwrap(), 0x00EE, rb2) is Ok,
        spec_execute(spec_execute(s, op, rb1).unwrap(), 0x00EE, rb2).unwrap().pc == s.pc,
        spec_execute(spec_execute(s, op, rb1).unwrap(), 0x00EE, rb2).unwrap().stack == s.stack,
{
    let s1 = spec_execute(s, op, rb1).unwrap();
    assert(nib1(0x00EE) == 0 && nib2(0x00EE) == 0 && nib3(0x00EE) == 0xE && nib4(0x00EE) == 0xE);
    assert(s1.stack == s.stack.push(s.pc));
    assert(s1.stack.last() == s.pc);
    assert(s1.stack.drop_last() =~= s.stack);
}

/// Drawing the same sprite twice at the same coordinates toggles the
/// affected pixels back, restoring the display exactly; and when some set
/// sprite cell lands on a pixel that starts unset, the second draw finds
/// that pixel set and reports a collision in VF.
pub proof fn lemma_draw_self_collision(s: Chip8State, op: u16, rb1: u8, rb2: u8)
    requires
        s.wf(),
        nib1(op) == 0xD,
        nib2(op) != 15,
        nib3(op) != 15,
        s.ireg + nib4(op) <= MEMORY_SIZE,
        exists|row: int, col: int|
            0 <= row < nib4(op) && 0 <= col < 8 && #[trigger] spec_sprite_bit(s, row, col)
                && !s.screen[spec_draw_index(s.v[nib2(op) as int], s.v[nib3(op) as int], row, col)],
    ensures
        spec_execute(s, op, rb1) is Ok,
        spec_execute(spec_execute(s, op, rb1).unwrap(), op, rb2) is Ok,
        spec_execute(spec_execute(s, op, rb1).unwrap(), op, rb2).unwrap().screen == s.screen,
        spec_execute(spec_execute(s, op, rb1).unwrap(), op, rb2).unwrap().v[15] == 1,
{
    let x = nib2(op) as int;
    let y = nib3(op) as int;
    let n = nib4(op) as int;
    let x0 = s.v[x];
    let y0 = s.v[y];
    let s1 = spec_execute(s, op, rb1).unwrap();
    assert(s1.v[x] == x0 && s1.v[y] == y0);
    assert(s1.mem == s.mem && s1.ireg == s.ireg);
    assert forall|row: int, col: int| #[trigger]
        spec_sprite_bit(s1, row, col) == spec_sprite_bit(s, row, col) by {}
    assert forall|p: int| #[trigger] spec_covered(s1, x0, y0, n, p) == spec_covered(
        s,
        x0,
        y0,
        n,
        p,
    ) by {
        if spec_covered(s1, x0, y0, n, p) {
            let (row, col) = choose|row: int, col: int|
                0 <= row < n && 0 <= col < 8 && #[trigger] spec_draw_index(x0, y0, row, col) == p
                    && spec_sprite_bit(s1, row, col);
            assert(spec_sprite_bit(s, row, col));
            assert(spec_covered(s, x0, y0, n, p));
        }
        if spec_covered(s, x0, y0, n, p) {
            let (row, col) = choose|row: int, col: int|
                0 <= row < n && 0 <= col < 8 && #[trigger] spec_draw_index(x0, y0, row, col) == p
                    && spec_sprite_bit(s, row, col);
            assert(spec_sprite_bit(s1, row, col));
            assert(spec_covered(s1, x0, y0, n, p));
        }
    }
    let s2 = spec_execute(s1, op, rb2).unwrap();
    assert(s2.screen =~= s.screen) by {
        assert forall|p: int| 0 <= p < s.screen.len() implies s2.screen[p] == s.screen[p] by {
            assert(s1.screen[p] == (s.screen[p] ^ spec_covered(s, x0, y0, n, p)));
            assert(s2.screen[p] == (s1.screen[p] ^ spec_covered(s1, x0, y0, n, p)));
        }
    }
    let (row, col) = choose|row: int, col: int|
        0 <= row < n && 0 <= col < 8 && #[trigger] spec_sprite_bit(s, row, col)
            && !s.screen[spec_draw_index(x0, y0, row, col)];
    let p = spec_draw_index(x0, y0, row, col);
    assert(spec_covered(s, x0, y0, n, p));
    assert(0 <= p < DISPLAY_WIDTH * DISPLAY_HEIGHT) by {
        vstd::arithmetic::div_mod::lemma_mod_bound(x0 + col, 64);
        vstd::arithmetic::div_mod::lemma_mod_bound(y0 + row, 32);
    }
    assert(s1.screen[p]);
    assert(spec_draw_collision(s1, x0, y0, n));
    assert(s2.v[15] == 1);
}

/// Drawing with x-coordinate 63 wraps: sprite column 0 lands on display
/// column 63 and columns 1 through 7 wrap around to columns 0 through 6.
pub proof fn lemma_draw_wraparound(y0: u8, row: int, col: int)
    requires
        0 <= row,
        0 <= col < 8,
    ensures
        col == 0 ==> spec_draw_index(63, y0, row, col) % 64 == 63,
        col > 0 ==> spec_draw_index(63, y0, row, col) % 64 == col - 1,
{
    let cy = (y0 + row) % (DISPLAY_HEIGHT as int);
    vstd::arithmetic::div_mod::lemma_mod_bound(y0 + row, 32);
    assert(spec_draw_index(63, y0, row, col) == (63 + col) % 64 + 64 * cy);
    vstd::arithmetic::div_mod::lemma_mod_multiples_vanish(cy, (63 + col) % 64, 64);
    assert((64 * cy + (63 + col) % 64) % 64 == ((63 + col) % 64) % 64);
    vstd::arithmetic::div_mod::lemma_mod_bound(63 + col, 64);
    vstd::arithmetic::div_mod::lemma_small_mod((((63 + col) % 64) as nat), 64nat);
    if col == 0 {
        vstd::arithmetic::div_mod::lemma_small_mod(63nat, 64nat);
    } else {
        assert((63 + col) % 64 == col - 1) by {
            vstd::arithmetic::div_mod::lemma_mod_sub_multiples_vanish(63 + col, 64);
            assert((63 + col - 64) % 64 == (63 + col) % 64);
            vstd::arithmetic::div_mod::lemma_small_mod((col - 1) as nat, 64nat);
        }
    }
}

/// The timers saturate at zero: a tick at zero stays at zero and a tick
/// never increases a timer.
pub proof fn lemma_timer_saturation(s: Chip8State)
    ensures
        s.delay == 0 ==> spec_tick_timer(s).delay == 0,
        s.sound == 0 ==> spec_tick_timer(s).sound == 0,
        spec_tick_timer(s).delay <= s.delay,
        spec_tick_timer(s).sound <= s.sound,
{
}

/// Resetting twice yields exactly the state of a single reset, and the
/// reset state is well formed with the glyph table in the low bytes of
/// memory.
pub proof fn lemma_reset_idempotent(s: Chip8State)
    ensures
        spec_reset(spec_reset(s)) == spec_reset(s),
        forall|j: int| 0 <= j < FONT_SIZE ==> spec_reset(s).mem[j] == fontset()[j],
        spec_reset(s).wf(),
{
}

/// An instruction word outside the implemented table is reported as an
/// unimplemented-opcode error; the engine's contracts leave the state
/// untouched on every reported error.
pub proof fn lemma_unmapped_opcode(s: Chip8State, rb: u8)
    ensures
        spec_execute(s, 0xFFFF, rb) == Err::<Chip8State, Chip8Error>(
            Chip8Error::UnimplementedOpcode(0xFFFF),
        ),
{
}

} // verus!
