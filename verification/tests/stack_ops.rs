//! The return-address stack on its own.

use chip8_core::stack::Stack;

#[test]
fn new_stack_is_empty() {
    let s = Stack::new();
    assert_eq!(s.depth(), 0);
}

#[test]
fn push_then_pop_returns_value() {
    let mut s = Stack::new();
    s.push(0x234);
    assert_eq!(s.depth(), 1);
    assert_eq!(s.pop(), 0x234);
    assert_eq!(s.depth(), 0);
}

#[test]
fn pops_in_reverse_order_of_pushes() {
    let mut s = Stack::new();
    s.push(0x200);
    s.push(0x300);
    s.push(0x400);
    assert_eq!(s.pop(), 0x400);
    assert_eq!(s.pop(), 0x300);
    assert_eq!(s.pop(), 0x200);
}

#[test]
fn holds_sixteen_addresses() {
    let mut s = Stack::new();
    for j in 0..16u16 {
        s.push(0x200 + 2 * j);
    }
    assert_eq!(s.depth(), 16);
    for j in (0..16u16).rev() {
        assert_eq!(s.pop(), 0x200 + 2 * j);
    }
}
