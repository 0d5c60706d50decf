//! A verified CHIP-8 virtual machine core.
//!
//! The crate models the machine state (memory, registers, stack, display,
//! keypad, timers) and proves the decode/execute engine against a
//! specification-level transition function.

pub mod emulator;
pub mod laws;
pub mod machine;
pub mod stack;

pub use emulator::Emulator;
pub use machine::Chip8Error;
