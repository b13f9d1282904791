//! An interpreter for a small virtual machine with sixteen 8-bit registers,
//! a 16-bit address register, 4 KB of memory, a call stack of sixteen
//! return addresses, two countdown timers, a 64 by 32 monochrome display
//! and a keypad of sixteen keys.
//!
//! - [`disassembler`] turns instruction words into operations.
//! - [`display`] holds the pixel grid and draws sprites on it.
//! - [`keyboard`] holds the state of the keypad.
//! - [`machine`] says, as mathematics, what each operation, an instruction
//!   cycle and a tick of the two clocks do to the state of the machine.
//! - [`cpu`] is the machine itself, proved to do what [`machine`] says.

pub mod cpu;
pub mod disassembler;
pub mod display;
pub mod keyboard;
pub mod machine;
