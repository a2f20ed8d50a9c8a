//! A CHIP-8 interpreter: memory with its font table and call stack, the I/O
//! bus (framebuffer, keypad latch, timers) and the instruction interpreter.
//! Every operation states its effect over an abstract model of the machine.
use vstd::prelude::*;

pub mod bus;
pub mod chip8;
pub mod cpu;
pub mod error;
pub mod instruction;
pub mod memory;
pub mod theorems;

pub use bus::{Bus, WINDOW_HEIGHT, WINDOW_WIDTH};
pub use chip8::Chip8;
pub use cpu::Cpu;
pub use error::Chip8Error;
pub use instruction::PcOp;
pub use memory::Memory;
