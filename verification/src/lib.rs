//! Apollo Guidance Computer (Block II) hardware simulator.
//!
//! The machine has a 15-bit word (parity is not simulated), one's-complement
//! style arithmetic with two zeros, 2,048 words of erasable memory in eight
//! banks, 36,864 words of fixed memory in 36 banks, eleven interrupt vectors
//! and 512 I/O channels.
//!
//! Every part of the machine is written against a mathematical description:
//! each operation states, as a spec function, the state it leaves behind.

pub mod bits;
pub mod memory;
pub mod io;
pub mod interrupts;
pub mod timers;
pub mod cpu;
pub mod instructions;

pub use cpu::Agc;


