//! Erasable addresses of the central and editing registers.

use vstd::prelude::*;

verus! {

/// Accumulator.
pub const A: usize = 0o00;
/// Lower product register.
pub const L: usize = 0o01;
/// Return address register.
pub const Q: usize = 0o02;
/// Erasable bank register.
pub const EB: usize = 0o03;
/// Fixed bank register.
pub const FB: usize = 0o04;
/// Program counter: address of the next instruction.
pub const Z: usize = 0o05;
/// Both-banks register.
pub const BB: usize = 0o06;
/// Hardwired zero.
pub const ZERO: usize = 0o07;
/// Cycle right.
pub const CYR: usize = 0o20;
/// Shift right.
pub const SR: usize = 0o21;
/// Cycle left.
pub const CYL: usize = 0o22;
/// Edit operator.
pub const EDOP: usize = 0o23;

} // verus!
