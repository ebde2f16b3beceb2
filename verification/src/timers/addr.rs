//! Erasable addresses of the timer and counter registers.

use vstd::prelude::*;

verus! {

pub const TIME2: usize = 0o24;
pub const TIME1: usize = 0o25;
pub const TIME3: usize = 0o26;
pub const TIME4: usize = 0o27;
pub const TIME5: usize = 0o30;
pub const TIME6: usize = 0o31;
pub const CDUX: usize = 0o32;
pub const CDUY: usize = 0o33;
pub const CDUZ: usize = 0o34;
pub const PIPAX: usize = 0o37;
pub const PIPAY: usize = 0o40;
pub const PIPAZ: usize = 0o41;

} // verus!
