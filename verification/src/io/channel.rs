//! Channel numbers of commonly used I/O channels.

use vstd::prelude::*;

verus! {

pub const L: usize = 0o001;
pub const Q: usize = 0o002;
pub const HISCALAR: usize = 0o003;
pub const LOSCALAR: usize = 0o004;
pub const PYJETS: usize = 0o005;
pub const ROLLJETS: usize = 0o006;
pub const SUPERBANK: usize = 0o007;
pub const OUT0: usize = 0o010;
pub const DSALMOUT: usize = 0o011;
pub const CHAN12: usize = 0o012;
pub const CHAN13: usize = 0o013;
pub const CHAN14: usize = 0o014;
pub const MNKEYIN: usize = 0o015;
pub const NAVKEYIN: usize = 0o016;
pub const CHAN30: usize = 0o030;
pub const CHAN31: usize = 0o031;
pub const CHAN32: usize = 0o032;
pub const CHAN33: usize = 0o033;
pub const DSKY_SIGN: usize = 0o163;

} // verus!
