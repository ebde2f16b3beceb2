//! Interrupt vector addresses in fixed-fixed memory, four words apart.

use vstd::prelude::*;

verus! {

/// Boot / power-up / GOJAM.
pub const BOOT: u16 = 0o4000;
/// T6RUPT: DAP jet control (TIME6 overflow).
pub const T6RUPT: u16 = 0o4004;
/// T5RUPT: autopilot loop (TIME5 overflow).
pub const T5RUPT: u16 = 0o4010;
/// T3RUPT: waitlist task scheduler (TIME3 overflow).
pub const T3RUPT: u16 = 0o4014;
/// T4RUPT: DSKY display update (TIME4 overflow).
pub const T4RUPT: u16 = 0o4020;
/// KEYRUPT1: primary DSKY keyboard.
pub const KEYRUPT1: u16 = 0o4024;
/// KEYRUPT2: navigator DSKY (CM only).
pub const KEYRUPT2: u16 = 0o4030;
/// UPRUPT: ground uplink data ready.
pub const UPRUPT: u16 = 0o4034;
/// DOWNRUPT: telemetry downlink ready.
pub const DOWNRUPT: u16 = 0o4040;
/// RADARRUPT: radar data ready.
pub const RADARRUPT: u16 = 0o4044;
/// RUPT10: hand controller input.
pub const RUPT10: u16 = 0o4050;

} // verus!
