//! Timers and counters.
//!
//! - TIME1: master clock, counts every 10 ms
//! - TIME2: counts when TIME1 overflows (together a 28-bit clock)
//! - TIME3, TIME4, TIME5: 10 ms counters; overflow requests T3RUPT, T4RUPT, T5RUPT
//! - TIME6: 1/1600 s counter, when enabled; overflow requests T6RUPT and
//!   disables it
//!
//! Time is counted in machine cycle times (MCTs) of 11.72 µs.

pub mod addr;

use vstd::prelude::*;
use crate::bits::{word, lemma_u16_masks};
use crate::interrupts::Interrupt;
use crate::instructions::ones_value;

verus! {

/// One MCT in nanoseconds.
pub const MCT_NS: u64 = 11_720;

/// 10 ms in nanoseconds.
pub const TIMER_10MS_NS: u64 = 10_000_000;

/// MCTs per 10 ms tick (10,000,000 / 11,720, rounded down: 853).
pub const MCTS_PER_10MS: u64 = TIMER_10MS_NS / MCT_NS;

/// TIME6 period, 1/1600 s, in nanoseconds.
pub const TIME6_PERIOD_NS: u64 = 625_000;

/// MCTs per TIME6 tick (625,000 / 11,720, rounded down: 53).
pub const MCTS_PER_TIME6: u64 = TIME6_PERIOD_NS / MCT_NS;

/// Timer state.
#[derive(Clone)]
pub struct Timers {
    /// MCTs not yet turned into a 10 ms tick.
    pub mct_accumulator_10ms: u64,
    /// MCTs not yet turned into a TIME6 tick.
    pub mct_accumulator_t6: u64,
    /// Whether TIME6 counts.
    pub time6_enabled: bool,
    /// All MCTs so far.
    pub total_mcts: u64,
}

/// A 15-bit counter after counting once, with bit 16 reporting an overflow:
/// +16383 overflows, −0 becomes +0, any other value goes up by one.
pub open spec fn incremented(val: u16) -> u16 {
    let v = word(val);
    if v == 0x3FFF {
        0x8000
    } else if v == 0x7FFF {
        0
    } else {
        (v + 1) as u16
    }
}

/// The counter register after one count (an overflow leaves +0).
pub open spec fn counted(val: u16) -> u16 {
    word(incremented(val))
}

/// Whether one count overflows the counter.
pub open spec fn wraps(val: u16) -> bool {
    word(val) == 0x3FFF
}

/// The interrupt of a counter that overflows on this count, if it does.
pub open spec fn overflow_request(val: u16, irq: Interrupt) -> Seq<Interrupt> {
    if wraps(val) {
        seq![irq]
    } else {
        Seq::empty()
    }
}

/// Erasable memory after one 10 ms tick: TIME1, TIME3, TIME4 and TIME5
/// count, and TIME2 counts when TIME1 overflows.
pub open spec fn centisecond(e: Seq<u16>) -> Seq<u16> {
    let e1 = e.update(addr::TIME1 as int, counted(e[addr::TIME1 as int]));
    let e2 = if wraps(e[addr::TIME1 as int]) {
        e1.update(addr::TIME2 as int, counted(e[addr::TIME2 as int]))
    } else {
        e1
    };
    e2.update(addr::TIME3 as int, counted(e[addr::TIME3 as int])).update(
        addr::TIME4 as int,
        counted(e[addr::TIME4 as int]),
    ).update(addr::TIME5 as int, counted(e[addr::TIME5 as int]))
}

/// Interrupts of one 10 ms tick, in order T3RUPT, T4RUPT, T5RUPT.
pub open spec fn centisecond_requests(e: Seq<u16>) -> Seq<Interrupt> {
    overflow_request(e[addr::TIME3 as int], Interrupt::T3Rupt) + overflow_request(
        e[addr::TIME4 as int],
        Interrupt::T4Rupt,
    ) + overflow_request(e[addr::TIME5 as int], Interrupt::T5Rupt)
}

/// Erasable memory after `n` 10 ms ticks.
pub open spec fn centiseconds(e: Seq<u16>, n: nat) -> Seq<u16>
    decreases n,
{
    if n == 0 {
        e
    } else {
        centisecond(centiseconds(e, (n - 1) as nat))
    }
}

/// Interrupts of `n` 10 ms ticks, in the order they arise.
pub open spec fn centiseconds_requests(e: Seq<u16>, n: nat) -> Seq<Interrupt>
    decreases n,
{
    if n == 0 {
        Seq::empty()
    } else {
        centiseconds_requests(e, (n - 1) as nat) + centisecond_requests(
            centiseconds(e, (n - 1) as nat),
        )
    }
}

/// A counter after `n` counts.
pub open spec fn counted_times(v: u16, n: nat) -> u16
    decreases n,
{
    if n == 0 {
        v
    } else {
        counted(counted_times(v, (n - 1) as nat))
    }
}

/// Interrupts raised by `n` counts of TIME6: one T6RUPT per overflow.
pub open spec fn time6_requests(v: u16, n: nat) -> Seq<Interrupt>
    decreases n,
{
    if n == 0 {
        Seq::empty()
    } else {
        time6_requests(v, (n - 1) as nat) + overflow_request(
            counted_times(v, (n - 1) as nat),
            Interrupt::T6Rupt,
        )
    }
}

/// The 10 ms ticks keep the length of erasable memory and leave TIME6 alone.
pub proof fn lemma_centiseconds_frame(e: Seq<u16>, n: nat)
    requires
        n > 0 ==> e.len() > addr::TIME5,
    ensures
        centiseconds(e, n).len() == e.len(),
        e.len() > addr::TIME6 ==> centiseconds(e, n)[addr::TIME6 as int] == e[addr::TIME6 as int],
        forall|i: int|
            0 <= i < e.len() && (i < addr::TIME2 || i > addr::TIME5) ==> #[trigger] centiseconds(
                e,
                n,
            )[i] == e[i],
    decreases n,
{
    if n > 0 {
        lemma_centiseconds_frame(e, (n - 1) as nat);
    }
}

/// Over `n` 10 ms ticks, TIME1, TIME3, TIME4 and TIME5 each count `n`
/// times.
pub proof fn lemma_centiseconds_count(e: Seq<u16>, n: nat)
    requires
        e.len() > addr::TIME5,
    ensures
        centiseconds(e, n)[addr::TIME1 as int] == counted_times(e[addr::TIME1 as int], n),
        centiseconds(e, n)[addr::TIME3 as int] == counted_times(e[addr::TIME3 as int], n),
        centiseconds(e, n)[addr::TIME4 as int] == counted_times(e[addr::TIME4 as int], n),
        centiseconds(e, n)[addr::TIME5 as int] == counted_times(e[addr::TIME5 as int], n),
    decreases n,
{
    if n > 0 {
        lemma_centiseconds_count(e, (n - 1) as nat);
        lemma_centiseconds_frame(e, (n - 1) as nat);
    }
}

/// A counter overflows every 16384 counts from +0: after `n < 16384`
/// counts from +0 it holds `n`, and the next count that reaches 16384 wraps
/// to +0 with an overflow.
pub proof fn lemma_counter_from_zero(n: nat)
    requires
        n < 0x4000,
    ensures
        counted_times(0, n) == n,
        n == 0x3FFF ==> wraps(counted_times(0, n)) && counted(counted_times(0, n)) == 0,
    decreases n,
{
    if n > 0 {
        lemma_counter_from_zero((n - 1) as nat);
    }
}

/// Advancing the timers changes only TIME2–TIME6 and keeps the length of
/// erasable memory.
pub proof fn lemma_ticked_erasable_frame(t: Timers, mcts: u64, e: Seq<u16>)
    requires
        e.len() > addr::TIME6,
    ensures
        t.ticked_erasable(mcts, e).len() == e.len(),
        forall|i: int|
            0 <= i < e.len() && (i < addr::TIME2 || i > addr::TIME6) ==> #[trigger] t.ticked_erasable(
                mcts,
                e,
            )[i] == e[i],
{
    lemma_centiseconds_frame(e, t.centisecond_ticks(mcts));
}

/// Simulated time only moves forward: advancing by `mcts` adds exactly
/// `mcts` MCTs of time, and fresh timers start at time zero.
pub proof fn lemma_tick_advances_time(t: Timers, mcts: u64, e: Seq<u16>)
    requires
        t.can_tick(mcts),
    ensures
        t.ticked(mcts, e).total_mcts == t.total_mcts + mcts,
        t.ticked(mcts, e).total_mcts * MCT_NS == t.total_mcts * MCT_NS + mcts * MCT_NS,
        t.total_mcts * MCT_NS <= t.ticked(mcts, e).total_mcts * MCT_NS,
{
    assert((t.total_mcts + mcts) * 11720 == t.total_mcts * 11720 + mcts * 11720)
        by (nonlinear_arith);
}

/// Whether a counter starting at `v` overflows within its first `n` counts.
pub open spec fn overflows_within(v: u16, n: nat) -> bool {
    exists|j: nat| j < n && #[trigger] wraps(counted_times(v, j))
}

/// Membership in a concatenation is membership in either part.
proof fn lemma_concat_contains(a: Seq<Interrupt>, b: Seq<Interrupt>, x: Interrupt)
    ensures
        (a + b).contains(x) == (a.contains(x) || b.contains(x)),
{
    if a.contains(x) {
        let i = choose|i: int| 0 <= i < a.len() && a[i] == x;
        assert((a + b)[i] == x);
    }
    if b.contains(x) {
        let i = choose|i: int| 0 <= i < b.len() && b[i] == x;
        assert((a + b)[a.len() + i] == x);
    }
    if (a + b).contains(x) {
        let i = choose|i: int| 0 <= i < (a + b).len() && (a + b)[i] == x;
        if i < a.len() {
            assert(a[i] == x);
        } else {
            assert(b[i - a.len()] == x);
        }
    }
}

/// One 10 ms tick requests T3RUPT, T4RUPT and T5RUPT each exactly when its
/// counter overflows on that count, and requests nothing else.
pub proof fn lemma_centisecond_requests(e: Seq<u16>)
    requires
        e.len() > addr::TIME5,
    ensures
        centisecond_requests(e).contains(Interrupt::T3Rupt) == wraps(e[addr::TIME3 as int]),
        centisecond_requests(e).contains(Interrupt::T4Rupt) == wraps(e[addr::TIME4 as int]),
        centisecond_requests(e).contains(Interrupt::T5Rupt) == wraps(e[addr::TIME5 as int]),
        forall|i: int|
            0 <= i < centisecond_requests(e).len() ==> #[trigger] centisecond_requests(e)[i]
                == Interrupt::T3Rupt || centisecond_requests(e)[i] == Interrupt::T4Rupt
                || centisecond_requests(e)[i] == Interrupt::T5Rupt,
{
    let r3 = overflow_request(e[addr::TIME3 as int], Interrupt::T3Rupt);
    let r4 = overflow_request(e[addr::TIME4 as int], Interrupt::T4Rupt);
    let r5 = overflow_request(e[addr::TIME5 as int], Interrupt::T5Rupt);
    assert forall|x: Interrupt| #[trigger] r3.contains(x) == (x == Interrupt::T3Rupt && wraps(e[addr::TIME3 as int])) by {
        if r3.len() > 0 { assert(r3[0] == Interrupt::T3Rupt); }
    }
    assert forall|x: Interrupt| #[trigger] r4.contains(x) == (x == Interrupt::T4Rupt && wraps(e[addr::TIME4 as int])) by {
        if r4.len() > 0 { assert(r4[0] == Interrupt::T4Rupt); }
    }
    assert forall|x: Interrupt| #[trigger] r5.contains(x) == (x == Interrupt::T5Rupt && wraps(e[addr::TIME5 as int])) by {
        if r5.len() > 0 { assert(r5[0] == Interrupt::T5Rupt); }
    }
    lemma_concat_contains(r3, r4, Interrupt::T3Rupt);
    lemma_concat_contains(r3 + r4, r5, Interrupt::T3Rupt);
    lemma_concat_contains(r3, r4, Interrupt::T4Rupt);
    lemma_concat_contains(r3 + r4, r5, Interrupt::T4Rupt);
    lemma_concat_contains(r3, r4, Interrupt::T5Rupt);
    lemma_concat_contains(r3 + r4, r5, Interrupt::T5Rupt);
    let r = centisecond_requests(e);
    assert forall|i: int| 0 <= i < r.len() implies #[trigger] r[i] == Interrupt::T3Rupt || r[i]
        == Interrupt::T4Rupt || r[i] == Interrupt::T5Rupt by {
        assert(r.contains(r[i]));
        lemma_concat_contains(r3, r4, r[i]);
        lemma_concat_contains(r3 + r4, r5, r[i]);
    }
}

/// Over `n` 10 ms ticks, T3RUPT, T4RUPT and T5RUPT are each requested
/// exactly when their counter overflows on one of those `n` counts, and no
/// other interrupt is requested.
pub proof fn lemma_centiseconds_requests(e: Seq<u16>, n: nat)
    requires
        e.len() > addr::TIME5,
    ensures
        centiseconds_requests(e, n).contains(Interrupt::T3Rupt) == overflows_within(
            e[addr::TIME3 as int],
            n,
        ),
        centiseconds_requests(e, n).contains(Interrupt::T4Rupt) == overflows_within(
            e[addr::TIME4 as int],
            n,
        ),
        centiseconds_requests(e, n).contains(Interrupt::T5Rupt) == overflows_within(
            e[addr::TIME5 as int],
            n,
        ),
        forall|i: int|
            0 <= i < centiseconds_requests(e, n).len() ==> #[trigger] centiseconds_requests(e, n)[i]
                == Interrupt::T3Rupt || centiseconds_requests(e, n)[i] == Interrupt::T4Rupt
                || centiseconds_requests(e, n)[i] == Interrupt::T5Rupt,
    decreases n,
{
    if n > 0 {
        let m = (n - 1) as nat;
        lemma_centiseconds_requests(e, m);
        lemma_centiseconds_frame(e, m);
        lemma_centiseconds_count(e, m);
        let c = centiseconds(e, m);
        lemma_centisecond_requests(c);
        let prev = centiseconds_requests(e, m);
        let last = centisecond_requests(c);
        lemma_concat_contains(prev, last, Interrupt::T3Rupt);
        lemma_concat_contains(prev, last, Interrupt::T4Rupt);
        lemma_concat_contains(prev, last, Interrupt::T5Rupt);
        lemma_overflows_within_step(e[addr::TIME3 as int], m);
        lemma_overflows_within_step(e[addr::TIME4 as int], m);
        lemma_overflows_within_step(e[addr::TIME5 as int], m);
        let r = centiseconds_requests(e, n);
        assert forall|i: int| 0 <= i < r.len() implies #[trigger] r[i] == Interrupt::T3Rupt || r[i]
            == Interrupt::T4Rupt || r[i] == Interrupt::T5Rupt by {
            if i < prev.len() {
                assert(r[i] == prev[i]);
            } else {
                assert(r[i] == last[i - prev.len()]);
            }
        }
    }
}

/// Overflowing within `m + 1` counts is overflowing within `m` counts or on
/// count `m`.
proof fn lemma_overflows_within_step(v: u16, m: nat)
    ensures
        overflows_within(v, m + 1) == (overflows_within(v, m) || wraps(counted_times(v, m))),
{
    if overflows_within(v, m + 1) {
        let j = choose|j: nat| j < m + 1 && #[trigger] wraps(counted_times(v, j));
        if j < m {
            assert(overflows_within(v, m));
        }
    }
    if overflows_within(v, m) {
        let j = choose|j: nat| j < m && #[trigger] wraps(counted_times(v, j));
        assert(j < m + 1 && wraps(counted_times(v, j)));
    }
    if wraps(counted_times(v, m)) {
        assert(m < m + 1 && wraps(counted_times(v, m)));
    }
}

/// TIME6 requests only T6RUPT.
proof fn lemma_time6_requests_only_t6(v: u16, n: nat)
    ensures
        forall|i: int|
            0 <= i < time6_requests(v, n).len() ==> #[trigger] time6_requests(v, n)[i]
                == Interrupt::T6Rupt,
    decreases n,
{
    if n > 0 {
        lemma_time6_requests_only_t6(v, (n - 1) as nat);
    }
}

/// Advancing the timers requests T3RUPT, T4RUPT and T5RUPT each exactly
/// when their counter overflows on one of the 10 ms ticks that the advance
/// completes; T6RUPT only when TIME6 is enabled; and nothing else.
pub proof fn lemma_tick_requests(t: Timers, mcts: u64, e: Seq<u16>)
    requires
        e.len() > addr::TIME6,
    ensures
        t.ticked_requests(mcts, e).contains(Interrupt::T3Rupt) == overflows_within(
            e[addr::TIME3 as int],
            t.centisecond_ticks(mcts),
        ),
        t.ticked_requests(mcts, e).contains(Interrupt::T4Rupt) == overflows_within(
            e[addr::TIME4 as int],
            t.centisecond_ticks(mcts),
        ),
        t.ticked_requests(mcts, e).contains(Interrupt::T5Rupt) == overflows_within(
            e[addr::TIME5 as int],
            t.centisecond_ticks(mcts),
        ),
        t.ticked_requests(mcts, e).contains(Interrupt::T6Rupt) ==> t.time6_enabled,
        forall|i: int|
            0 <= i < t.ticked_requests(mcts, e).len() ==> (#[trigger] t.ticked_requests(mcts, e)[i]
                == Interrupt::T3Rupt || t.ticked_requests(mcts, e)[i] == Interrupt::T4Rupt
                || t.ticked_requests(mcts, e)[i] == Interrupt::T5Rupt
                || t.ticked_requests(mcts, e)[i] == Interrupt::T6Rupt),
{
    let n10 = t.centisecond_ticks(mcts);
    lemma_centiseconds_requests(e, n10);
    let r10 = centiseconds_requests(e, n10);
    if t.time6_enabled {
        let r6 = time6_requests(e[addr::TIME6 as int], t.time6_ticks(mcts));
        lemma_time6_requests_only_t6(e[addr::TIME6 as int], t.time6_ticks(mcts));
        lemma_concat_contains(r10, r6, Interrupt::T3Rupt);
        lemma_concat_contains(r10, r6, Interrupt::T4Rupt);
        lemma_concat_contains(r10, r6, Interrupt::T5Rupt);
        assert(!r6.contains(Interrupt::T3Rupt));
        assert(!r6.contains(Interrupt::T4Rupt));
        assert(!r6.contains(Interrupt::T5Rupt));
        let r = r10 + r6;
        assert forall|i: int| 0 <= i < r.len() implies (#[trigger] r[i] == Interrupt::T3Rupt || r[i]
            == Interrupt::T4Rupt || r[i] == Interrupt::T5Rupt || r[i] == Interrupt::T6Rupt) by {
            if i < r10.len() {
                assert(r[i] == r10[i]);
            } else {
                assert(r[i] == r6[i - r10.len()]);
            }
        }
    } else {
        if r10.contains(Interrupt::T6Rupt) {
            let i = choose|i: int| 0 <= i < r10.len() && r10[i] == Interrupt::T6Rupt;
            assert(r10[i] == Interrupt::T3Rupt || r10[i] == Interrupt::T4Rupt || r10[i] == Interrupt::T5Rupt);
        }
    }
}

/// One count adds one to the number a counter stands for, except that
/// +16383 overflows to +0 (the one case `wraps` names) and −0 becomes +0.
pub proof fn lemma_counted_value(v: u16)
    ensures
        wraps(v) == (ones_value(v) == 0x3FFF),
        wraps(v) ==> counted(v) == 0,
        word(v) == 0x7FFF ==> counted(v) == 0,
        !wraps(v) && word(v) != 0x7FFF ==> ones_value(counted(v)) == ones_value(v) + 1,
        counted(v) < 0x8000,
{
}

/// The 28-bit clock that TIME2 (high half) and TIME1 (low half) make.
pub open spec fn clock_value(e: Seq<u16>) -> int {
    e[addr::TIME2 as int] * 0x4000 + e[addr::TIME1 as int]
}

proof fn lemma_clock_step(e: Seq<u16>)
    requires
        e.len() > addr::TIME5,
        e[addr::TIME1 as int] < 0x4000,
        e[addr::TIME2 as int] < 0x4000,
    ensures
        clock_value(centisecond(e)) == (clock_value(e) + 1) % 0x1000_0000,
        centisecond(e)[addr::TIME1 as int] < 0x4000,
        centisecond(e)[addr::TIME2 as int] < 0x4000,
{
}

/// TIME2 and TIME1 together count 10 ms ticks modulo 2^28: from positive
/// halves, `n` ticks add `n` to the clock, modulo 2^28, and the halves stay
/// positive.
pub proof fn lemma_clock_counts(e: Seq<u16>, n: nat)
    requires
        e.len() > addr::TIME5,
        e[addr::TIME1 as int] < 0x4000,
        e[addr::TIME2 as int] < 0x4000,
    ensures
        clock_value(centiseconds(e, n)) == (clock_value(e) + n) % 0x1000_0000,
        centiseconds(e, n)[addr::TIME1 as int] < 0x4000,
        centiseconds(e, n)[addr::TIME2 as int] < 0x4000,
    decreases n,
{
    if n > 0 {
        let m = (n - 1) as nat;
        lemma_clock_counts(e, m);
        lemma_centiseconds_frame(e, m);
        lemma_clock_step(centiseconds(e, m));
        vstd::arithmetic::div_mod::lemma_add_mod_noop(clock_value(e) + m, 1, 0x1000_0000);
    }
}

/// TIME6 stops counting once it has requested T6RUPT: after an advance it
/// is enabled exactly when it was and no T6RUPT came of it.
pub proof fn lemma_time6_stops_after_request(t: Timers, mcts: u64, e: Seq<u16>)
    requires
        e.len() > addr::TIME6,
    ensures
        t.ticked(mcts, e).time6_enabled == (t.time6_enabled && !t.ticked_requests(
            mcts,
            e,
        ).contains(Interrupt::T6Rupt)),
{
    lemma_tick_requests(t, mcts, e);
    if t.time6_enabled {
        let n10 = t.centisecond_ticks(mcts);
        let r10 = centiseconds_requests(e, n10);
        let r6 = time6_requests(e[addr::TIME6 as int], t.time6_ticks(mcts));
        lemma_centiseconds_requests(e, n10);
        lemma_time6_requests_only_t6(e[addr::TIME6 as int], t.time6_ticks(mcts));
        lemma_concat_contains(r10, r6, Interrupt::T6Rupt);
        if r10.contains(Interrupt::T6Rupt) {
            let i = choose|i: int| 0 <= i < r10.len() && r10[i] == Interrupt::T6Rupt;
            assert(r10[i] == Interrupt::T3Rupt || r10[i] == Interrupt::T4Rupt || r10[i]
                == Interrupt::T5Rupt);
        }
        if r6.len() > 0 {
            assert(r6.contains(r6[0]));
        }
    }
}

/// No MCT is lost: what an advance does not turn into 10 ms ticks stays in
/// the accumulator, below one tick's worth; likewise for TIME6 while it is
/// enabled.
pub proof fn lemma_tick_keeps_every_mct(t: Timers, mcts: u64, e: Seq<u16>)
    requires
        t.can_tick(mcts),
    ensures
        t.ticked(mcts, e).mct_accumulator_10ms + t.centisecond_ticks(mcts) * MCTS_PER_10MS
            == t.mct_accumulator_10ms + mcts,
        t.ticked(mcts, e).mct_accumulator_10ms < MCTS_PER_10MS,
        t.time6_enabled ==> t.ticked(mcts, e).mct_accumulator_t6 + t.time6_ticks(mcts)
            * MCTS_PER_TIME6 == t.mct_accumulator_t6 + mcts,
        t.time6_enabled ==> t.ticked(mcts, e).mct_accumulator_t6 < MCTS_PER_TIME6,
{
    vstd::arithmetic::div_mod::lemma_fundamental_div_mod(t.mct_accumulator_10ms + mcts, 853);
    vstd::arithmetic::div_mod::lemma_fundamental_div_mod(t.mct_accumulator_t6 + mcts, 53);
}

impl Timers {
    /// Number of 10 ms ticks that `mcts` more MCTs complete.
    pub open spec fn centisecond_ticks(self, mcts: u64) -> nat {
        ((self.mct_accumulator_10ms + mcts) / (MCTS_PER_10MS as int)) as nat
    }

    /// Number of TIME6 ticks that `mcts` more MCTs complete (when enabled).
    pub open spec fn time6_ticks(self, mcts: u64) -> nat {
        ((self.mct_accumulator_t6 + mcts) / (MCTS_PER_TIME6 as int)) as nat
    }

    /// Whether `tick(mcts)` keeps its counters within 64 bits.
    pub open spec fn can_tick(self, mcts: u64) -> bool {
        &&& self.total_mcts + mcts <= u64::MAX
        &&& self.mct_accumulator_10ms + mcts <= u64::MAX
        &&& self.time6_enabled ==> self.mct_accumulator_t6 + mcts <= u64::MAX
    }

    /// The timer state after `mcts` more MCTs, given the erasable memory `e`
    /// that holds TIME6.
    pub open spec fn ticked(self, mcts: u64, e: Seq<u16>) -> Timers {
        let t6 = e[addr::TIME6 as int];
        Timers {
            mct_accumulator_10ms: ((self.mct_accumulator_10ms + mcts) % (MCTS_PER_10MS as int)) as u64,
            mct_accumulator_t6: if self.time6_enabled {
                ((self.mct_accumulator_t6 + mcts) % (MCTS_PER_TIME6 as int)) as u64
            } else {
                self.mct_accumulator_t6
            },
            time6_enabled: self.time6_enabled && time6_requests(t6, self.time6_ticks(mcts)).len()
                == 0,
            total_mcts: (self.total_mcts + mcts) as u64,
        }
    }

    /// Erasable memory after `mcts` more MCTs.
    pub open spec fn ticked_erasable(self, mcts: u64, e: Seq<u16>) -> Seq<u16> {
        let e10 = centiseconds(e, self.centisecond_ticks(mcts));
        if self.time6_enabled && self.time6_ticks(mcts) > 0 {
            e10.update(
                addr::TIME6 as int,
                counted_times(e[addr::TIME6 as int], self.time6_ticks(mcts)),
            )
        } else {
            e10
        }
    }

    /// Interrupts raised by `mcts` more MCTs, in the order they arise.
    pub open spec fn ticked_requests(self, mcts: u64, e: Seq<u16>) -> Seq<Interrupt> {
        let n10 = self.centisecond_ticks(mcts);
        let r10 = centiseconds_requests(e, n10);
        if self.time6_enabled {
            r10 + time6_requests(e[addr::TIME6 as int], self.time6_ticks(mcts))
        } else {
            r10
        }
    }

    /// Power-up state: nothing accumulated, TIME6 disabled, time zero.
    pub fn new() -> (t: Self)
        ensures
            t.mct_accumulator_10ms == 0,
            t.mct_accumulator_t6 == 0,
            !t.time6_enabled,
            t.total_mcts == 0,
    {
        Self { mct_accumulator_10ms: 0, mct_accumulator_t6: 0, time6_enabled: false, total_mcts: 0 }
    }

    /// Advance the timers by `mcts` MCTs, counting the timer registers in
    /// `erasable`; returns the interrupts to request, in the order they arise.
    pub fn tick(&mut self, mcts: u64, erasable: &mut [u16]) -> (irqs: Vec<Interrupt>)
        requires
            old(self).can_tick(mcts),
            old(self).centisecond_ticks(mcts) > 0 ==> old(erasable)@.len() > addr::TIME5,
            old(self).time6_enabled && old(self).time6_ticks(mcts) > 0 ==> old(erasable)@.len()
                > addr::TIME6,
        ensures
            *final(self) == old(self).ticked(mcts, old(erasable)@),
            final(erasable)@ == old(self).ticked_erasable(mcts, old(erasable)@),
            irqs@ == old(self).ticked_requests(mcts, old(erasable)@),
    {
        let ghost e0 = erasable@;
        let ghost t0 = *self;
        assert(MCTS_PER_10MS == 853 && MCTS_PER_TIME6 == 53);
        let mut interrupts: Vec<Interrupt> = Vec::new();
        self.total_mcts += mcts;
        self.mct_accumulator_10ms += mcts;
        let ghost mut k: nat = 0;
        while self.mct_accumulator_10ms >= MCTS_PER_10MS
            invariant
                MCTS_PER_10MS == 853,
                t0.centisecond_ticks(mcts) > 0 ==> e0.len() > addr::TIME5,
                erasable@.len() == e0.len(),
                self.mct_accumulator_10ms + k * 853 == t0.mct_accumulator_10ms + mcts,
                erasable@ == centiseconds(e0, k),
                interrupts@ == centiseconds_requests(e0, k),
                self.total_mcts == t0.total_mcts + mcts,
                self.mct_accumulator_t6 == t0.mct_accumulator_t6,
                self.time6_enabled == t0.time6_enabled,
            decreases self.mct_accumulator_10ms,
        {
            proof {
                vstd::arithmetic::div_mod::lemma_div_is_ordered(
                    853,
                    t0.mct_accumulator_10ms + mcts,
                    853,
                );
            }
            self.mct_accumulator_10ms -= MCTS_PER_10MS;
            let ghost before = erasable@;
            let ghost irqs_before = interrupts@;
            if count_once(erasable, addr::TIME1) {
                count_once(erasable, addr::TIME2);
            }
            if count_once(erasable, addr::TIME3) {
                interrupts.push(Interrupt::T3Rupt);
            }
            if count_once(erasable, addr::TIME4) {
                interrupts.push(Interrupt::T4Rupt);
            }
            if count_once(erasable, addr::TIME5) {
                interrupts.push(Interrupt::T5Rupt);
            }
            proof {
                assert(erasable@ =~= centisecond(before));
                assert(interrupts@ =~= irqs_before + centisecond_requests(before));
                k = k + 1;
            }
        }
        proof {
            if k > 0 {
                vstd::arithmetic::div_mod::lemma_div_is_ordered(
                    853,
                    t0.mct_accumulator_10ms + mcts,
                    853,
                );
            }
            lemma_centiseconds_frame(e0, k);
            vstd::arithmetic::div_mod::lemma_fundamental_div_mod_converse(
                t0.mct_accumulator_10ms + mcts,
                853,
                k as int,
                self.mct_accumulator_10ms as int,
            );
        }
        let ghost acc10 = self.mct_accumulator_10ms;
        if self.time6_enabled {
            self.mct_accumulator_t6 += mcts;
            let ghost e10 = erasable@;
            let ghost r10 = interrupts@;
            let ghost mut j: nat = 0;
            while self.mct_accumulator_t6 >= MCTS_PER_TIME6
                invariant
                    MCTS_PER_TIME6 == 53,
                    t0.time6_enabled,
                    t0.time6_ticks(mcts) > 0 ==> e10.len() > addr::TIME6,
                    erasable@.len() == e10.len(),
                    self.mct_accumulator_t6 + j * 53 == t0.mct_accumulator_t6 + mcts,
                    erasable@ == if j == 0 {
                        e10
                    } else {
                        e10.update(addr::TIME6 as int, counted_times(e10[addr::TIME6 as int], j))
                    },
                    interrupts@ == r10 + time6_requests(e10[addr::TIME6 as int], j),
                    self.time6_enabled == (time6_requests(e10[addr::TIME6 as int], j).len() == 0),
                    self.total_mcts == t0.total_mcts + mcts,
                    self.mct_accumulator_10ms == acc10,
                decreases self.mct_accumulator_t6,
            {
                proof {
                    vstd::arithmetic::div_mod::lemma_div_is_ordered(
                        53,
                        t0.mct_accumulator_t6 + mcts,
                        53,
                    );
                }
                self.mct_accumulator_t6 -= MCTS_PER_TIME6;
                let ghost irqs_before = interrupts@;
                if count_once(erasable, addr::TIME6) {
                    self.time6_enabled = false;
                    interrupts.push(Interrupt::T6Rupt);
                }
                proof {
                    assert(erasable@ =~= e10.update(
                        addr::TIME6 as int,
                        counted_times(e10[addr::TIME6 as int], j + 1),
                    ));
                    assert(interrupts@ =~= r10 + time6_requests(e10[addr::TIME6 as int], j + 1));
                    j = j + 1;
                }
            }
            proof {
                vstd::arithmetic::div_mod::lemma_fundamental_div_mod_converse(
                    t0.mct_accumulator_t6 + mcts,
                    53,
                    j as int,
                    self.mct_accumulator_t6 as int,
                );
                assert(time6_requests(e10[addr::TIME6 as int], 0) =~= Seq::<Interrupt>::empty());
            }
        }
        interrupts
    }

    /// Elapsed simulated time in nanoseconds.
    pub fn elapsed_ns(&self) -> (r: u64)
        requires
            self.total_mcts * MCT_NS <= u64::MAX,
        ensures
            r == self.total_mcts * MCT_NS,
    {
        self.total_mcts * MCT_NS
    }
}

/// Count the counter register at `i` once, storing +0 on an overflow;
/// returns whether it overflowed.
fn count_once(erasable: &mut [u16], i: usize) -> (wrapped: bool)
    requires
        i < old(erasable)@.len(),
    ensures
        final(erasable)@ == old(erasable)@.update(i as int, counted(old(erasable)@[i as int])),
        wrapped == wraps(old(erasable)@[i as int]),
{
    proof {
        lemma_u16_masks();
    }
    let t = increment_ones_complement(erasable[i]);
    if is_overflow(t) {
        erasable[i] = 0;
        true
    } else {
        erasable[i] = t & 0x7FFF;
        false
    }
}

/// Count a 15-bit one's-complement counter once; bit 16 of the result
/// reports an overflow.
pub fn increment_ones_complement(val: u16) -> (r: u16)
    ensures
        r == incremented(val),
{
    proof {
        lemma_u16_masks();
    }
    let v = val & 0x7FFF;
    if v == 0x3FFF {
        0x8000
    } else if v == 0x7FFF {
        0x0000
    } else if v & 0x4000 != 0 {
        (v + 1) & 0x7FFF
    } else {
        v + 1
    }
}

/// Whether bit 16 (overflow) is set.
pub fn is_overflow(val: u16) -> (r: bool)
    ensures
        r == (val >= 0x8000),
{
    proof {
        lemma_u16_masks();
    }
    (val & 0x8000) != 0
}

impl Default for Timers {
    fn default() -> (t: Self)
        ensures
            t.mct_accumulator_10ms == 0,
            t.mct_accumulator_t6 == 0,
            !t.time6_enabled,
            t.total_mcts == 0,
    {
        Self::new()
    }
}

} // verus!
