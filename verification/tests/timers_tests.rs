use agc_core::interrupts::Interrupt;
use agc_core::timers::{addr, increment_ones_complement, is_overflow, Timers, MCTS_PER_10MS, MCTS_PER_TIME6, MCT_NS};

#[test]
fn test_increment_positive() {
    assert_eq!(increment_ones_complement(0x0005), 0x0006);
}

#[test]
fn test_increment_neg_zero() {
    assert_eq!(increment_ones_complement(0x7FFF), 0x0000);
}

#[test]
fn test_increment_positive_max_overflow() {
    assert!(is_overflow(increment_ones_complement(0x3FFF)));
}

#[test]
fn test_timer_tick() {
    let mut timers = Timers::new();
    let mut erasable = [0u16; 2048];
    erasable[addr::TIME1] = 0x0000;
    erasable[addr::TIME3] = 0x0000;

    let interrupts = timers.tick(MCTS_PER_10MS, &mut erasable);

    assert_eq!(erasable[addr::TIME1], 0x0001);
    assert!(interrupts.iter().all(|i| *i != Interrupt::T3Rupt));
}

// ===== Further scenarios =====

#[test]
fn tick_periods() {
    assert_eq!(MCTS_PER_10MS, 853);
    assert_eq!(MCTS_PER_TIME6, 53);
}

#[test]
fn increment_negative() {
    assert_eq!(increment_ones_complement(0x7FFA), 0x7FFB);
    assert_eq!(increment_ones_complement(0x4000), 0x4001);
    assert_eq!(increment_ones_complement(0x3FFF), 0x8000);
}

#[test]
fn time1_overflow_counts_time2() {
    let mut timers = Timers::new();
    let mut erasable = [0u16; 2048];
    erasable[addr::TIME1] = 0x3FFF;
    erasable[addr::TIME2] = 7;
    let irqs = timers.tick(MCTS_PER_10MS, &mut erasable);
    assert_eq!(erasable[addr::TIME1], 0);
    assert_eq!(erasable[addr::TIME2], 8);
    assert!(irqs.is_empty());
}

#[test]
fn counter_overflows_request_interrupts_in_order() {
    let mut timers = Timers::new();
    let mut erasable = [0u16; 2048];
    erasable[addr::TIME3] = 0x3FFF;
    erasable[addr::TIME5] = 0x3FFF;
    let irqs = timers.tick(2 * MCTS_PER_10MS + 100, &mut erasable);
    assert_eq!(irqs, vec![Interrupt::T3Rupt, Interrupt::T5Rupt]);
    assert_eq!(erasable[addr::TIME3], 1);
    assert_eq!(erasable[addr::TIME4], 2);
    assert_eq!(erasable[addr::TIME5], 1);
    assert_eq!(erasable[addr::TIME1], 2);
    assert_eq!(timers.mct_accumulator_10ms, 100);
    assert_eq!(timers.total_mcts, 2 * MCTS_PER_10MS + 100);
}

#[test]
fn time6_counts_only_when_enabled_and_disables_itself() {
    let mut timers = Timers::new();
    let mut erasable = [0u16; 2048];
    erasable[addr::TIME6] = 0x3FFE;
    let irqs = timers.tick(3 * MCTS_PER_TIME6, &mut erasable);
    assert!(irqs.is_empty());
    assert_eq!(erasable[addr::TIME6], 0x3FFE);
    assert_eq!(timers.mct_accumulator_t6, 0);

    timers.time6_enabled = true;
    let irqs = timers.tick(3 * MCTS_PER_TIME6, &mut erasable);
    assert_eq!(irqs, vec![Interrupt::T6Rupt]);
    assert!(!timers.time6_enabled);
    // 3FFE -> 3FFF -> overflow (+0) -> 1
    assert_eq!(erasable[addr::TIME6], 1);
}

#[test]
fn elapsed_time() {
    let mut timers = Timers::default();
    let mut erasable = [0u16; 64];
    timers.tick(10, &mut erasable);
    assert_eq!(timers.elapsed_ns(), 10 * MCT_NS);
}

#[test]
fn tick_without_a_period_touches_no_register() {
    let mut timers = Timers::new();
    let mut short = [0u16; 3];
    let irqs = timers.tick(MCTS_PER_10MS - 1, &mut short);
    assert!(irqs.is_empty());
    assert_eq!(short, [0, 0, 0]);
    assert_eq!(timers.mct_accumulator_10ms, MCTS_PER_10MS - 1);
}
