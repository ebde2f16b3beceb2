use agc_core::interrupts::{vector, Interrupt, InterruptController};

#[test]
fn test_interrupt_request_and_poll() {
    let mut ic = InterruptController::new();
    assert!(ic.poll().is_none());
    ic.request(Interrupt::T3Rupt);
    assert_eq!(ic.poll(), Some(Interrupt::T3Rupt));
}

#[test]
fn test_interrupt_priority() {
    let mut ic = InterruptController::new();
    ic.request(Interrupt::T3Rupt);
    ic.request(Interrupt::T6Rupt);
    assert_eq!(ic.poll(), Some(Interrupt::T6Rupt));
}

#[test]
fn test_inhibit() {
    let mut ic = InterruptController::new();
    ic.request(Interrupt::T3Rupt);
    ic.inhibit();
    assert!(ic.poll().is_none());
    ic.release();
    assert_eq!(ic.poll(), Some(Interrupt::T3Rupt));
}

#[test]
fn test_isr_blocks_nested() {
    let mut ic = InterruptController::new();
    ic.request(Interrupt::T3Rupt);
    ic.enter_isr(0, 0, 0, 0, 0);
    ic.request(Interrupt::T6Rupt);
    assert!(ic.poll().is_none());
    ic.exit_isr();
    assert_eq!(ic.poll(), Some(Interrupt::T6Rupt));
}

// ===== Further scenarios =====

#[test]
fn clear_removes_a_request() {
    let mut ic = InterruptController::new();
    ic.request(Interrupt::Rupt10);
    ic.request(Interrupt::KeyRupt1);
    ic.clear(Interrupt::KeyRupt1);
    assert_eq!(ic.poll(), Some(Interrupt::Rupt10));
    ic.clear(Interrupt::Rupt10);
    assert_eq!(ic.poll(), None);
}

#[test]
fn isr_context_round_trip() {
    let mut ic = InterruptController::new();
    ic.inhibit();
    ic.enter_isr(1, 2, 3, 4, 5);
    assert!(ic.in_isr);
    assert_eq!(ic.exit_isr(), (1, 2, 3, 4, 5));
    assert!(!ic.in_isr);
    assert!(ic.enabled);
}

#[test]
fn vector_addresses_four_words_apart() {
    let all = [
        Interrupt::T6Rupt,
        Interrupt::T5Rupt,
        Interrupt::T3Rupt,
        Interrupt::T4Rupt,
        Interrupt::KeyRupt1,
        Interrupt::KeyRupt2,
        Interrupt::UpRupt,
        Interrupt::DownRupt,
        Interrupt::RadarRupt,
        Interrupt::Rupt10,
    ];
    for (i, irq) in all.iter().enumerate() {
        assert_eq!(irq.vector_address(), vector::T6RUPT + 4 * i as u16);
        assert_eq!(irq.slot(), i);
    }
    assert_eq!(Interrupt::KeyRupt1.vector_address(), vector::KEYRUPT1);
    assert_eq!(Interrupt::Rupt10.vector_address(), vector::RUPT10);
}

#[test]
fn every_source_is_served_in_priority_order() {
    let mut ic = InterruptController::default();
    ic.request(Interrupt::DownRupt);
    ic.request(Interrupt::KeyRupt2);
    ic.request(Interrupt::RadarRupt);
    assert_eq!(ic.poll(), Some(Interrupt::KeyRupt2));
    ic.clear(Interrupt::KeyRupt2);
    assert_eq!(ic.poll(), Some(Interrupt::DownRupt));
    ic.clear(Interrupt::DownRupt);
    assert_eq!(ic.poll(), Some(Interrupt::RadarRupt));
}
