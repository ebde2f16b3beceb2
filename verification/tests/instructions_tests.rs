use agc_core::instructions::{
    address_field, diminished_abs, has_overflow, ones_complement_add, ones_complement_negate,
    opcode, quarter_code,
};
use agc_core::memory::{NEG_ZERO, POS_ZERO, WORD_MASK};

#[test]
fn test_ones_complement_add_positive() {
    let result = ones_complement_add(5, 3);
    assert_eq!(result & WORD_MASK, 8);
}

#[test]
fn test_ones_complement_negate() {
    let val = 0x1234;
    let neg = ones_complement_negate(val);
    let sum = ones_complement_add(val, neg) & WORD_MASK;
    assert!(sum == POS_ZERO || sum == NEG_ZERO);
}

#[test]
fn test_diminished_abs_positive() {
    assert_eq!(diminished_abs(5), 4);
}

#[test]
fn test_diminished_abs_zero() {
    assert_eq!(diminished_abs(POS_ZERO), POS_ZERO);
    assert_eq!(diminished_abs(NEG_ZERO), POS_ZERO);
}

#[test]
fn test_diminished_abs_negative() {
    let neg_5 = ones_complement_negate(5);
    assert_eq!(diminished_abs(neg_5), 4);
}

// ===== Further values =====

#[test]
fn instruction_fields() {
    assert_eq!(opcode(0o54321), 5);
    assert_eq!(quarter_code(0o54321), 2);
    assert_eq!(address_field(0o54321), 0o4321);
    assert_eq!(opcode(0o177777), 7);
    assert_eq!(address_field(0o177777), 0o7777);
}

#[test]
fn add_with_negative_operand() {
    // 0x7FFC is -3 in one's complement.
    assert_eq!(ones_complement_add(5, 0x7FFC), 2);
    assert_eq!(ones_complement_add(0x7FFC, 5), 2);
}

#[test]
fn add_end_around_carry() {
    assert_eq!(ones_complement_add(5, 0x7FFE) & WORD_MASK, 4);
    assert_eq!(ones_complement_add(0x7FFE, 0x7FFE) & WORD_MASK, 0x7FFD);
    assert_eq!(ones_complement_add(5, NEG_ZERO) & WORD_MASK, 5);
    assert!(!has_overflow(ones_complement_add(0x7FFE, 0x7FFE)));
}

#[test]
fn add_zeros() {
    assert_eq!(ones_complement_add(POS_ZERO, POS_ZERO), 0);
    assert_eq!(ones_complement_add(NEG_ZERO, NEG_ZERO) & WORD_MASK, NEG_ZERO);
    assert_eq!(ones_complement_add(POS_ZERO, NEG_ZERO) & WORD_MASK, NEG_ZERO);
}

#[test]
fn add_positive_overflow() {
    // +16383 + 1: bit 16 clear, bit 15 set.
    let r = ones_complement_add(0x3FFF, 1);
    assert!(has_overflow(r));
    assert_eq!(r, 0x4000);
}

#[test]
fn add_negative_overflow() {
    // -16383 + -16383 = -32766: bit 16 set, bit 15 clear.
    let r = ones_complement_add(0x4000, 0x4000);
    assert!(has_overflow(r));
    assert_eq!(r, 0x8001);
}

#[test]
fn add_ignores_bit_sixteen_of_operands() {
    assert_eq!(ones_complement_add(0x8005, 3), 8);
}

#[test]
fn add_negation_is_negative_zero_for_every_word() {
    for v in [0u16, 1, 0x1234, 0x3FFF, 0x4000, 0x7FFE, 0x7FFF, 0xFFFF] {
        let r = ones_complement_add(v, ones_complement_negate(v));
        assert_eq!(r & WORD_MASK, NEG_ZERO);
        assert!(!has_overflow(r));
    }
}

#[test]
fn negate_twice_gives_back_the_word() {
    for v in [0u16, 5, 0x4000, 0x7FFF, 0x8005] {
        assert_eq!(ones_complement_negate(ones_complement_negate(v)), v & WORD_MASK);
    }
}

#[test]
fn negate_values() {
    assert_eq!(ones_complement_negate(POS_ZERO), NEG_ZERO);
    assert_eq!(ones_complement_negate(NEG_ZERO), POS_ZERO);
    assert_eq!(ones_complement_negate(5), 0x7FFA);
}

#[test]
fn overflow_flag() {
    // bit 16 differs from bit 15
    assert!(has_overflow(0x8000));
    assert!(has_overflow(0x4000));
    assert!(!has_overflow(0xC000));
    assert!(!has_overflow(5));
    assert!(!has_overflow(0xFFFF));
}

#[test]
fn diminished_abs_extremes() {
    assert_eq!(diminished_abs(0x3FFF), 0x3FFE);
    assert_eq!(diminished_abs(0x4000), 0x3FFE);
    assert_eq!(diminished_abs(0x7FFE), 0);
    assert_eq!(diminished_abs(1), 0);
}
