use agc_core::memory::{Memory, FIXED_BANK_SIZE, FIXED_SIZE, WORD_MASK};

#[test]
fn test_erasable_read_write() {
    let mut mem = Memory::new();
    mem.write_erasable(100, 0x1234);
    assert_eq!(mem.read_erasable(100), 0x1234);
}

#[test]
fn test_word_mask() {
    let mut mem = Memory::new();
    mem.write_erasable(50, 0xFFFF);
    assert_eq!(mem.read_erasable(50), WORD_MASK);
}

#[test]
fn test_unswitched_erasable_access() {
    let mut mem = Memory::new();
    mem.write_erasable(100, 0x2345);
    assert_eq!(mem.read(100, 0, 0, false), 0x2345);
}

#[test]
fn test_switched_erasable_bank() {
    let mut mem = Memory::new();
    mem.write_erasable(768, 0x5678);
    assert_eq!(mem.read(0o1400, 3, 0, false), 0x5678);
}

#[test]
fn test_fixed_fixed_access() {
    let mut mem = Memory::new();
    let flat = 2 * FIXED_BANK_SIZE;
    mem.fixed[flat] = 0x1111;
    assert_eq!(mem.read(0o4000, 0, 0, false), 0x1111);
}

// ===== Further scenarios =====

#[test]
fn out_of_range_addresses() {
    let mut mem = Memory::default();
    mem.write_erasable(2048, 7);
    assert_eq!(mem.read_erasable(2048), 0);
    assert_eq!(mem.read_fixed(FIXED_SIZE), 0);
}

#[test]
fn load_fixed_masks_and_drops_the_tail() {
    let mut mem = Memory::new();
    mem.load_fixed(FIXED_SIZE - 1, &[0xFFFF, 0o123]);
    assert_eq!(mem.read_fixed(FIXED_SIZE - 1), 0x7FFF);
    assert_eq!(mem.fixed[FIXED_SIZE - 1], 0x7FFF);
}

#[test]
fn fixed_fixed_second_bank() {
    let mut mem = Memory::new();
    mem.load_fixed(3 * FIXED_BANK_SIZE + 5, &[0o321]);
    assert_eq!(mem.read(0o6005, 7, 0o76000, true), 0o321);
}

#[test]
fn writes_to_fixed_are_ignored() {
    let mut mem = Memory::new();
    mem.write(0o4000, 0o1234, 0);
    mem.write(0o2000, 0o1234, 0);
    assert_eq!(mem.read(0o4000, 0, 0, false), 0);
    assert_eq!(mem.read(0o2000, 0, 0, false), 0);
}

#[test]
fn switched_write_goes_to_bank() {
    let mut mem = Memory::new();
    mem.write(0o1777, 0o4444, 7);
    assert_eq!(mem.erasable[7 * 256 + 255], 0o4444);
    assert_eq!(mem.read(0o1777, 7, 0, false), 0o4444);
    assert_eq!(mem.read(0o1777, 6, 0, false), 0);
}

#[test]
fn address_field_ignores_high_bits() {
    let mut mem = Memory::new();
    mem.write_erasable(0o100, 9);
    assert_eq!(mem.read(0o70100, 0, 0, false), 9);
}

#[test]
fn superbank_moves_only_banks_30_to_33() {
    let mut mem = Memory::new();
    mem.load_fixed(0o34 * FIXED_BANK_SIZE, &[0o55]);
    mem.load_fixed(0o43 * FIXED_BANK_SIZE, &[0o66]);
    // bank 034 stays 034 under the superbank bit
    assert_eq!(mem.read(0o2000, 0, 0o34 << 10, true), 0o55);
    assert_eq!(mem.read(0o2000, 0, 0o34 << 10, false), 0o55);
    // bank 033 becomes 043 under the superbank bit
    assert_eq!(mem.read(0o2000, 0, 0o33 << 10, true), 0o66);
    assert_eq!(mem.read(0o2000, 0, 0o33 << 10, false), 0);
}
