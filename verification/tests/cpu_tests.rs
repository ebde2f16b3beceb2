use agc_core::cpu::reg;
use agc_core::memory::{NEG_ZERO, POS_ZERO};
use agc_core::Agc;

#[test]
fn test_new_agc() {
    let agc = Agc::new();
    assert_eq!(agc.reg_a(), POS_ZERO);
    assert_eq!(agc.reg_z(), 0);
    assert!(!agc.running);
}

#[test]
fn test_register_read_write() {
    let mut agc = Agc::new();
    agc.set_reg_a(0x1234);
    assert_eq!(agc.reg_a(), 0x1234);

    agc.set_reg_l(0x5678);
    assert_eq!(agc.reg_l(), 0x5678);
}

#[test]
fn test_zero_register() {
    let agc = Agc::new();
    assert_eq!(agc.read_mem(0o07), POS_ZERO);
}

#[test]
fn test_editing_cyr() {
    let mut agc = Agc::new();
    agc.memory.erasable[reg::CYR] = 0b10101010101010;
    let result = agc.editing_cyr();
    assert_eq!(result, 0b01010101010101);
}

#[test]
fn test_editing_edop() {
    let mut agc = Agc::new();
    agc.memory.erasable[reg::EDOP] = 0b011111110000000;
    let result = agc.editing_edop();
    assert_eq!(result, 0b1111111);
}

#[test]
fn test_simple_program() {
    let mut agc = Agc::new();
    let program: Vec<u16> = vec![
        0o30007, // CA 07 (load from ZERO register)
        0o60007, // AD 07 (add ZERO)
    ];

    agc.load_program(2, &program);
    agc.set_pc(0o4000);
    agc.start();

    agc.step();
    assert_eq!(agc.reg_a(), POS_ZERO);

    agc.step();
    assert_eq!(agc.reg_a(), POS_ZERO);
}

#[test]
fn test_tc_and_return() {
    let mut agc = Agc::new();
    let program: Vec<u16> = vec![
        0o00000 | 0o4002, // TC 4002
        0o30007,          // CA 07 (return target)
        0o30007,          // CA 07 (subroutine body)
    ];

    agc.load_program(2, &program);
    agc.set_pc(0o4000);
    agc.start();

    agc.step();
    assert_eq!(agc.reg_z(), 0o4002);
    assert_eq!(agc.reg_q(), 0o4001);
}

#[test]
fn test_snapshot() {
    let agc = Agc::new();
    let snap = agc.snapshot();
    assert_eq!(snap.a, POS_ZERO);
    assert!(!snap.running);
}

// ===== Further scenarios =====

fn booted(program: &[u16]) -> Agc {
    let mut agc = Agc::new();
    agc.load_program(2, program);
    agc.set_pc(0o4000);
    agc.start();
    agc
}

#[test]
fn stopped_cpu_does_nothing() {
    let mut agc = Agc::new();
    agc.load_program(2, &[0o30007]);
    agc.set_pc(0o4000);
    assert_eq!(agc.step(), 0);
    assert_eq!(agc.reg_z(), 0o4000);
    assert_eq!(agc.instruction_count, 0);
}

#[test]
fn step_counts_instructions_and_time() {
    let mut agc = booted(&[0o30007, 0o30007]);
    assert_eq!(agc.step(), 2);
    assert_eq!(agc.instruction_count, 1);
    assert_eq!(agc.timers.total_mcts, 2);
    assert_eq!(agc.reg_z(), 0o4001);
}

#[test]
fn zero_register_cannot_be_written() {
    let mut agc = Agc::new();
    agc.write_mem(0o07, 0o12345);
    assert_eq!(agc.read_mem(0o07), POS_ZERO);
}

#[test]
fn read_after_write_plain_erasable() {
    let mut agc = Agc::new();
    agc.write_mem(0o100, 0xFFFF);
    assert_eq!(agc.read_mem(0o100), 0x7FFF);
    assert_eq!(agc.memory.erasable[0o100], 0x7FFF);
}

#[test]
fn switched_erasable_follows_eb() {
    let mut agc = Agc::new();
    agc.set_reg_eb(5);
    agc.write_mem(0o1400, 0o4321);
    assert_eq!(agc.memory.erasable[5 * 256], 0o4321);
    assert_eq!(agc.read_mem(0o1400), 0o4321);
    agc.set_reg_eb(4);
    assert_eq!(agc.read_mem(0o1400), 0);
}

#[test]
fn fixed_memory_is_read_only() {
    let mut agc = booted(&[0o12345]);
    agc.write_mem(0o4000, 0o7777);
    assert_eq!(agc.read_mem(0o4000), 0o12345);
}

#[test]
fn bank_registers_stay_in_step() {
    let mut agc = Agc::new();
    agc.set_reg_eb(0o13);
    assert_eq!(agc.reg_eb(), 3);
    agc.set_reg_fb(0o76543);
    assert_eq!(agc.reg_fb(), 0o76543 & 0x7FFF);
    assert_eq!(agc.reg_bb(), (0o76543 & 0x7C00) | 3);
    agc.set_reg_bb(0o42006);
    assert_eq!(agc.reg_eb(), 6);
    assert_eq!(agc.reg_fb(), 0o42006 & 0x7C00);
    assert_eq!(agc.reg_bb(), 0o42006 & 0x7FFF);
}

#[test]
fn bb_write_through_memory_map() {
    let mut agc = Agc::new();
    agc.write_mem(0o06, 0o12003);
    assert_eq!(agc.reg_eb(), 3);
    assert_eq!(agc.reg_fb(), 0o12000 & 0x7C00);
}

#[test]
fn common_fixed_follows_fb() {
    let mut agc = Agc::new();
    agc.load_program(7, &[0o1111]);
    agc.set_reg_fb(7 << 10);
    assert_eq!(agc.read_mem(0o2000), 0o1111);
}

#[test]
fn superbank_moves_banks_30_to_40() {
    let mut agc = Agc::new();
    agc.load_program(0o40, &[0o2222]);
    agc.set_reg_fb(0o30 << 10);
    assert_eq!(agc.read_mem(0o2000), 0);
    agc.io.write(0o07, 0o100);
    assert_eq!(agc.read_mem(0o2000), 0o2222);
}

#[test]
fn editing_registers_transform_on_read() {
    let mut agc = Agc::new();
    agc.write_mem(0o20, 0b000000000000011);
    assert_eq!(agc.read_mem(0o20), 0b100000000000001);
    agc.write_mem(0o21, 0b100000000000010);
    assert_eq!(agc.read_mem(0o21), 0b110000000000001);
    agc.write_mem(0o22, 0b100000000000010);
    assert_eq!(agc.read_mem(0o22), 0b000000000000101);
    agc.write_mem(0o23, 0b111111110000000);
    assert_eq!(agc.read_mem(0o23), 0b1111111);
    assert_eq!(agc.editing_sr(), 0b110000000000001);
    assert_eq!(agc.editing_cyl(), 0b000000000000101);
}

#[test]
fn cycles_undo_each_other() {
    let mut agc = Agc::new();
    agc.memory.erasable[reg::CYR] = 0o52525;
    let right = agc.editing_cyr();
    agc.memory.erasable[reg::CYL] = right;
    assert_eq!(agc.editing_cyl(), 0o52525);
}

#[test]
fn z_register_keeps_twelve_bits() {
    let mut agc = Agc::new();
    agc.set_reg_z(0o17777);
    assert_eq!(agc.reg_z(), 0o7777);
    assert_eq!(agc.pc(), 0o7777);
}

#[test]
fn accumulator_overflow_bit() {
    let mut agc = Agc::new();
    agc.set_reg_a_with_overflow(0x8005);
    assert!(agc.a_overflow);
    assert_eq!(agc.reg_a(), 5);
    assert_eq!(agc.reg_a_with_overflow(), 0x8005);
    agc.set_reg_a(5);
    assert!(!agc.a_overflow);
    assert_eq!(agc.reg_a_with_overflow(), 5);
    agc.set_reg_a_with_overflow(0xC000);
    assert!(agc.a_overflow);
    assert_eq!(agc.reg_a(), 0x4000);
    assert_eq!(agc.reg_a_with_overflow(), 0xC000);
    agc.set_reg_a(0x4000);
    assert!(!agc.a_overflow);
    assert_eq!(agc.reg_a_with_overflow(), 0x4000);
}

#[test]
fn add_without_overflow_leaves_the_flag_clear() {
    // CA 100; AD 101: -3 + -4 = -7, no overflow
    let mut agc = booted(&[0o30100, 0o60101]);
    agc.memory.erasable[0o100] = 0x7FFC;
    agc.memory.erasable[0o101] = 0x7FFB;
    agc.step();
    agc.step();
    assert_eq!(agc.reg_a(), 0x7FF8);
    assert!(!agc.a_overflow);
    assert_eq!(agc.reg_a_with_overflow(), 0x7FF8);
}

#[test]
fn ccs_four_way_branch() {
    // CCS 100 at 4000, the value in erasable 100 decides the skip.
    for (value, skip, a) in [(5u16, 0u16, 4u16), (0, 1, 0), (0o77772, 2, 4), (NEG_ZERO, 3, 0)] {
        let mut agc = booted(&[0o10100]);
        agc.memory.erasable[0o100] = value;
        assert_eq!(agc.step(), 2);
        assert_eq!(agc.reg_z(), 0o4001 + skip);
        assert_eq!(agc.reg_a(), a);
    }
}

#[test]
fn ts_stores_a() {
    // TS 100 (54KKK)
    let mut agc = booted(&[0o54100]);
    agc.set_reg_a(0o1234);
    assert_eq!(agc.step(), 2);
    assert_eq!(agc.read_mem(0o100), 0o1234);
    assert_eq!(agc.reg_a(), 0o1234);
    assert_eq!(agc.reg_z(), 0o4001);
}

#[test]
fn ts_overflow_skips() {
    // CA 102; AD 103 (+16383 + 1 overflows positively); TS 100
    let mut agc = booted(&[0o30102, 0o60103, 0o54100]);
    agc.memory.erasable[0o102] = 0x3FFF;
    agc.memory.erasable[0o103] = 1;
    agc.step();
    agc.step();
    assert!(agc.a_overflow);
    assert_eq!(agc.reg_a_with_overflow(), 0x8000 | 0x4000);
    agc.step();
    assert_eq!(agc.reg_a(), 1);
    assert!(!agc.a_overflow);
    assert_eq!(agc.reg_z(), 0o4004);
    // the sign-corrected word of +16384 is +0
    assert_eq!(agc.memory.erasable[0o100], 0);

    // negative overflow: -16383 + -1
    let mut agc = booted(&[0o30102, 0o60103, 0o54100]);
    agc.memory.erasable[0o102] = 0x4000;
    agc.memory.erasable[0o103] = 0x7FFE;
    agc.step();
    agc.step();
    assert!(agc.a_overflow);
    agc.step();
    assert_eq!(agc.reg_a(), NEG_ZERO - 1);
    assert_eq!(agc.reg_z(), 0o4004);
    // the sign-corrected word of -16384 is -0
    assert_eq!(agc.memory.erasable[0o100], NEG_ZERO);
}

#[test]
fn lxch_swaps_l_with_memory() {
    // LXCH 100 (22KKK)
    let mut agc = booted(&[0o22100]);
    agc.set_reg_l(0o321);
    agc.memory.erasable[0o100] = 0o654;
    agc.step();
    assert_eq!(agc.reg_l(), 0o654);
    assert_eq!(agc.memory.erasable[0o100], 0o321);
}

#[test]
fn incr_adds_one() {
    // INCR 100 (24KKK)
    let mut agc = booted(&[0o24100]);
    agc.write_mem(0o100, 5);
    agc.set_reg_a(0o1234);
    assert_eq!(agc.step(), 2);
    assert_eq!(agc.read_mem(0o100), 6);
    assert_eq!(agc.reg_a(), 0o1234);
}

#[test]
fn ads_adds_to_storage() {
    // ADS 100 (26KKK)
    let mut agc = booted(&[0o26100]);
    agc.memory.erasable[0o100] = 4;
    agc.set_reg_a(3);
    agc.step();
    assert_eq!(agc.memory.erasable[0o100], 7);
    assert_eq!(agc.reg_a(), 7);
}

#[test]
fn xch_and_dxch_swap() {
    // XCH 100 (56KKK); DXCH 102 (52KKK)
    let mut agc = booted(&[0o56100, 0o52102]);
    agc.memory.erasable[0o100] = 0o11;
    agc.memory.erasable[0o102] = 0o22;
    agc.memory.erasable[0o103] = 0o33;
    agc.set_reg_a(0o44);
    agc.step();
    assert_eq!(agc.reg_a(), 0o11);
    assert_eq!(agc.memory.erasable[0o100], 0o44);
    agc.set_reg_l(0o55);
    assert_eq!(agc.step(), 3);
    assert_eq!(agc.reg_a(), 0o22);
    assert_eq!(agc.reg_l(), 0o33);
    assert_eq!(agc.memory.erasable[0o102], 0o11);
    assert_eq!(agc.memory.erasable[0o103], 0o55);
}

#[test]
fn das_carries_low_overflow() {
    // DAS 100 (20KKK): (1, 16383) + (2, 1) = (4, 0)
    let mut agc = booted(&[0o20100]);
    agc.set_reg_a(1);
    agc.set_reg_l(0x3FFF);
    agc.memory.erasable[0o100] = 2;
    agc.memory.erasable[0o101] = 1;
    assert_eq!(agc.step(), 3);
    assert_eq!(agc.memory.erasable[0o100], 4);
    assert_eq!(agc.memory.erasable[0o101], 0);
    assert_eq!(agc.reg_a(), 0);
    assert_eq!(agc.reg_l(), 0);
}

#[test]
fn das_carries_negative_low_overflow() {
    // (5, -16383) + (0, -1) = (4, -0)
    let mut agc = booted(&[0o20100]);
    agc.set_reg_a(5);
    agc.set_reg_l(0x4000);
    agc.memory.erasable[0o101] = 0x7FFE;
    agc.step();
    assert_eq!(agc.memory.erasable[0o100], 4);
    assert_eq!(agc.memory.erasable[0o101], NEG_ZERO);
}

#[test]
fn add_program_sums_two_numbers() {
    // CA 100; AD 101; TS 102
    let mut agc = booted(&[0o30100, 0o60101, 0o54102]);
    agc.memory.erasable[0o100] = 25;
    agc.memory.erasable[0o101] = 37;
    agc.step();
    agc.step();
    agc.step();
    assert_eq!(agc.memory.erasable[0o102], 62);
    assert!(!agc.a_overflow);
}

#[test]
fn add_negative_operands() {
    // CA 100; AD 101: -1 + 5 = 4, then AD 102: 4 + -0 = 4
    let mut agc = booted(&[0o30100, 0o60101, 0o60102]);
    agc.memory.erasable[0o100] = 0x7FFE;
    agc.memory.erasable[0o101] = 5;
    agc.memory.erasable[0o102] = NEG_ZERO;
    agc.step();
    agc.step();
    assert_eq!(agc.reg_a(), 4);
    agc.step();
    assert_eq!(agc.reg_a(), 4);
    assert!(!agc.a_overflow);
}

#[test]
fn subtract_and_modular_subtract() {
    // EXTEND; SU 100 (6KKKK); EXTEND; MSU 101 (20KKK)
    let mut agc = booted(&[0o00006, 0o60100, 0o00006, 0o20101]);
    agc.set_reg_a(10);
    agc.memory.erasable[0o100] = 3;
    agc.memory.erasable[0o101] = 12;
    agc.step();
    agc.step();
    assert_eq!(agc.reg_a(), 7);
    agc.step();
    agc.step();
    // 7 - 12 = -5 in two's complement (0x7FFB), -5 in one's complement is 0x7FFA
    assert_eq!(agc.reg_a(), 0x7FFA);
}

#[test]
fn extend_prefix_selects_extracode() {
    // EXTEND; MP 100
    let mut agc = booted(&[0o00006, 0o70100]);
    agc.set_reg_a(3);
    agc.memory.erasable[0o100] = 5;
    assert_eq!(agc.step(), 1);
    assert!(agc.extend);
    assert_eq!(agc.instruction_count, 0);
    assert_eq!(agc.step(), 2);
    assert!(!agc.extend);
}

#[test]
fn multiply_extracode() {
    // EXTEND; MP 4002 (opcode 5, quarter code 2; extracodes take the
    // 12-bit field); the operand 4 at 4002
    let mut agc = booted(&[0o00006, 0o54002, 4]);
    agc.set_reg_a(0o40000 >> 1); // 0o20000 = 8192
    agc.step();
    assert_eq!(agc.step(), 3);
    // 8192 * 4 = 32768 = 2 << 14
    assert_eq!(agc.reg_a(), 2);
    assert_eq!(agc.reg_l(), 0);
}

#[test]
fn multiply_negative() {
    let mut agc = booted(&[0o00006, 0o54002, 5]);
    agc.set_reg_a(0x7FFF - 3); // -3
    agc.step();
    agc.step();
    assert_eq!(agc.reg_a(), 0);
    assert_eq!(agc.reg_l(), 0x7FFF - 15);
}

#[test]
fn divide_extracode() {
    // EXTEND; DV 100 (op 1, quarter 0)
    let mut agc = booted(&[0o00006, 0o10100]);
    agc.set_reg_a(0);
    agc.set_reg_l(100);
    agc.memory.erasable[0o100] = 7;
    agc.step();
    assert_eq!(agc.step(), 6);
    assert_eq!(agc.reg_a(), 14);
    assert_eq!(agc.reg_l(), 2);
}

#[test]
fn divide_by_zero() {
    let mut agc = booted(&[0o00006, 0o10100]);
    agc.set_reg_a(5);
    agc.step();
    agc.step();
    assert_eq!(agc.reg_a(), 0x3FFF);
    assert_eq!(agc.reg_l(), 0);
}

#[test]
fn bzf_branches_on_zero() {
    // EXTEND; BZF 2010 (opcode 1, quarter code 1)
    let mut agc = booted(&[0o00006, 0o12010]);
    agc.step();
    agc.step();
    assert_eq!(agc.reg_z(), 0o2010);
    let mut agc = booted(&[0o00006, 0o12010]);
    agc.set_reg_a(1);
    agc.step();
    agc.step();
    assert_eq!(agc.reg_z(), 0o4002);
}

#[test]
fn read_extracode_reads_channel() {
    // EXTEND; READ 30
    let mut agc = booted(&[0o00006, 0o00030]);
    agc.step();
    assert_eq!(agc.step(), 2);
    assert_eq!(agc.reg_a(), 0o37777);
}

#[test]
fn index_modifies_next_instruction() {
    // INDEX 100; CA 200 -> CA 201
    let mut agc = booted(&[0o50100, 0o30200]);
    agc.memory.erasable[0o100] = 1;
    agc.memory.erasable[0o201] = 0o777;
    agc.step();
    assert_eq!(agc.index_value, Some(1));
    agc.step();
    assert_eq!(agc.reg_a(), 0o777);
    assert_eq!(agc.index_value, None);
}

#[test]
fn inhint_and_relint() {
    let mut agc = booted(&[0o50017, 0o50016]);
    agc.step();
    assert!(!agc.interrupts.enabled);
    agc.step();
    assert!(agc.interrupts.enabled);
}

#[test]
fn interrupt_and_resume_round_trip() {
    let mut agc = Agc::new();
    // T3RUPT vector at 4014: RESUME (INDEX 25)
    let mut program = vec![0o30007u16; 16];
    program[0o14] = 0o50025;
    agc.load_program(2, &program);
    agc.set_pc(0o4002);
    agc.set_reg_a(0o111);
    agc.set_reg_l(0o222);
    agc.start();
    agc.interrupts.request(agc_core::interrupts::Interrupt::T3Rupt);
    agc.step();
    assert_eq!(agc.interrupts.zrupt, 0o4002);
    assert_eq!(agc.interrupts.arupt, 0o111);
    assert_eq!(agc.reg_z(), 0o4002);
    assert_eq!(agc.reg_a(), 0o111);
    assert_eq!(agc.reg_l(), 0o222);
    assert!(!agc.interrupts.in_isr);
    assert!(agc.interrupts.enabled);
}

#[test]
fn key_press_raises_keyrupt() {
    let mut agc = booted(&[0o30007, 0o30007]);
    agc.interrupts.inhibit();
    agc.dsky_key_press(0o47);
    assert_eq!(agc.pending_key, Some(0o07));
    agc.step();
    assert_eq!(agc.io.read(0o15), 0o07);
    assert!(agc.interrupts.pending[4]);
    assert_eq!(agc.pending_key, None);
}

#[test]
fn gojam_resets_to_boot() {
    let mut agc = booted(&[0o30007]);
    agc.index_value = Some(3);
    agc.extend = true;
    agc.gojam();
    assert!(agc.gojam);
    assert!(!agc.extend);
    assert_eq!(agc.index_value, None);
    assert!(!agc.interrupts.enabled);
    assert_eq!(agc.reg_z(), 0o4000);
}

#[test]
fn run_mcts_spends_its_budget() {
    // TC 4000 forever: one MCT each
    let mut agc = booted(&[0o04000]);
    assert_eq!(agc.run_mcts(10), 10);
    assert_eq!(agc.instruction_count, 10);
    // CA 07 forever is two MCTs each; the budget may be overshot.
    let mut agc = booted(&[0o30007; 8]);
    assert_eq!(agc.run_mcts(5), 6);
    let mut agc = Agc::new();
    assert_eq!(agc.run_mcts(100), 0);
}

#[test]
fn timers_count_while_running() {
    let mut agc = booted(&[0o04000]);
    agc.run_mcts(853);
    assert_eq!(agc.memory.erasable[0o25], 1);
    assert_eq!(agc.memory.erasable[0o26], 1);
}

#[test]
fn read_mem_range_reads_consecutive_words() {
    let agc = booted(&[1, 2, 3, 4]);
    assert_eq!(agc.read_mem_range(0o4001, 3), vec![2, 3, 4]);
    assert_eq!(agc.read_mem_range(0o4000, 0), Vec::<u16>::new());
}

#[test]
fn default_is_power_up() {
    let agc = Agc::default();
    assert_eq!(agc.io.read(0o30), 0o37777);
    assert!(agc.interrupts.enabled);
    assert!(!agc.running);
}
