//! The AGC processor: registers, memory-mapped access, and the instruction
//! cycle.
//!
//! The central registers live at the bottom of erasable memory:
//! A (0), L (1), Q (2), EB (3), FB (4), Z (5), BB (6), ZERO (7), and the
//! editing registers CYR (20), SR (21), CYL (22), EDOP (23), which transform
//! the word written to them when it is read back.

pub mod reg;

use vstd::prelude::*;
use crate::bits::{word, lemma_u16_masks, lemma_u16_join, lemma_editing_bits};
use crate::interrupts::InterruptController;
use crate::io::IoChannels;
use crate::memory::{Memory, WORD_MASK, SIGN_BIT, POS_ZERO, ERASABLE_SIZE, FIXED_SIZE};
use crate::timers::Timers;
use crate::timers::addr::{TIME1, TIME2, TIME3, TIME4, TIME5, TIME6};
use vstd::array::spec_array_update;

verus! {

/// Processor state.
#[derive(Clone)]
pub struct Agc {
    /// Main memory.
    pub memory: Memory,
    /// I/O channels.
    pub io: IoChannels,
    /// Interrupt controller.
    pub interrupts: InterruptController,
    /// Timers.
    pub timers: Timers,
    /// Accumulator overflow bit (bit 16).
    pub a_overflow: bool,
    /// Whether the next instruction is an extracode.
    pub extend: bool,
    /// INDEX value to add to the next instruction.
    pub index_value: Option<u16>,
    /// Whether the CPU runs.
    pub running: bool,
    /// Instructions executed.
    pub instruction_count: u64,
    /// DSKY key waiting to be delivered by KEYRUPT1.
    pub pending_key: Option<u16>,
    /// DSKY display table.
    pub dsptab: [u16; 12],
    /// Whether a GOJAM (reset) was triggered.
    pub gojam: bool,
}

/// CYR: the word cycled right by one; bit 1 wraps around to bit 15.
pub open spec fn cycled_right(w: u16) -> u16 {
    (w / 2 + (w % 2) * 0x4000) as u16
}

/// SR: the word shifted right by one, the sign bit kept.
pub open spec fn shifted_right(w: u16) -> u16 {
    ((w / 0x4000) * 0x4000 + w / 2) as u16
}

/// CYL: the word cycled left by one; bit 15 wraps around to bit 1.
pub open spec fn cycled_left(w: u16) -> u16 {
    ((w % 0x4000) * 2 + w / 0x4000) as u16
}

/// EDOP: the word shifted right by seven, upper bits cleared (seven bits kept).
pub open spec fn edited_op(w: u16) -> u16 {
    (w / 128) % 128
}

/// Erasable memory `a` with the timer registers TIME2–TIME6 taken from `e`.
pub open spec fn with_timer_registers(a: [u16; ERASABLE_SIZE], e: Seq<u16>) -> [u16; ERASABLE_SIZE] {
    let a2 = spec_array_update(a, TIME2 as int, e[TIME2 as int]);
    let a1 = spec_array_update(a2, TIME1 as int, e[TIME1 as int]);
    let a3 = spec_array_update(a1, TIME3 as int, e[TIME3 as int]);
    let a4 = spec_array_update(a3, TIME4 as int, e[TIME4 as int]);
    let a5 = spec_array_update(a4, TIME5 as int, e[TIME5 as int]);
    spec_array_update(a5, TIME6 as int, e[TIME6 as int])
}

/// The FB field of a value: its bits 14–10.
pub open spec fn fb_field(v: u16) -> u16 {
    (((v / 1024) % 32) * 1024) as u16
}

impl Agc {
    /// Erasable word `i` as stored.
    pub open spec fn erasable_at(self, i: int) -> u16 {
        self.memory.erasable[i]
    }

    /// The state with the 15-bit word of `v` stored at erasable address `i`.
    pub open spec fn with_erasable(self, i: int, v: u16) -> Agc {
        Agc { memory: self.memory.erasable_stored(i, v), ..self }
    }

    /// A: the 15-bit word at address 0.
    pub open spec fn spec_reg_a(&self) -> u16 {
        word(self.erasable_at(reg::A as int))
    }

    /// A with the overflow bit as bit 16.
    pub open spec fn spec_reg_a_with_overflow(&self) -> u16 {
        (word(self.erasable_at(reg::A as int)) + if self.a_overflow {
            0x8000int
        } else {
            0
        }) as u16
    }

    /// L: the 15-bit word at address 1.
    pub open spec fn spec_reg_l(&self) -> u16 {
        word(self.erasable_at(reg::L as int))
    }

    /// Q: the 15-bit word at address 2.
    pub open spec fn spec_reg_q(&self) -> u16 {
        word(self.erasable_at(reg::Q as int))
    }

    /// EB: the erasable bank number, the low three bits at address 3.
    pub open spec fn spec_reg_eb(&self) -> u16 {
        self.erasable_at(reg::EB as int) % 8
    }

    /// FB: the word at address 4, as stored.
    pub open spec fn spec_reg_fb(&self) -> u16 {
        self.erasable_at(reg::FB as int)
    }

    /// Z: the 12-bit program counter at address 5.
    pub open spec fn spec_reg_z(&self) -> u16 {
        self.erasable_at(reg::Z as int) % 0x1000
    }

    /// BB: the 15-bit word at address 6.
    pub open spec fn spec_reg_bb(&self) -> u16 {
        word(self.erasable_at(reg::BB as int))
    }

    /// The program counter: Z.
    pub open spec fn spec_pc(&self) -> u16 {
        self.spec_reg_z()
    }

    /// A set to `v`, overflow cleared.
    pub open spec fn with_reg_a(self, v: u16) -> Agc {
        Agc { a_overflow: false, ..self.with_erasable(reg::A as int, v) }
    }

    /// A set to the 15-bit word of `v`, the overflow bit taken from bit 16
    /// of `v`.
    pub open spec fn with_reg_a_overflow(self, v: u16) -> Agc {
        Agc { a_overflow: v >= 0x8000, ..self.with_erasable(reg::A as int, v) }
    }

    /// L set to the 15-bit word of `v`.
    pub open spec fn with_reg_l(self, v: u16) -> Agc {
        self.with_erasable(reg::L as int, v)
    }

    /// Q set to the 15-bit word of `v`.
    pub open spec fn with_reg_q(self, v: u16) -> Agc {
        self.with_erasable(reg::Q as int, v)
    }

    /// BB rebuilt from the FB field of FB and the bank number in EB.
    pub open spec fn with_bb_synced(self) -> Agc {
        self.with_erasable(
            reg::BB as int,
            (fb_field(self.erasable_at(reg::FB as int)) + self.erasable_at(reg::EB as int) % 8) as u16,
        )
    }

    /// EB set to the low three bits of `v`, BB kept in step.
    pub open spec fn with_reg_eb(self, v: u16) -> Agc {
        self.with_erasable(reg::EB as int, v % 8).with_bb_synced()
    }

    /// FB set to the 15-bit word of `v`, BB kept in step.
    pub open spec fn with_reg_fb(self, v: u16) -> Agc {
        self.with_erasable(reg::FB as int, v).with_bb_synced()
    }

    /// Z set to the 12-bit address in `v`.
    pub open spec fn with_reg_z(self, v: u16) -> Agc {
        self.with_erasable(reg::Z as int, v % 0x1000)
    }

    /// BB set to `v`; EB and FB take its bank fields.
    pub open spec fn with_reg_bb(self, v: u16) -> Agc {
        self.with_erasable(reg::BB as int, v).with_erasable(reg::EB as int, v % 8).with_erasable(
            reg::FB as int,
            fb_field(v),
        )
    }

    /// What a read of a 12-bit address returns: the central registers, the
    /// hardwired zero, the editing transformations, or memory under the
    /// current banks.
    #[verifier::opaque]
    pub open spec fn spec_read_mem(&self, addr: u16) -> u16 {
        let a = addr % 0x1000;
        if a == reg::A {
            self.spec_reg_a()
        } else if a == reg::L {
            self.spec_reg_l()
        } else if a == reg::Q {
            self.spec_reg_q()
        } else if a == reg::ZERO {
            POS_ZERO
        } else if a == reg::CYR {
            cycled_right(word(self.erasable_at(reg::CYR as int)))
        } else if a == reg::SR {
            shifted_right(word(self.erasable_at(reg::SR as int)))
        } else if a == reg::CYL {
            cycled_left(word(self.erasable_at(reg::CYL as int)))
        } else if a == reg::EDOP {
            edited_op(word(self.erasable_at(reg::EDOP as int)))
        } else {
            self.memory.resolved_word(
                a,
                self.spec_reg_eb(),
                self.spec_reg_fb(),
                self.io.spec_superbank(),
            )
        }
    }

    /// The state after a write of `value` to a 12-bit address: the central
    /// registers take it through their setters, ZERO ignores it, the editing
    /// registers store it, and memory takes it under EB.
    #[verifier::opaque]
    pub open spec fn mem_written(self, addr: u16, value: u16) -> Agc {
        let a = addr % 0x1000;
        if a == reg::A {
            self.with_reg_a(value)
        } else if a == reg::L {
            self.with_reg_l(value)
        } else if a == reg::Q {
            self.with_reg_q(value)
        } else if a == reg::EB {
            self.with_reg_eb(value)
        } else if a == reg::FB {
            self.with_reg_fb(value)
        } else if a == reg::Z {
            self.with_reg_z(value)
        } else if a == reg::BB {
            self.with_reg_bb(value)
        } else if a == reg::ZERO {
            self
        } else if reg::CYR <= a <= reg::EDOP {
            self.with_erasable(a as int, value)
        } else {
            Agc { memory: self.memory.resolved_store(a, value, self.spec_reg_eb()), ..self }
        }
    }

    /// The parts of the state that instructions leave alone: timers,
    /// instruction count, run flag, waiting key, GOJAM flag, display table.
    pub open spec fn frame(self) -> (Timers, u64, bool, Option<u16>, bool, [u16; 12]) {
        (self.timers, self.instruction_count, self.running, self.pending_key, self.gojam, self.dsptab)
    }

    /// The power-up state: memory cleared, channels and interrupts and timers
    /// at power-up, the CPU stopped with nothing pending.
    pub open spec fn is_power_up_state(self) -> bool {
        &&& forall|i: int| 0 <= i < ERASABLE_SIZE ==> #[trigger] self.memory.erasable[i] == 0
        &&& forall|i: int| 0 <= i < FIXED_SIZE ==> #[trigger] self.memory.fixed[i] == 0
        &&& forall|i: int|
            0 <= i < crate::io::NUM_CHANNELS ==> #[trigger] self.io.channels[i] == if crate::io::is_status_input(i) {
                0o37777u16
            } else {
                0u16
            }
        &&& forall|i: int| 0 <= i < crate::interrupts::NUM_INTERRUPTS ==> !#[trigger] self.interrupts.pending[i]
        &&& self.interrupts.enabled
        &&& !self.interrupts.in_isr
        &&& self.interrupts.saved_context() == (0u16, 0u16, 0u16, 0u16, 0u16)
        &&& self.timers.mct_accumulator_10ms == 0
        &&& self.timers.mct_accumulator_t6 == 0
        &&& !self.timers.time6_enabled
        &&& self.timers.total_mcts == 0
        &&& !self.a_overflow
        &&& !self.extend
        &&& self.index_value is None
        &&& !self.running
        &&& self.instruction_count == 0
        &&& self.pending_key is None
        &&& forall|i: int| 0 <= i < 12 ==> #[trigger] self.dsptab[i] == 0
        &&& !self.gojam
    }

    /// A powered-up, stopped AGC.
    pub fn new() -> (agc: Self)
        ensures
            agc.is_power_up_state(),
    {
        let mut agc = Self {
            memory: Memory::new(),
            io: IoChannels::new(),
            interrupts: InterruptController::new(),
            timers: Timers::new(),
            a_overflow: false,
            extend: false,
            index_value: None,
            running: false,
            instruction_count: 0,
            pending_key: None,
            dsptab: [0u16; 12],
            gojam: false,
        };
        agc.memory.erasable[reg::ZERO] = POS_ZERO;
        agc
    }

    /// Load a program into fixed bank `bank` (0–35); words past the end of
    /// fixed memory are dropped.
    pub fn load_program(&mut self, bank: usize, data: &[u16])
        requires
            bank * crate::memory::FIXED_BANK_SIZE <= usize::MAX,
            bank * crate::memory::FIXED_BANK_SIZE + data@.len() <= usize::MAX + 1,
        ensures
            final(self).memory.erasable == old(self).memory.erasable,
            forall|i: int|
                0 <= i < FIXED_SIZE ==> #[trigger] final(self).memory.fixed[i] == if bank * 1024 <= i
                    < bank * 1024 + data@.len() {
                    word(data@[i - bank * 1024])
                } else {
                    old(self).memory.fixed[i]
                },
            (Agc { memory: old(self).memory, ..*final(self) }) == *old(self),
    {
        let offset = bank * crate::memory::FIXED_BANK_SIZE;
        self.memory.load_fixed(offset, data);
    }

    /// Set the program counter (Z).
    pub fn set_pc(&mut self, addr: u16)
        ensures
            *final(self) == old(self).with_reg_z(addr),
    {
        self.set_reg_z(addr);
    }

    /// The program counter (Z).
    #[verifier::when_used_as_spec(spec_pc)]
    pub fn pc(&self) -> (r: u16)
        ensures
            r == self.spec_pc(),
    {
        self.reg_z()
    }

    /// Start the CPU.
    pub fn start(&mut self)
        ensures
            *final(self) == (Agc { running: true, ..*old(self) }),
    {
        self.running = true;
    }

    /// Stop the CPU.
    pub fn stop(&mut self)
        ensures
            *final(self) == (Agc { running: false, ..*old(self) }),
    {
        self.running = false;
    }

    // ===== Registers =====

    /// The accumulator A.
    #[verifier::when_used_as_spec(spec_reg_a)]
    pub fn reg_a(&self) -> (r: u16)
        ensures
            r == self.spec_reg_a(),
    {
        proof {
            lemma_u16_masks();
        }
        self.memory.erasable[reg::A] & WORD_MASK
    }

    /// The accumulator with the overflow bit as bit 16.
    #[verifier::when_used_as_spec(spec_reg_a_with_overflow)]
    pub fn reg_a_with_overflow(&self) -> (r: u16)
        ensures
            r == self.spec_reg_a_with_overflow(),
    {
        proof {
            lemma_u16_masks();
            lemma_u16_join();
        }
        let val = self.memory.erasable[reg::A] & WORD_MASK;
        if self.a_overflow {
            val | 0x8000
        } else {
            val
        }
    }

    /// Set A (clears the overflow bit).
    pub fn set_reg_a(&mut self, val: u16)
        ensures
            *final(self) == old(self).with_reg_a(val),
    {
        proof {
            lemma_u16_masks();
        }
        self.memory.erasable[reg::A] = val & WORD_MASK;
        self.a_overflow = false;
    }

    /// Set A from a value whose bit 16 is the overflow bit.
    pub fn set_reg_a_with_overflow(&mut self, val: u16)
        ensures
            *final(self) == old(self).with_reg_a_overflow(val),
    {
        proof {
            lemma_u16_masks();
        }
        self.memory.erasable[reg::A] = val & WORD_MASK;
        self.a_overflow = (val & 0x8000) != 0;
    }

    /// The L register.
    #[verifier::when_used_as_spec(spec_reg_l)]
    pub fn reg_l(&self) -> (r: u16)
        ensures
            r == self.spec_reg_l(),
    {
        proof {
            lemma_u16_masks();
        }
        self.memory.erasable[reg::L] & WORD_MASK
    }

    /// Set L.
    pub fn set_reg_l(&mut self, val: u16)
        ensures
            *final(self) == old(self).with_reg_l(val),
    {
        proof {
            lemma_u16_masks();
        }
        self.memory.erasable[reg::L] = val & WORD_MASK;
    }

    /// The Q register.
    #[verifier::when_used_as_spec(spec_reg_q)]
    pub fn reg_q(&self) -> (r: u16)
        ensures
            r == self.spec_reg_q(),
    {
        proof {
            lemma_u16_masks();
        }
        self.memory.erasable[reg::Q] & WORD_MASK
    }

    /// Set Q.
    pub fn write_reg_q(&mut self, val: u16)
        ensures
            *final(self) == old(self).with_reg_q(val),
    {
        proof {
            lemma_u16_masks();
        }
        self.memory.erasable[reg::Q] = val & WORD_MASK;
    }

    /// The EB register: the erasable bank number.
    #[verifier::when_used_as_spec(spec_reg_eb)]
    pub fn reg_eb(&self) -> (r: u16)
        ensures
            r == self.spec_reg_eb(),
    {
        proof {
            lemma_u16_masks();
        }
        self.memory.erasable[reg::EB] & 0x07
    }

    /// Set EB; BB follows.
    pub fn set_reg_eb(&mut self, val: u16)
        ensures
            *final(self) == old(self).with_reg_eb(val),
    {
        proof {
            lemma_u16_masks();
        }
        self.memory.erasable[reg::EB] = val & 0x07;
        self.sync_bb();
    }

    /// The FB register as stored.
    #[verifier::when_used_as_spec(spec_reg_fb)]
    pub fn reg_fb(&self) -> (r: u16)
        ensures
            r == self.spec_reg_fb(),
    {
        self.memory.erasable[reg::FB]
    }

    /// Set FB; BB follows.
    pub fn set_reg_fb(&mut self, val: u16)
        ensures
            *final(self) == old(self).with_reg_fb(val),
    {
        proof {
            lemma_u16_masks();
        }
        self.memory.erasable[reg::FB] = val & WORD_MASK;
        self.sync_bb();
    }

    /// The Z register: the program counter.
    #[verifier::when_used_as_spec(spec_reg_z)]
    pub fn reg_z(&self) -> (r: u16)
        ensures
            r == self.spec_reg_z(),
    {
        proof {
            lemma_u16_masks();
        }
        self.memory.erasable[reg::Z] & 0x0FFF
    }

    /// Set Z to a 12-bit address.
    pub fn set_reg_z(&mut self, val: u16)
        ensures
            *final(self) == old(self).with_reg_z(val),
    {
        proof {
            lemma_u16_masks();
        }
        self.memory.erasable[reg::Z] = val & 0x0FFF;
    }

    /// The BB register.
    #[verifier::when_used_as_spec(spec_reg_bb)]
    pub fn reg_bb(&self) -> (r: u16)
        ensures
            r == self.spec_reg_bb(),
    {
        proof {
            lemma_u16_masks();
        }
        self.memory.erasable[reg::BB] & WORD_MASK
    }

    /// Set BB; EB and FB take its bank fields.
    pub fn set_reg_bb(&mut self, val: u16)
        ensures
            *final(self) == old(self).with_reg_bb(val),
    {
        proof {
            lemma_u16_masks();
        }
        self.memory.erasable[reg::BB] = val & WORD_MASK;
        self.memory.erasable[reg::EB] = val & 0x07;
        self.memory.erasable[reg::FB] = val & 0x7C00;
    }

    /// Rebuild BB from FB and EB.
    fn sync_bb(&mut self)
        ensures
            *final(self) == old(self).with_bb_synced(),
    {
        proof {
            lemma_u16_masks();
            lemma_u16_join();
        }
        let eb = self.memory.erasable[reg::EB] & 0x07;
        let fb = self.memory.erasable[reg::FB] & 0x7C00;
        self.memory.erasable[reg::BB] = fb | eb;
    }

    /// Read a 12-bit address, resolving bank switching and the special
    /// registers.
    #[verifier::when_used_as_spec(spec_read_mem)]
    pub fn read_mem(&self, addr: u16) -> (r: u16)
        ensures
            r == self.spec_read_mem(addr),
            r <= WORD_MASK,
    {
        proof {
            lemma_u16_masks();
            reveal(Agc::spec_read_mem);
        }
        let addr12 = addr & 0x0FFF;
        let a = addr12 as usize;
        if a == reg::A {
            return self.reg_a();
        } else if a == reg::L {
            return self.reg_l();
        } else if a == reg::Q {
            return self.reg_q();
        } else if a == reg::ZERO {
            return POS_ZERO;
        } else if a == reg::CYR {
            return self.editing_cyr();
        } else if a == reg::SR {
            return self.editing_sr();
        } else if a == reg::CYL {
            return self.editing_cyl();
        } else if a == reg::EDOP {
            return self.editing_edop();
        }
        let eb = self.reg_eb();
        let fb = self.reg_fb();
        let superbank = self.io.superbank();
        self.memory.read(addr12, eb, fb, superbank)
    }

    /// Write a 12-bit address.
    pub fn write_mem(&mut self, addr: u16, value: u16)
        ensures
            *final(self) == old(self).mem_written(addr, value),
    {
        proof {
            lemma_u16_masks();
            reveal(Agc::mem_written);
        }
        let addr12 = addr & 0x0FFF;
        let a = addr12 as usize;
        if a == reg::A {
            self.set_reg_a(value);
            return;
        } else if a == reg::L {
            self.set_reg_l(value);
            return;
        } else if a == reg::Q {
            self.write_reg_q(value);
            return;
        } else if a == reg::EB {
            self.set_reg_eb(value);
            return;
        } else if a == reg::FB {
            self.set_reg_fb(value);
            return;
        } else if a == reg::Z {
            self.set_reg_z(value);
            return;
        } else if a == reg::BB {
            self.set_reg_bb(value);
            return;
        } else if a == reg::ZERO {
            return;
        } else if a == reg::CYR || a == reg::SR || a == reg::CYL || a == reg::EDOP {
            self.memory.write_erasable(a, value);
            return;
        }
        let eb = self.reg_eb();
        self.memory.write(addr12, value, eb);
    }

    // ===== Editing registers =====

    /// CYR read: the stored word cycled right.
    pub fn editing_cyr(&self) -> (r: u16)
        ensures
            r == cycled_right(word(self.erasable_at(reg::CYR as int))),
    {
        proof {
            lemma_u16_masks();
            lemma_editing_bits();
        }
        let val = self.memory.erasable[reg::CYR] & WORD_MASK;
        let bit1 = val & 1;
        ((val >> 1) | (bit1 << 14)) & WORD_MASK
    }

    /// SR read: the stored word shifted right, sign kept.
    pub fn editing_sr(&self) -> (r: u16)
        ensures
            r == shifted_right(word(self.erasable_at(reg::SR as int))),
    {
        proof {
            lemma_u16_masks();
            lemma_editing_bits();
        }
        let val = self.memory.erasable[reg::SR] & WORD_MASK;
        let sign = val & SIGN_BIT;
        (sign | (val >> 1)) & WORD_MASK
    }

    /// CYL read: the stored word cycled left.
    pub fn editing_cyl(&self) -> (r: u16)
        ensures
            r == cycled_left(word(self.erasable_at(reg::CYL as int))),
    {
        proof {
            lemma_u16_masks();
            lemma_editing_bits();
        }
        let val = self.memory.erasable[reg::CYL] & WORD_MASK;
        let bit15 = (val >> 14) & 1;
        ((val << 1) | bit15) & WORD_MASK
    }

    /// EDOP read: the stored word shifted right by seven.
    pub fn editing_edop(&self) -> (r: u16)
        ensures
            r == edited_op(word(self.erasable_at(reg::EDOP as int))),
    {
        proof {
            lemma_u16_masks();
            lemma_editing_bits();
        }
        let val = self.memory.erasable[reg::EDOP] & WORD_MASK;
        (val >> 7) & 0x007F
    }

    /// Queue a DSKY key press (key code 0–31) for KEYRUPT1.
    pub fn dsky_key_press(&mut self, key_code: u16)
        ensures
            *final(self) == (Agc { pending_key: Some((key_code % 32) as u16), ..*old(self) }),
    {
        proof {
            lemma_u16_masks();
        }
        self.pending_key = Some(key_code & 0x1F);
    }
}

impl Agc {
    /// Interrupt entry: when a poll hands out an interrupt, its request is
    /// cleared, A, L, Q, BB and Z are saved, and Z jumps to its vector.
    pub open spec fn interrupt_taken(self) -> Agc {
        match self.interrupts.polled() {
            Some(irq) => {
                let ic = self.interrupts.with_pending(irq, false).entered(
                    self.reg_a(),
                    self.reg_l(),
                    self.reg_q(),
                    self.reg_bb(),
                    self.reg_z(),
                );
                Agc { interrupts: ic, ..self }.with_reg_z(irq.vector_address())
            },
            None => self,
        }
    }

    /// Fetch after interrupt entry: the instruction at Z, with a pending
    /// INDEX value added to it, and the state with Z advanced and the INDEX
    /// value consumed.
    pub open spec fn fetched(self) -> (Agc, u16) {
        let s1 = self.interrupt_taken();
        let z = s1.reg_z();
        let raw = s1.read_mem(z);
        let s2 = s1.with_reg_z((z + 1) as u16);
        let instruction = match s2.index_value {
            Some(idx) => word(crate::instructions::ones_sum(raw, idx)),
            None => raw,
        };
        (Agc { index_value: None, ..s2 }, instruction)
    }

    /// Whether a fetched instruction is the EXTEND prefix.
    pub open spec fn is_extend_prefix(self, instruction: u16) -> bool {
        !self.extend && instruction == 0o00006
    }

    /// The effect and MCT count of executing a fetched instruction.
    pub open spec fn executed(self, instruction: u16) -> (Agc, u64) {
        if self.extend {
            (Agc { extend: false, ..self }).extracode_executed(instruction)
        } else {
            self.basic_executed(instruction)
        }
    }

    /// End of an instruction cycle: the timers advance by `mcts` (their
    /// interrupts are requested), a waiting DSKY key goes to channel 15 with
    /// KEYRUPT1 requested, and ZERO is cleared.
    pub open spec fn cycle_finished(self, mcts: u64) -> Agc {
        let e = self.memory.erasable@;
        let e2 = self.timers.ticked_erasable(mcts, e);
        let ic = self.interrupts.requested_all(self.timers.ticked_requests(mcts, e));
        let s1 = Agc {
            memory: Memory { erasable: with_timer_registers(self.memory.erasable, e2), ..self.memory },
            timers: self.timers.ticked(mcts, e),
            interrupts: ic,
            ..self
        };
        let s2 = match self.pending_key {
            Some(key) => Agc {
                io: s1.io.channel_stored(crate::io::channel::MNKEYIN as int, word(key)),
                interrupts: ic.with_pending(crate::interrupts::Interrupt::KeyRupt1, true),
                pending_key: None,
                ..s1
            },
            None => s1,
        };
        s2.with_erasable(reg::ZERO as int, POS_ZERO)
    }

    /// One instruction cycle and its MCT count. A stopped CPU does nothing;
    /// the EXTEND prefix only marks the next instruction as an extracode.
    #[verifier::opaque]
    pub open spec fn stepped(self) -> (Agc, u64) {
        if !self.running {
            (self, 0)
        } else {
            let (s, instruction) = self.fetched();
            if s.is_extend_prefix(instruction) {
                (Agc { extend: true, ..s }, 1)
            } else {
                let (s2, mcts) = s.executed(instruction);
                let s3 = Agc { instruction_count: (s2.instruction_count + 1) as u64, ..s2 };
                (s3.cycle_finished(mcts), mcts)
            }
        }
    }

    /// Whether the next instruction cycle keeps the instruction and MCT
    /// counters within 64 bits.
    pub open spec fn cycle_fits(self) -> bool {
        self.running ==> {
            let (s, instruction) = self.fetched();
            s.is_extend_prefix(instruction) || {
                &&& self.instruction_count < u64::MAX
                &&& self.timers.can_tick(s.executed(instruction).1)
            }
        }
    }

    /// Execute one instruction cycle; returns the MCTs it took (0 when the
    /// CPU is stopped).
    pub fn step(&mut self) -> (mcts: u64)
        requires
            old(self).cycle_fits(),
        ensures
            (*final(self), mcts) == old(self).stepped(),
    {
        proof {
            reveal(Agc::stepped);
        }
        if !self.running {
            return 0;
        }
        let instruction = self.fetch();
        if !self.extend && instruction == 0o00006 {
            self.extend = true;
            return 1;
        }
        let ghost s1 = *self;
        let mcts = if self.extend {
            self.extend = false;
            crate::instructions::execute_extracode(self, instruction)
        } else {
            crate::instructions::execute_basic(self, instruction)
        };
        proof {
            crate::instructions::lemma_executed_frame(s1, instruction);
            crate::instructions::lemma_executed_frame(Agc { extend: false, ..s1 }, instruction);
        }
        self.instruction_count += 1;
        self.finish_cycle(mcts);
        mcts
    }

    /// Take a polled interrupt, then fetch the instruction at Z (modified by
    /// a pending INDEX value) and advance Z.
    fn fetch(&mut self) -> (instruction: u16)
        ensures
            (*final(self), instruction) == old(self).fetched(),
    {
        if let Some(irq) = self.interrupts.poll() {
            self.interrupts.clear(irq);
            let a = self.reg_a();
            let l = self.reg_l();
            let q = self.reg_q();
            let bb = self.reg_bb();
            let z = self.reg_z();
            self.interrupts.enter_isr(a, l, q, bb, z);
            self.set_reg_z(irq.vector_address());
        }
        let z = self.reg_z();
        let instruction = self.read_mem(z);
        self.set_reg_z(z + 1);
        if let Some(idx) = self.index_value.take() {
            let modified = crate::instructions::ones_complement_add(instruction, idx);
            proof {
                lemma_u16_masks();
            }
            modified & WORD_MASK
        } else {
            instruction
        }
    }

    /// End an instruction cycle of `mcts` MCTs: advance the timers and
    /// request their interrupts, deliver a waiting DSKY key, clear ZERO.
    fn finish_cycle(&mut self, mcts: u64)
        requires
            old(self).timers.can_tick(mcts),
        ensures
            *final(self) == old(self).cycle_finished(mcts),
    {
        let ghost s0 = *self;
        let timer_interrupts = self.timers.tick(mcts, &mut self.memory.erasable);
        let mut i: usize = 0;
        while i < timer_interrupts.len()
            invariant
                i <= timer_interrupts@.len(),
                self.interrupts == s0.interrupts.requested_all(timer_interrupts@.take(i as int)),
                self.memory.fixed == s0.memory.fixed,
                self.memory.erasable@ == s0.timers.ticked_erasable(mcts, s0.memory.erasable@),
                self.timers == s0.timers.ticked(mcts, s0.memory.erasable@),
                timer_interrupts@ == s0.timers.ticked_requests(mcts, s0.memory.erasable@),
                (Agc { memory: s0.memory, timers: s0.timers, interrupts: s0.interrupts, ..*self })
                    == s0,
            decreases timer_interrupts@.len() - i,
        {
            assert(timer_interrupts@.take(i + 1).drop_last() == timer_interrupts@.take(i as int));
            self.interrupts.request(timer_interrupts[i]);
            i = i + 1;
        }
        assert(timer_interrupts@.take(i as int) == timer_interrupts@);
        proof {
            let e2 = s0.timers.ticked_erasable(mcts, s0.memory.erasable@);
            crate::timers::lemma_ticked_erasable_frame(s0.timers, mcts, s0.memory.erasable@);
            assert(self.memory.erasable =~= with_timer_registers(s0.memory.erasable, e2));
        }
        if let Some(key) = self.pending_key.take() {
            self.io.write(crate::io::channel::MNKEYIN, key);
            self.interrupts.request(crate::interrupts::Interrupt::KeyRupt1);
        }
        self.memory.erasable[reg::ZERO] = POS_ZERO;
    }
}

impl Agc {
    /// The state after a GOJAM: the flag set, EXTEND and INDEX dropped,
    /// interrupts inhibited, Z at the boot vector.
    pub open spec fn after_gojam(self) -> Agc {
        Agc {
            gojam: true,
            extend: false,
            index_value: None,
            interrupts: InterruptController { enabled: false, ..self.interrupts },
            ..self
        }.with_reg_z(crate::interrupts::vector::BOOT)
    }

    /// Trigger a GOJAM (hardware reset).
    pub fn gojam(&mut self)
        ensures
            *final(self) == old(self).after_gojam(),
    {
        self.gojam = true;
        self.extend = false;
        self.index_value = None;
        self.interrupts.inhibit();
        self.set_reg_z(crate::interrupts::vector::BOOT);
    }

    /// Instruction cycles run until `budget` MCTs are spent or the CPU stops;
    /// the final state and the MCTs spent.
    pub open spec fn ran(self, budget: int) -> (Agc, nat)
        decreases if budget > 0 { budget } else { 0 },
    {
        if budget <= 0 || !self.running {
            (self, 0)
        } else {
            proof {
                lemma_stepped_facts(self);
            }
            let (s, m) = self.stepped();
            let (s2, m2) = s.ran(budget - m);
            (s2, (m + m2) as nat)
        }
    }

    /// Whether a run with `budget` MCTs, `spent` MCTs into it, keeps every
    /// counter within 64 bits: each of its cycles fits, and so does the
    /// running total.
    pub open spec fn run_fits(self, budget: int, spent: int) -> bool
        decreases if budget > 0 { budget } else { 0 },
    {
        if budget <= 0 || !self.running {
            true
        } else {
            proof {
                lemma_stepped_facts(self);
            }
            let (s, m) = self.stepped();
            &&& self.cycle_fits()
            &&& spent + m <= u64::MAX
            &&& s.run_fits(budget - m, spent + m)
        }
    }

    /// Room in the counters for `n` more MCTs of execution (plus the longest
    /// instruction): enough for a run of `n` MCTs (see `lemma_headroom_fits`).
    pub open spec fn has_headroom(self, n: int) -> bool {
        &&& self.instruction_count + n <= u64::MAX
        &&& self.timers.total_mcts + n + 5 <= u64::MAX
        &&& self.timers.mct_accumulator_10ms + n + 5 <= u64::MAX
        &&& self.timers.time6_enabled ==> self.timers.mct_accumulator_t6 + n + 5 <= u64::MAX
    }

    /// Run instruction cycles until at least `max_mcts` MCTs are spent or
    /// the CPU stops; returns the MCTs spent.
    pub fn run_mcts(&mut self, max_mcts: u64) -> (total: u64)
        requires
            old(self).run_fits(max_mcts as int, 0),
        ensures
            (*final(self), total as nat) == old(self).ran(max_mcts as int),
    {
        let mut total = 0u64;
        while total < max_mcts && self.running
            invariant
                total <= max_mcts + 5,
                self.run_fits(max_mcts - total, total as int),
                ({
                    let (s, t) = self.ran(max_mcts - total);
                    (s, total + t)
                }) == ({
                    let (s, t) = old(self).ran(max_mcts as int);
                    (s, t as int)
                }),
            decreases max_mcts + 6 - total,
        {
            proof {
                lemma_stepped_facts(*self);
            }
            let m = self.step();
            total = total + m;
        }
        total
    }

    /// Read `count` words starting at `start`.
    pub fn read_mem_range(&self, start: u16, count: u16) -> (words: Vec<u16>)
        requires
            start + count <= u16::MAX + 1,
        ensures
            words@.len() == count,
            forall|i: int| 0 <= i < count ==> #[trigger] words@[i] == self.read_mem((start + i) as u16),
    {
        let mut words: Vec<u16> = Vec::new();
        let mut i: u16 = 0;
        while i < count
            invariant
                i <= count,
                start + count <= u16::MAX + 1,
                words@.len() == i,
                forall|j: int| 0 <= j < i ==> #[trigger] words@[j] == self.read_mem((start + j) as u16),
            decreases count - i,
        {
            words.push(self.read_mem(start + i));
            i = i + 1;
        }
        words
    }

    /// A snapshot of the registers and flags for inspection.
    pub fn snapshot(&self) -> (snap: AgcSnapshot)
        ensures
            snap.a == self.reg_a(),
            snap.l == self.reg_l(),
            snap.q == self.reg_q(),
            snap.eb == self.reg_eb(),
            snap.fb == self.reg_fb(),
            snap.z == self.reg_z(),
            snap.bb == self.reg_bb(),
            snap.a_overflow == self.a_overflow,
            snap.extend == self.extend,
            snap.running == self.running,
            snap.interrupts_enabled == self.interrupts.enabled,
            snap.in_isr == self.interrupts.in_isr,
            snap.instruction_count == self.instruction_count,
            snap.total_mcts == self.timers.total_mcts,
    {
        AgcSnapshot {
            a: self.reg_a(),
            l: self.reg_l(),
            q: self.reg_q(),
            eb: self.reg_eb(),
            fb: self.reg_fb(),
            z: self.reg_z(),
            bb: self.reg_bb(),
            a_overflow: self.a_overflow,
            extend: self.extend,
            running: self.running,
            interrupts_enabled: self.interrupts.enabled,
            in_isr: self.interrupts.in_isr,
            instruction_count: self.instruction_count,
            total_mcts: self.timers.total_mcts,
        }
    }
}

/// Registers and flags of the AGC at one moment. Simulated time is given in
/// MCTs (see `crate::timers::MCT_NS` for their length).
#[derive(Debug, Clone)]
pub struct AgcSnapshot {
    pub a: u16,
    pub l: u16,
    pub q: u16,
    pub eb: u16,
    pub fb: u16,
    pub z: u16,
    pub bb: u16,
    pub a_overflow: bool,
    pub extend: bool,
    pub running: bool,
    pub interrupts_enabled: bool,
    pub in_isr: bool,
    pub instruction_count: u64,
    pub total_mcts: u64,
}

/// What one instruction cycle spends and changes of the counters: a running
/// CPU spends 1–6 MCTs, counts at most one instruction, and its timer
/// accumulators grow by at most what it spent; a stopped CPU does nothing.
pub proof fn lemma_stepped_facts(s: Agc)
    ensures
        ({
            let (s2, m) = s.stepped();
            &&& s.running ==> 1 <= m <= 6
            &&& !s.running ==> m == 0 && s2 == s
            &&& s2.running == s.running
            &&& s2.instruction_count <= s.instruction_count + 1
            &&& s2.timers.total_mcts <= s.timers.total_mcts + m
            &&& s2.timers.mct_accumulator_10ms <= s.timers.mct_accumulator_10ms + m
            &&& s2.timers.time6_enabled ==> s.timers.time6_enabled
            &&& s.timers.time6_enabled ==> s2.timers.mct_accumulator_t6
                <= s.timers.mct_accumulator_t6 + m
            &&& !s.timers.time6_enabled ==> s2.timers.mct_accumulator_t6
                == s.timers.mct_accumulator_t6
        }),
        s.running && s.has_headroom(1) ==> s.cycle_fits(),
{
    reveal(Agc::stepped);
    if s.running {
        let (f, instruction) = s.fetched();
        crate::instructions::lemma_executed_frame(f, instruction);
        crate::instructions::lemma_executed_frame(Agc { extend: false, ..f }, instruction);
    }
}

// ===== Laws =====

/// ZERO always reads +0.
pub proof fn lemma_zero_reads_zero(s: Agc, addr: u16)
    requires
        addr % 0x1000 == reg::ZERO,
    ensures
        s.read_mem(addr) == POS_ZERO,
{
    reveal(Agc::spec_read_mem);
}

/// Every read gives a 15-bit word.
pub proof fn lemma_read_is_word(s: Agc, addr: u16)
    ensures
        s.read_mem(addr) <= WORD_MASK,
{
    reveal(Agc::spec_read_mem);
}

/// Cycling right and cycling left undo each other.
pub proof fn lemma_cycles_undo(w: u16)
    requires
        w <= WORD_MASK,
    ensures
        cycled_left(cycled_right(w)) == w,
        cycled_right(cycled_left(w)) == w,
{
}

/// A write to A, L, Q or plain erasable memory (unswitched beyond the
/// registers, or switched outside bank E0) is read back as the 15-bit word
/// written.
pub proof fn lemma_read_after_write(s: Agc, addr: u16, value: u16)
    requires
        ({
            let a = addr % 0x1000;
            ||| a == reg::A || a == reg::L || a == reg::Q
            ||| 0o24 <= a <= 0o1377
            ||| 0o1400 <= a <= 0o1777 && s.reg_eb() != 0
        }),
    ensures
        s.mem_written(addr, value).read_mem(addr) == word(value),
        s.mem_written(addr, value).reg_eb() == s.reg_eb(),
        s.mem_written(addr, value).reg_z() == s.reg_z(),
        addr % 0x1000 != reg::A ==> s.mem_written(addr, value).reg_a() == s.reg_a(),
        addr % 0x1000 != reg::A ==> s.mem_written(addr, value).a_overflow == s.a_overflow,
{
    reveal(Agc::spec_read_mem);
    reveal(Agc::mem_written);
}

/// Setting A, L or Z leaves what any other address that reads back its
/// writes (A, L, Q, unswitched erasable memory beyond the registers,
/// switched erasable memory outside bank E0) reads.
pub proof fn lemma_register_writes_keep_reads(s: Agc, addr: u16, value: u16)
    requires
        ({
            let a = addr % 0x1000;
            ||| a == reg::A || a == reg::L || a == reg::Q
            ||| 0o24 <= a <= 0o1377
            ||| 0o1400 <= a <= 0o1777 && s.reg_eb() != 0
        }),
    ensures
        addr % 0x1000 != reg::A ==> s.with_reg_a(value).read_mem(addr) == s.read_mem(addr),
        addr % 0x1000 != reg::A ==> s.with_reg_a_overflow(value).read_mem(addr) == s.read_mem(
            addr,
        ),
        addr % 0x1000 != reg::L ==> s.with_reg_l(value).read_mem(addr) == s.read_mem(addr),
        s.with_reg_z(value).read_mem(addr) == s.read_mem(addr),
{
    reveal(Agc::spec_read_mem);
}

/// A write through one erasable address leaves what another reads, where
/// both lie in unswitched erasable memory beyond the registers, or both in
/// switched erasable memory outside bank E0.
pub proof fn lemma_write_keeps_other_reads(s: Agc, addr: u16, other: u16, value: u16)
    requires
        addr % 0x1000 != other % 0x1000,
        ({
            let a = addr % 0x1000;
            let b = other % 0x1000;
            ||| 0o24 <= a <= 0o1377 && 0o24 <= b <= 0o1377
            ||| 0o1400 <= a <= 0o1777 && 0o1400 <= b <= 0o1777 && s.reg_eb() != 0
        }),
    ensures
        s.mem_written(addr, value).read_mem(other) == s.read_mem(other),
{
    reveal(Agc::spec_read_mem);
    reveal(Agc::mem_written);
}

/// Bank registers stay consistent: BB is the FB field of FB joined with EB
/// after any bank write, and a BB write sets EB and FB from its fields.
pub proof fn lemma_bank_registers(s: Agc, v: u16)
    ensures
        s.with_reg_eb(v).reg_eb() == v % 8,
        s.with_reg_eb(v).reg_bb() == fb_field(s.reg_fb()) + v % 8,
        s.with_reg_fb(v).reg_fb() == word(v),
        s.with_reg_fb(v).reg_bb() == fb_field(word(v)) + s.reg_eb(),
        s.with_reg_bb(v).reg_bb() == word(v),
        s.with_reg_bb(v).reg_eb() == v % 8,
        s.with_reg_bb(v).reg_fb() == fb_field(v),
{
}

/// TC K jumps to K and leaves the return address in Q.
pub proof fn lemma_tc_saves_return(s: Agc, k: u16)
    ensures
        s.after_tc(k).reg_z() == k % 0x1000,
        s.after_tc(k).reg_q() == s.reg_z(),
{
}

/// Taking an interrupt and then RESUME gives back A, L, Q, BB and Z as
/// they were, with interrupts enabled and no service routine running.
pub proof fn lemma_interrupt_resume_round_trip(s: Agc)
    requires
        s.interrupts.polled() is Some,
    ensures
        ({
            let r = s.interrupt_taken().after_index(0o25);
            &&& r.reg_a() == s.reg_a()
            &&& r.reg_l() == s.reg_l()
            &&& r.reg_q() == s.reg_q()
            &&& r.reg_bb() == s.reg_bb()
            &&& r.reg_z() == s.reg_z()
            &&& r.interrupts.enabled
            &&& !r.interrupts.in_isr
        }),
{
}

/// A value set into A with its overflow bit reads back unchanged; a plain
/// set clears the overflow bit.
pub proof fn lemma_reg_a_overflow_round_trip(s: Agc, v: u16)
    ensures
        s.with_reg_a_overflow(v).reg_a_with_overflow() == v,
        s.with_reg_a_overflow(v).a_overflow == (v >= 0x8000),
        s.with_reg_a(v).reg_a_with_overflow() == word(v),
{
}

/// TS on overflow: A becomes +1 after a positive overflow (A's word then
/// has bit 15 set) and −1 after a negative one, the overflow clears, and the
/// next instruction is skipped (unless the store itself went to Z, directly
/// or through bank E0).
#[verifier::spinoff_prover]
#[verifier::rlimit(50)]
pub proof fn lemma_ts_overflow_skips(s: Agc, k: u16)
    requires
        s.a_overflow,
        k % 0x1000 != reg::Z,
        k % 0x1000 != 0o1400 + reg::Z || s.reg_eb() != 0,
    ensures
        s.after_ts(k).reg_z() == (s.reg_z() + 1) % 0x1000,
        s.after_ts(k).reg_a() == if s.reg_a() >= 0x4000 {
            1u16
        } else {
            0x7FFEu16
        },
        !s.after_ts(k).a_overflow,
{
    reveal(Agc::mem_written);
}

/// EXTEND takes one MCT and only marks the next instruction as an
/// extracode: no instruction is counted and the timers do not move.
pub proof fn lemma_extend_prefix(s: Agc)
    requires
        s.running,
        s.fetched().0.is_extend_prefix(s.fetched().1),
    ensures
        s.stepped().1 == 1,
        s.stepped().0.extend,
        s.stepped().0.instruction_count == s.instruction_count,
        s.stepped().0.timers == s.timers,
{
    reveal(Agc::stepped);
}

/// After a GOJAM the CPU fetches from the boot vector with interrupts
/// inhibited.
pub proof fn lemma_gojam_boots(s: Agc)
    ensures
        s.after_gojam().reg_z() == crate::interrupts::vector::BOOT,
        s.after_gojam().interrupts.polled() is None,
        !s.after_gojam().extend,
        s.after_gojam().index_value is None,
{
}

/// A completed instruction cycle leaves +0 in ZERO.
pub proof fn lemma_cycle_clears_zero(s: Agc)
    requires
        s.running,
        !s.fetched().0.is_extend_prefix(s.fetched().1),
    ensures
        s.stepped().0.erasable_at(reg::ZERO as int) == POS_ZERO,
{
    reveal(Agc::stepped);
}

/// Headroom in the counters is enough for a run: with room for `n` more
/// MCTs, and a total that cannot pass 64 bits, a run of `n` MCTs fits.
pub proof fn lemma_headroom_fits(s: Agc, n: int, spent: int)
    requires
        s.has_headroom(n),
        0 <= spent,
        spent + n + 5 <= u64::MAX,
    ensures
        s.run_fits(n, spent),
    decreases if n > 0 { n } else { 0 },
{
    if n > 0 && s.running {
        lemma_stepped_facts(s);
        let (s2, m) = s.stepped();
        lemma_headroom_fits(s2, n - m, spent + m);
    }
}

/// A run spends at least its budget unless the CPU is stopped, overshoots
/// by at most 5 MCTs, and leaves the run flag as it was.
pub proof fn lemma_ran_bounds(s: Agc, budget: int)
    ensures
        s.ran(budget).0.running == s.running,
        budget > 0 && s.running ==> budget <= s.ran(budget).1 <= budget + 5,
        budget <= 0 || !s.running ==> s.ran(budget) == (s, 0nat),
    decreases if budget > 0 { budget } else { 0 },
{
    if budget > 0 && s.running {
        lemma_stepped_facts(s);
        let (s2, m) = s.stepped();
        lemma_ran_bounds(s2, budget - m);
    }
}

/// Taking an interrupt jumps to its vector, clears its request and no
/// other, saves A, L, Q, BB and Z, and blocks further interrupts until
/// RESUME.
pub proof fn lemma_interrupt_entry(s: Agc)
    requires
        s.interrupts.polled() is Some,
    ensures
        ({
            let irq = s.interrupts.polled().unwrap();
            let t = s.interrupt_taken();
            &&& t.reg_z() == irq.vector_address()
            &&& !t.interrupts.pending[irq.priority()]
            &&& forall|j: int|
                0 <= j < crate::interrupts::NUM_INTERRUPTS && j != irq.priority()
                    ==> t.interrupts.pending[j] == s.interrupts.pending[j]
            &&& t.interrupts.saved_context() == (
                s.reg_a(),
                s.reg_l(),
                s.reg_q(),
                s.reg_bb(),
                s.reg_z(),
            )
            &&& t.interrupts.polled() is None
        }),
{
    let irq = s.interrupts.polled().unwrap();
    crate::interrupts::lemma_poll_priority(s.interrupts);
    assert(irq.vector_address() < 0x1000);
}

/// INDEX K adds the operand to the next instruction fetched (where no
/// interrupt comes first): in one's complement, and as plain addition where
/// both are positive and the sum stays below 2^14. The added value is
/// consumed by that fetch.
pub proof fn lemma_index_adds_to_next(s: Agc, k: u16)
    requires
        k != 0o16,
        k != 0o17,
        k != 0o25,
        s.interrupts.polled() is None,
    ensures
        ({
            let t = s.after_index(k);
            let raw = t.read_mem(t.reg_z());
            let idx = s.read_mem(k);
            &&& t.fetched().0.index_value is None
            &&& !crate::instructions::overflowed(crate::instructions::ones_sum(raw, idx))
                ==> crate::instructions::ones_value(t.fetched().1)
                == crate::instructions::ones_value(raw) + crate::instructions::ones_value(idx)
            &&& raw < 0x4000 && idx < 0x4000 && raw + idx < 0x4000 ==> t.fetched().1 == raw + idx
        }),
{
    let t = s.after_index(k);
    let raw = t.read_mem(t.reg_z());
    let idx = s.read_mem(k);
    lemma_read_is_word(t, t.reg_z());
    lemma_read_is_word(s, k);
    crate::instructions::lemma_add_is_ones_complement(raw, idx);
}

/// A waiting DSKY key is delivered at the end of a cycle: channel 15 holds
/// its code, KEYRUPT1 is requested, and no key waits any more.
pub proof fn lemma_key_delivered(s: Agc, mcts: u64)
    requires
        s.pending_key is Some,
    ensures
        s.cycle_finished(mcts).io.channel_word(crate::io::channel::MNKEYIN as int) == word(
            s.pending_key.unwrap(),
        ),
        s.cycle_finished(mcts).interrupts.pending[crate::interrupts::Interrupt::KeyRupt1.priority()],
        s.cycle_finished(mcts).pending_key is None,
{
}

/// The end of a cycle leaves pending every interrupt that the timers
/// requested, among them T3RUPT, T4RUPT and T5RUPT whenever their counter
/// overflowed on one of the 10 ms ticks that the cycle completed.
pub proof fn lemma_cycle_requests_timer_interrupts(s: Agc, mcts: u64)
    ensures
        forall|irq: crate::interrupts::Interrupt|
            s.timers.ticked_requests(mcts, s.memory.erasable@).contains(irq)
                ==> #[trigger] s.cycle_finished(mcts).interrupts.pending[irq.priority()],
        crate::timers::overflows_within(
            s.memory.erasable[TIME3 as int],
            s.timers.centisecond_ticks(mcts),
        ) ==> s.cycle_finished(mcts).interrupts.pending[crate::interrupts::Interrupt::T3Rupt.priority()],
        crate::timers::overflows_within(
            s.memory.erasable[TIME4 as int],
            s.timers.centisecond_ticks(mcts),
        ) ==> s.cycle_finished(mcts).interrupts.pending[crate::interrupts::Interrupt::T4Rupt.priority()],
        crate::timers::overflows_within(
            s.memory.erasable[TIME5 as int],
            s.timers.centisecond_ticks(mcts),
        ) ==> s.cycle_finished(mcts).interrupts.pending[crate::interrupts::Interrupt::T5Rupt.priority()],
{
    let e = s.memory.erasable@;
    let r = s.timers.ticked_requests(mcts, e);
    crate::interrupts::lemma_requested_all(s.interrupts, r);
    crate::timers::lemma_tick_requests(s.timers, mcts, e);
    let ic = s.interrupts.requested_all(r);
    assert forall|irq: crate::interrupts::Interrupt|
        r.contains(irq) implies #[trigger] s.cycle_finished(mcts).interrupts.pending[irq.priority()] by {
        assert(ic.pending[irq.priority()]);
    }
    assert(r.contains(crate::interrupts::Interrupt::T3Rupt) ==> s.cycle_finished(mcts).interrupts.pending[crate::interrupts::Interrupt::T3Rupt.priority()]);
    assert(r.contains(crate::interrupts::Interrupt::T4Rupt) ==> s.cycle_finished(mcts).interrupts.pending[crate::interrupts::Interrupt::T4Rupt.priority()]);
    assert(r.contains(crate::interrupts::Interrupt::T5Rupt) ==> s.cycle_finished(mcts).interrupts.pending[crate::interrupts::Interrupt::T5Rupt.priority()]);
}

/// A memory write leaves the frame alone.
pub broadcast proof fn lemma_mem_written_frame(s: Agc, addr: u16, value: u16)
    ensures
        #![trigger s.mem_written(addr, value)]
        s.mem_written(addr, value).frame() == s.frame(),
        s.mem_written(addr, value).extend == s.extend,
{
    reveal(Agc::mem_written);
}

impl Default for Agc {
    fn default() -> (agc: Self)
        ensures
            agc.is_power_up_state(),
    {
        Self::new()
    }
}

} // verus!
