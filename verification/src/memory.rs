//! Memory subsystem.
//!
//! Memory map of the 12-bit address field (octal):
//! - 0000–1377: unswitched erasable memory (central and special registers first)
//! - 1400–1777: switched erasable memory, bank chosen by EB
//! - 2000–3777: common fixed memory, bank chosen by FB and the superbank bit
//! - 4000–7777: fixed-fixed memory, always banks 02 and 03
//!
//! Erasable banks E0–E7 hold 256 words each; fixed banks 00–43 (36 banks)
//! hold 1024 words each.

use vstd::prelude::*;
use crate::bits::{word, lemma_u16_masks};

verus! {

/// Total erasable memory: 8 banks of 256 words.
pub const ERASABLE_SIZE: usize = 2048;

/// Total fixed memory: 36 banks of 1024 words.
pub const FIXED_SIZE: usize = 36864;

/// Number of erasable banks.
pub const NUM_ERASABLE_BANKS: usize = 8;

/// Number of fixed banks.
pub const NUM_FIXED_BANKS: usize = 36;

/// Words per erasable bank.
pub const ERASABLE_BANK_SIZE: usize = 256;

/// Words per fixed bank.
pub const FIXED_BANK_SIZE: usize = 1024;

/// 15-bit word mask.
pub const WORD_MASK: u16 = 0x7FFF;

/// Sign bit (bit 15 counted from 1).
pub const SIGN_BIT: u16 = 0x4000;

/// Positive zero.
pub const POS_ZERO: u16 = 0x0000;

/// Negative zero: all fifteen bits set.
pub const NEG_ZERO: u16 = 0x7FFF;

/// Overflow bit of the accumulator (bit 16).
pub const OVERFLOW_BIT: u16 = 0x8000;

/// Erasable and fixed memory.
#[derive(Clone)]
pub struct Memory {
    /// Erasable memory (RAM): 8 banks of 256 words.
    pub erasable: [u16; ERASABLE_SIZE],
    /// Fixed memory (ROM): 36 banks of 1024 words.
    pub fixed: [u16; FIXED_SIZE],
}

/// The fixed bank that FB selects: its bank field (bits 14–10), where the
/// superbank bit moves banks 030–033 up to 040–043.
pub open spec fn fixed_bank_of(fb: u16, superbank: bool) -> int {
    let bank5 = (fb / 1024) % 32;
    if superbank && 0o30 <= bank5 <= 0o33 {
        bank5 + 8
    } else {
        bank5 as int
    }
}

/// Flat erasable address of a switched-erasable address (01400–01777) under EB.
pub open spec fn switched_erasable_addr(addr12: int, eb: u16) -> int {
    (eb % 8) * (ERASABLE_BANK_SIZE as int) + (addr12 - 0o1400)
}

impl Memory {
    /// The word at a flat erasable address; 0 outside erasable memory.
    pub open spec fn erasable_word(self, addr: int) -> u16 {
        if 0 <= addr < ERASABLE_SIZE {
            word(self.erasable[addr])
        } else {
            0
        }
    }

    /// The word at a flat fixed address; 0 outside fixed memory.
    pub open spec fn fixed_word(self, addr: int) -> u16 {
        if 0 <= addr < FIXED_SIZE {
            word(self.fixed[addr])
        } else {
            0
        }
    }

    /// Memory after storing the 15-bit word of `value` at a flat erasable
    /// address; unchanged when the address lies outside erasable memory.
    pub open spec fn erasable_stored(self, addr: int, value: u16) -> Memory {
        if 0 <= addr < ERASABLE_SIZE {
            Memory { erasable: vstd::array::spec_array_update(self.erasable, addr, word(value)), ..self }
        } else {
            self
        }
    }

    /// The word that a 12-bit address reads under the given bank registers.
    pub open spec fn resolved_word(self, addr: u16, eb: u16, fb: u16, superbank: bool) -> u16 {
        let a = (addr % 0x1000) as int;
        if a <= 0o1377 {
            self.erasable_word(a)
        } else if a <= 0o1777 {
            self.erasable_word(switched_erasable_addr(a, eb))
        } else if a <= 0o3777 {
            self.fixed_word(fixed_bank_of(fb, superbank) * (FIXED_BANK_SIZE as int) + (a - 0o2000))
        } else {
            self.fixed_word(2 * (FIXED_BANK_SIZE as int) + (a - 0o4000))
        }
    }

    /// Memory after a write of `value` to a 12-bit address under EB: erasable
    /// addresses take the word, fixed addresses ignore the write.
    pub open spec fn resolved_store(self, addr: u16, value: u16, eb: u16) -> Memory {
        let a = (addr % 0x1000) as int;
        if a <= 0o1377 {
            self.erasable_stored(a, value)
        } else if a <= 0o1777 {
            self.erasable_stored(switched_erasable_addr(a, eb), value)
        } else {
            self
        }
    }

    /// All-zero erasable and fixed memory.
    pub fn new() -> (m: Self)
        ensures
            forall|i: int| 0 <= i < ERASABLE_SIZE ==> m.erasable[i] == 0,
            forall|i: int| 0 <= i < FIXED_SIZE ==> m.fixed[i] == 0,
    {
        Self { erasable: [0u16; ERASABLE_SIZE], fixed: [0u16; FIXED_SIZE] }
    }

    /// Read a word from erasable memory at a flat address (0–2047); 0 beyond.
    pub fn read_erasable(&self, addr: usize) -> (r: u16)
        ensures
            r == self.erasable_word(addr as int),
    {
        proof {
            lemma_u16_masks();
        }
        if addr < ERASABLE_SIZE {
            self.erasable[addr] & WORD_MASK
        } else {
            0
        }
    }

    /// Write a word to erasable memory at a flat address (0–2047); a write
    /// beyond erasable memory is ignored.
    pub fn write_erasable(&mut self, addr: usize, value: u16)
        ensures
            *final(self) == old(self).erasable_stored(addr as int, value),
    {
        proof {
            lemma_u16_masks();
        }
        if addr < ERASABLE_SIZE {
            self.erasable[addr] = value & WORD_MASK;
        }
    }

    /// Read a word from fixed memory at a flat address (0–36863); 0 beyond.
    pub fn read_fixed(&self, addr: usize) -> (r: u16)
        ensures
            r == self.fixed_word(addr as int),
    {
        proof {
            lemma_u16_masks();
        }
        if addr < FIXED_SIZE {
            self.fixed[addr] & WORD_MASK
        } else {
            0
        }
    }

    /// Load a program into fixed memory starting at a flat offset; words that
    /// would fall beyond fixed memory are dropped.
    pub fn load_fixed(&mut self, offset: usize, data: &[u16])
        requires
            offset + data@.len() <= usize::MAX + 1,
        ensures
            final(self).erasable == old(self).erasable,
            forall|i: int|
                0 <= i < FIXED_SIZE ==> #[trigger] final(self).fixed[i] == if offset <= i < offset
                    + data@.len() {
                    word(data@[i - offset])
                } else {
                    old(self).fixed[i]
                },
    {
        let mut i: usize = 0;
        while i < data.len()
            invariant
                i <= data@.len(),
                offset + data@.len() <= usize::MAX + 1,
                self.erasable == old(self).erasable,
                forall|j: int|
                    0 <= j < FIXED_SIZE ==> #[trigger] self.fixed[j] == if offset <= j < offset + i {
                        word(data@[j - offset])
                    } else {
                        old(self).fixed[j]
                    },
            decreases data@.len() - i,
        {
            let addr = offset + i;
            if addr < FIXED_SIZE {
                proof {
                    lemma_u16_masks();
                }
                self.fixed[addr] = data[i] & WORD_MASK;
            }
            i = i + 1;
        }
    }

    /// Read through a 12-bit address, resolving the bank registers.
    pub fn read(&self, addr: u16, eb: u16, fb: u16, superbank: bool) -> (r: u16)
        ensures
            r == self.resolved_word(addr, eb, fb, superbank),
    {
        proof {
            lemma_u16_masks();
        }
        let addr12 = (addr & 0x0FFF) as usize;
        if addr12 <= 0o1377 {
            self.read_erasable(addr12)
        } else if addr12 <= 0o1777 {
            let bank = (eb & 0x07) as usize;
            let offset = addr12 - 0o1400;
            let flat = bank * ERASABLE_BANK_SIZE + offset;
            self.read_erasable(flat)
        } else if addr12 <= 0o3777 {
            let bank = self.resolve_fixed_bank(fb, superbank);
            let offset = addr12 - 0o2000;
            let flat = bank * FIXED_BANK_SIZE + offset;
            self.read_fixed(flat)
        } else {
            let offset = addr12 - 0o4000;
            let bank: usize = if offset < FIXED_BANK_SIZE { 2 } else { 3 };
            let bank_offset = offset % FIXED_BANK_SIZE;
            let flat = bank * FIXED_BANK_SIZE + bank_offset;
            self.read_fixed(flat)
        }
    }

    /// Write through a 12-bit address; only erasable addresses take the write.
    pub fn write(&mut self, addr: u16, value: u16, eb: u16)
        ensures
            *final(self) == old(self).resolved_store(addr, value, eb),
    {
        proof {
            lemma_u16_masks();
        }
        let addr12 = (addr & 0x0FFF) as usize;
        if addr12 <= 0o1377 {
            self.write_erasable(addr12, value);
        } else if addr12 <= 0o1777 {
            let bank = (eb & 0x07) as usize;
            let offset = addr12 - 0o1400;
            let flat = bank * ERASABLE_BANK_SIZE + offset;
            self.write_erasable(flat, value);
        }
    }

    /// The fixed bank selected by FB and the superbank bit (0–35).
    fn resolve_fixed_bank(&self, fb: u16, superbank: bool) -> (r: usize)
        ensures
            r == fixed_bank_of(fb, superbank),
            r < NUM_FIXED_BANKS,
    {
        proof {
            lemma_u16_masks();
        }
        let bank5 = ((fb >> 10) & 0x1F) as usize;
        if superbank && 0o30 <= bank5 && bank5 <= 0o33 {
            bank5 + 8
        } else {
            bank5
        }
    }
}

/// A flat erasable write is read back as the 15-bit word written, and
/// leaves every other erasable word and all of fixed memory alone.
pub proof fn lemma_erasable_read_after_write(m: Memory, addr: int, other: int, value: u16)
    requires
        0 <= addr < ERASABLE_SIZE,
        other != addr,
    ensures
        m.erasable_stored(addr, value).erasable_word(addr) == word(value),
        m.erasable_stored(addr, value).erasable_word(other) == m.erasable_word(other),
        m.erasable_stored(addr, value).fixed == m.fixed,
{
}

/// Writes to fixed memory (addresses 02000–07777) are ignored.
pub proof fn lemma_fixed_is_read_only(m: Memory, addr: u16, value: u16, eb: u16)
    requires
        addr % 0x1000 >= 0o2000,
    ensures
        m.resolved_store(addr, value, eb) == m,
{
}

/// A write through a 12-bit erasable address is read back through the same
/// address under the same banks.
pub proof fn lemma_resolved_read_after_write(
    m: Memory,
    addr: u16,
    value: u16,
    eb: u16,
    fb: u16,
    superbank: bool,
)
    requires
        addr % 0x1000 < 0o2000,
    ensures
        m.resolved_store(addr, value, eb).resolved_word(addr, eb, fb, superbank) == word(value),
{
}

/// Banks E0–E2 are also unswitched: the switched window under such an EB
/// shows the same words as the unswitched addresses of that bank.
pub proof fn lemma_low_erasable_banks_alias(m: Memory, offset: u16, eb: u16, fb: u16, superbank: bool)
    requires
        offset < 0o400,
        eb % 8 < 3,
    ensures
        m.resolved_word((0o1400 + offset) as u16, eb, fb, superbank) == m.resolved_word(
            ((eb % 8) * 0o400 + offset) as u16,
            eb,
            fb,
            superbank,
        ),
{
}

/// Fixed-fixed memory is banks 02 and 03: 04000–05777 shows the words
/// that common fixed 02000–03777 shows when FB selects bank 02, and
/// 06000–07777 those of bank 03.
pub proof fn lemma_fixed_fixed_is_banks_2_3(
    m: Memory,
    offset: u16,
    eb: u16,
    fb: u16,
    superbank: bool,
    eb2: u16,
    superbank2: bool,
)
    requires
        offset < 0o4000,
    ensures
        m.resolved_word((0o4000 + offset) as u16, eb, fb, superbank) == m.resolved_word(
            (0o2000 + offset % 0o2000) as u16,
            eb2,
            ((2 + offset / 0o2000) * 0o2000) as u16,
            superbank2,
        ),
{
}

/// Fixed-fixed addresses 04000–07777 read banks 02 and 03 whatever the bank
/// registers hold.
pub proof fn lemma_fixed_fixed_ignores_banks(
    m: Memory,
    addr: u16,
    eb1: u16,
    fb1: u16,
    sb1: bool,
    eb2: u16,
    fb2: u16,
    sb2: bool,
)
    requires
        addr % 0x1000 >= 0o4000,
    ensures
        m.resolved_word(addr, eb1, fb1, sb1) == m.resolved_word(addr, eb2, fb2, sb2),
        m.resolved_word(addr, eb1, fb1, sb1) == m.fixed_word(
            2 * FIXED_BANK_SIZE + (addr % 0x1000 - 0o4000),
        ),
{
}

impl Default for Memory {
    fn default() -> (m: Self)
        ensures
            forall|i: int| 0 <= i < ERASABLE_SIZE ==> m.erasable[i] == 0,
            forall|i: int| 0 <= i < FIXED_SIZE ==> m.fixed[i] == 0,
    {
        Self::new()
    }
}

} // verus!
