//! The instruction set.
//!
//! An instruction word holds a 3-bit opcode (bits 15–13 counted from 1) and
//! a 12-bit address field. Where the opcode alone does not name the
//! instruction, the top two bits of the address field (bits 12–11) are a
//! quarter code that does. Quarter-coded basic instructions (DAS 20KKK,
//! LXCH 22KKK, INCR 24KKK, ADS 26KKK, INDEX 50KKK, DXCH 52KKK, TS 54KKK,
//! XCH 56KKK) address the 10-bit remainder; extracodes take the whole 12-bit
//! field.
//!
//! Basic instructions: TC, CCS, CA, CS, AD, MASK, INDEX, TS, XCH, DAS, DXCH,
//! LXCH, INCR, ADS. Extracodes, which follow EXTEND: DCA, DCS, MP, DV, SU,
//! BZF, BZMF, MSU, READ, WRITE, RAND, WAND, AUG, DIM.

use vstd::prelude::*;
use crate::bits::{word, lemma_u16_masks, lemma_u32_masks, lemma_sign_correction_bits};
use crate::cpu::Agc;
use crate::memory::{NEG_ZERO, POS_ZERO, SIGN_BIT, WORD_MASK};

verus! {

// ===== Fields and arithmetic =====

/// Opcode: bits 15–13 of the word.
pub open spec fn opcode_of(word: u16) -> u16 {
    (word / 4096) % 8
}

/// Quarter code: bits 12–11 of the word.
pub open spec fn quarter_code_of(word: u16) -> u16 {
    (word / 1024) % 4
}

/// Address field: the low 12 bits.
pub open spec fn address_of(word: u16) -> u16 {
    word % 0x1000
}

/// The 10-bit address of a quarter-coded instruction: the low 10 bits.
pub open spec fn address10_of(word: u16) -> u16 {
    word % 0x400
}

/// The integer a 15-bit one's-complement word stands for: a word with bit
/// 15 set is the negative of its complement (so −0 is 0).
pub open spec fn ones_value(v: u16) -> int {
    let w = word(v);
    if w >= 0x4000 {
        w - 0x7FFF
    } else {
        w as int
    }
}

/// A 15-bit word widened to 16 bits: bit 16 copies the sign bit 15.
pub open spec fn extended16(v: u16) -> int {
    let w = word(v);
    if w >= 0x4000 {
        w + 0x8000
    } else {
        w as int
    }
}

/// The one's-complement sum of two words: their 16-bit forms added, with
/// the carry out of bit 16 brought around into bit 1 (end-around carry).
/// Bit 16 of the result is the sign of the true sum; bit 15 is the sign of
/// the 15-bit word kept.
pub open spec fn ones_sum(a: u16, b: u16) -> u16 {
    let s = extended16(a) + extended16(b);
    if s > 0xFFFF {
        (s - 0xFFFF) as u16
    } else {
        s as u16
    }
}

/// The complement of a word: all fifteen bits inverted.
pub open spec fn negated(v: u16) -> u16 {
    (0x7FFF - word(v)) as u16
}

/// Whether a 16-bit register value has overflowed: bit 16 differs from
/// bit 15.
pub open spec fn overflowed(v: u16) -> bool {
    v / 0x8000 != (v / 0x4000) % 2
}

/// A sum as the accumulator holds it: its 15-bit word, with the overflow
/// bit (bit 16) set when the sum overflowed.
pub open spec fn overflow_flagged(r: u16) -> u16 {
    (word(r) + if overflowed(r) {
        0x8000int
    } else {
        0
    }) as u16
}

/// The word TS stores from an overflowed accumulator: bit 15 inverted, so
/// that it carries the sign of the overflowed value.
pub open spec fn flipped_sign(w: u16) -> u16 {
    if w >= 0x4000 {
        (w - 0x4000) as u16
    } else {
        (w + 0x4000) as u16
    }
}

/// The 15-bit word of a 16-bit value with its sign corrected: bit 16 (the
/// sign of the value) becomes bit 15. Without overflow this is the plain word.
pub open spec fn sign_corrected(v: u16) -> u16 {
    (v % 0x4000 + (v / 0x8000) * 0x4000) as u16
}

/// Whether a word is negative: bit 15 set.
pub open spec fn is_negative(v: u16) -> bool {
    word(v) >= 0x4000
}

/// The diminished absolute value that CCS loads: |v| − 1 for a non-zero
/// word, 0 for either zero.
pub open spec fn dabs(val: u16) -> u16 {
    let v = word(val);
    if v == POS_ZERO || v == NEG_ZERO {
        0
    } else if v < 0x4000 {
        (v - 1) as u16
    } else {
        (0x7FFF - v - 1) as u16
    }
}

/// The magnitude of a word: the word itself when positive, its complement
/// when negative.
pub open spec fn magnitude(v: u16) -> u16 {
    if is_negative(v) {
        negated(v)
    } else {
        word(v)
    }
}

/// How many instructions CCS skips: 0 for a positive non-zero word, 1 for
/// +0, 2 for a negative non-zero word, 3 for −0.
pub open spec fn ccs_skip(v: u16) -> u16 {
    let w = word(v);
    if w != POS_ZERO && w < 0x4000 {
        0
    } else if w == POS_ZERO {
        1
    } else if w != NEG_ZERO {
        2
    } else {
        3
    }
}

/// Opcode extraction from a 15-bit instruction word.
pub fn opcode(word: u16) -> (r: u16)
    ensures
        r == opcode_of(word),
{
    proof {
        lemma_u16_masks();
    }
    (word >> 12) & 0x07
}

/// Quarter-code extraction (bits 12–11).
pub fn quarter_code(word: u16) -> (r: u16)
    ensures
        r == quarter_code_of(word),
{
    proof {
        lemma_u16_masks();
    }
    (word >> 10) & 0x03
}

/// Address field extraction (12 bits).
pub fn address_field(word: u16) -> (r: u16)
    ensures
        r == address_of(word),
{
    proof {
        lemma_u16_masks();
    }
    word & 0x0FFF
}

/// The 10-bit address of a quarter-coded instruction.
pub fn address_field_10(word: u16) -> (r: u16)
    ensures
        r == address10_of(word),
{
    proof {
        lemma_u16_masks();
    }
    word & 0x03FF
}

/// Add two 15-bit words in one's complement, with end-around carry. The
/// result is a 16-bit value: bit 16 is the sign of the sum, and it differs
/// from bit 15 exactly when the sum overflows.
pub fn ones_complement_add(a: u16, b: u16) -> (r: u16)
    ensures
        r == ones_sum(a, b),
{
    let a32 = sign_extend_15_to_32(a);
    let b32 = sign_extend_15_to_32(b);
    let sum = a32 + b32;
    overflow_correct(sum)
}

/// Widen a 15-bit word to its 16-bit one's-complement form (bit 16 copies
/// bit 15), held in 32 bits.
fn sign_extend_15_to_32(val: u16) -> (r: u32)
    ensures
        r == extended16(val),
{
    proof {
        lemma_u16_masks();
    }
    let v = val & WORD_MASK;
    if v & SIGN_BIT != 0 {
        (v as u32) + 0x8000
    } else {
        v as u32
    }
}

/// Bring the carry out of bit 16 of a 17-bit sum around into bit 1.
fn overflow_correct(val: u32) -> (r: u16)
    requires
        val <= 0x1FFFE,
    ensures
        r == if val > 0xFFFF {
            (val - 0xFFFF) as u16
        } else {
            val as u16
        },
{
    if val > 0xFFFF {
        (val - 0xFFFF) as u16
    } else {
        val as u16
    }
}

/// Complement a 15-bit word.
pub fn ones_complement_negate(val: u16) -> (r: u16)
    ensures
        r == negated(val),
{
    proof {
        lemma_u16_masks();
    }
    (!val) & WORD_MASK
}

/// Whether a 16-bit register value has overflowed: bit 16 differs from
/// bit 15.
pub fn has_overflow(val: u16) -> (r: bool)
    ensures
        r == overflowed(val),
{
    proof {
        lemma_u16_masks();
    }
    ((val >> 15) & 1) != ((val >> 14) & 1)
}

/// A sum as the accumulator holds it: the 15-bit word, with bit 16 set when
/// the sum overflowed.
fn flag_overflow(r: u16) -> (f: u16)
    ensures
        f == overflow_flagged(r),
{
    proof {
        lemma_u16_masks();
        crate::bits::lemma_u16_join();
    }
    let w = r & WORD_MASK;
    if has_overflow(r) {
        w | 0x8000
    } else {
        w
    }
}

/// Sign-correct a 16-bit value: bit 16 becomes bit 15 of the word.
fn sign_correct(val: u16) -> (r: u16)
    ensures
        r == sign_corrected(val),
{
    proof {
        lemma_sign_correction_bits();
    }
    (val & 0x3FFF) | ((val >> 1) & 0x4000)
}

/// The diminished absolute value used by CCS.
pub fn diminished_abs(val: u16) -> (r: u16)
    ensures
        r == dabs(val),
{
    proof {
        lemma_u16_masks();
    }
    let v = val & WORD_MASK;
    if v == POS_ZERO || v == NEG_ZERO {
        POS_ZERO
    } else if v & SIGN_BIT == 0 {
        v - 1
    } else {
        let magnitude = ones_complement_negate(v);
        if magnitude == 0 {
            POS_ZERO
        } else {
            magnitude - 1
        }
    }
}

// ===== Laws of the arithmetic =====

/// A word plus its complement is −0, without overflow.
pub proof fn lemma_add_negation_is_neg_zero(v: u16)
    ensures
        word(ones_sum(v, negated(v))) == NEG_ZERO,
        !overflowed(ones_sum(v, negated(v))),
{
}

/// Complementing twice gives back the word.
pub proof fn lemma_negate_involution(v: u16)
    ensures
        negated(negated(v)) == word(v),
{
}

/// The sum does not depend on the order of its operands.
pub proof fn lemma_add_commutes(a: u16, b: u16)
    ensures
        ones_sum(a, b) == ones_sum(b, a),
{
}

/// The sum is one's-complement addition: it overflows exactly when the true
/// sum leaves ±16383, and otherwise its 15-bit word stands for the true sum.
pub proof fn lemma_add_is_ones_complement(a: u16, b: u16)
    ensures
        overflowed(ones_sum(a, b)) == (ones_value(a) + ones_value(b) > 0x3FFF || ones_value(a)
            + ones_value(b) < -0x3FFF),
        !overflowed(ones_sum(a, b)) ==> ones_value(ones_sum(a, b)) == ones_value(a) + ones_value(
            b,
        ),
{
}

/// An overflowed sum splits into a carry of ±2^14 (by the sign in bit 16)
/// and its sign-corrected word; without overflow, sign correction keeps the
/// word.
pub proof fn lemma_overflow_carry(a: u16, b: u16)
    ensures
        !overflowed(ones_sum(a, b)) ==> sign_corrected(ones_sum(a, b)) == word(ones_sum(a, b)),
        overflowed(ones_sum(a, b)) ==> ones_value(a) + ones_value(b) == ones_value(
            sign_corrected(ones_sum(a, b)),
        ) + if ones_sum(a, b) < 0x8000 {
            0x4000int
        } else {
            -0x4000int
        },
{
}

/// The overflow bit of a sum in A tells its direction through the word:
/// after an overflow, bit 15 of the word is set exactly when the true sum is
/// positive, and flipping it gives the sign-corrected word.
pub proof fn lemma_overflow_direction(a: u16, b: u16)
    ensures
        overflowed(ones_sum(a, b)) ==> ((word(ones_sum(a, b)) >= 0x4000) == (ones_value(a)
            + ones_value(b) > 0x3FFF)),
        overflowed(ones_sum(a, b)) ==> flipped_sign(word(ones_sum(a, b))) == sign_corrected(
            ones_sum(a, b),
        ),
        (overflow_flagged(ones_sum(a, b)) >= 0x8000) == overflowed(ones_sum(a, b)),
{
}

/// A word and its complement have the same diminished absolute value.
pub proof fn lemma_dabs_negation(v: u16)
    ensures
        dabs(negated(v)) == dabs(v),
{
}

/// The diminished absolute value is one less than the magnitude for a
/// non-zero word.
pub proof fn lemma_dabs_magnitude(v: u16)
    ensures
        word(v) != POS_ZERO && word(v) != NEG_ZERO ==> dabs(v) + 1 == magnitude(v),
        word(v) == POS_ZERO || word(v) == NEG_ZERO ==> dabs(v) == 0,
{
}

// ===== Instruction semantics =====

/// The even address of a double-word operand.
pub open spec fn even_addr(k: u16) -> u16 {
    (k - k % 2) as u16
}

/// A product or quotient half with the sign of the result applied: a
/// non-zero half of a negative result is complemented.
pub open spec fn signed_half(half: u16, negative: bool) -> u16 {
    if negative && half != 0 {
        negated(half)
    } else {
        half
    }
}

/// The dividend DV forms from the magnitudes of A and L.
pub open spec fn dv_dividend(a_mag: u16, l_mag: u16) -> u32 {
    ((a_mag as u32) << 14u32) | (l_mag as u32)
}

impl Agc {
    /// TC K: Q takes the return address, Z takes K.
    pub open spec fn after_tc(self, k: u16) -> Agc {
        self.with_reg_q(self.reg_z()).with_reg_z(k)
    }

    /// CCS K: A takes the diminished absolute value of the operand, and Z
    /// skips 0–3 instructions by the operand's sign and zeroness.
    pub open spec fn after_ccs(self, k: u16) -> Agc {
        let v = self.read_mem(k);
        let s = self.with_reg_a(dabs(v));
        s.with_reg_z((s.reg_z() + ccs_skip(v)) as u16)
    }

    /// CA K: A takes the operand.
    pub open spec fn after_ca(self, k: u16) -> Agc {
        self.with_reg_a(self.read_mem(k))
    }

    /// CS K: A takes the complemented operand.
    pub open spec fn after_cs(self, k: u16) -> Agc {
        self.with_reg_a(negated(self.read_mem(k)))
    }

    /// AD K: A takes A plus the operand, with overflow.
    pub open spec fn after_ad(self, k: u16) -> Agc {
        self.with_reg_a_overflow(overflow_flagged(ones_sum(self.reg_a(), self.read_mem(k))))
    }

    /// MASK K: A takes A AND the operand.
    pub open spec fn after_mask(self, k: u16) -> Agc {
        self.with_reg_a(word(self.reg_a() & self.read_mem(k)))
    }

    /// INDEX K: INHINT at 17, RELINT at 16, RESUME at 25 (the saved context
    /// comes back and interrupts are enabled again); any other K stores the
    /// operand to add to the next instruction.
    pub open spec fn after_index(self, k: u16) -> Agc {
        if k == 0o17 {
            Agc { interrupts: crate::interrupts::InterruptController { enabled: false, ..self.interrupts }, ..self }
        } else if k == 0o16 {
            Agc { interrupts: crate::interrupts::InterruptController { enabled: true, ..self.interrupts }, ..self }
        } else if k == 0o25 {
            let (a, l, q, bb, z) = self.interrupts.saved_context();
            let s = Agc {
                interrupts: crate::interrupts::InterruptController {
                    in_isr: false,
                    enabled: true,
                    ..self.interrupts
                },
                ..self
            };
            s.with_reg_a(a).with_reg_l(l).with_reg_q(q).with_reg_bb(bb).with_reg_z(z)
        } else {
            Agc { index_value: Some(self.read_mem(k)), ..self }
        }
    }

    /// TS K: the operand takes A. When A's overflow bit is set, the stored
    /// word is sign-corrected (an overflowed word has the wrong sign bit: set
    /// after a positive overflow, clear after a negative one), A becomes +1
    /// after a positive overflow or −1 after a negative one, and the next
    /// instruction is skipped.
    pub open spec fn after_ts(self, k: u16) -> Agc {
        let a = self.reg_a();
        if self.a_overflow {
            let s = self.mem_written(k, flipped_sign(a));
            let s2 = s.with_reg_a(if a >= 0x4000 { 1u16 } else { 0x7FFEu16 });
            s2.with_reg_z((s2.reg_z() + 1) as u16)
        } else {
            self.mem_written(k, a)
        }
    }

    /// XCH K: A and the operand swap.
    pub open spec fn after_xch(self, k: u16) -> Agc {
        self.mem_written(k, self.reg_a()).with_reg_a(self.read_mem(k))
    }

    /// LXCH K: L and the operand swap.
    pub open spec fn after_lxch(self, k: u16) -> Agc {
        self.mem_written(k, self.reg_l()).with_reg_l(self.read_mem(k))
    }

    /// INCR K: the operand goes up by one.
    pub open spec fn after_incr(self, k: u16) -> Agc {
        self.mem_written(k, word(ones_sum(self.read_mem(k), 1)))
    }

    /// ADS K: the operand and A both take A plus the operand (A keeps the
    /// overflow).
    pub open spec fn after_ads(self, k: u16) -> Agc {
        let r = ones_sum(self.reg_a(), self.read_mem(k));
        self.mem_written(k, word(r)).with_reg_a_overflow(overflow_flagged(r))
    }

    /// DAS K: the double word at K takes A,L plus itself (an overflow of the
    /// low half leaves its sign-corrected word and carries +1 or −1, by its
    /// direction, into the high half); A and L are cleared.
    pub open spec fn after_das(self, k: u16) -> Agc {
        let kk = even_addr(k);
        let hi = self.read_mem(kk);
        let lo = self.read_mem((kk + 1) as u16);
        let lo_sum = ones_sum(self.reg_l(), lo);
        let carry: u16 = if !overflowed(lo_sum) {
            0
        } else if lo_sum >= 0x8000 {
            0x7FFE
        } else {
            1
        };
        let hi_sum = ones_sum(word(ones_sum(self.reg_a(), hi)), carry);
        self.mem_written((kk + 1) as u16, sign_corrected(lo_sum)).mem_written(kk, word(hi_sum)).with_reg_a(
            0,
        ).with_reg_l(0)
    }

    /// DXCH K: A,L and the double word at K swap.
    pub open spec fn after_dxch(self, k: u16) -> Agc {
        let kk = even_addr(k);
        let hi = self.read_mem(kk);
        let lo = self.read_mem((kk + 1) as u16);
        self.mem_written(kk, self.reg_a()).mem_written((kk + 1) as u16, self.reg_l()).with_reg_a(
            hi,
        ).with_reg_l(lo)
    }

    /// DCA K: A,L take the double word at K.
    pub open spec fn after_dca(self, k: u16) -> Agc {
        let kk = even_addr(k);
        self.with_reg_a(self.read_mem(kk)).with_reg_l(self.read_mem((kk + 1) as u16))
    }

    /// DCS K: A,L take the complemented double word at K.
    pub open spec fn after_dcs(self, k: u16) -> Agc {
        let kk = even_addr(k);
        self.with_reg_a(negated(self.read_mem(kk))).with_reg_l(
            negated(self.read_mem((kk + 1) as u16)),
        )
    }

    /// MP K: the product of the magnitudes of A and the operand, high 14
    /// bits to A and low 14 bits to L, each half complemented when non-zero
    /// and the signs differ.
    pub open spec fn after_mp(self, k: u16) -> Agc {
        let a = self.reg_a();
        let m = self.read_mem(k);
        let product = magnitude(a) * magnitude(m);
        let negative = is_negative(a) != is_negative(m);
        self.with_reg_a(signed_half(((product / 0x4000) % 0x4000) as u16, negative)).with_reg_l(
            signed_half((product % 0x4000) as u16, negative),
        )
    }

    /// DV K: the double word A,L over the operand. A zero divisor leaves
    /// +16383 or −0 in A (by A's sign) and +0 in L. Otherwise the quotient's
    /// low 14 bits go to A and the remainder's to L, signed as A and the
    /// divisor say.
    pub open spec fn after_dv(self, k: u16) -> Agc {
        let d = self.read_mem(k);
        let a = self.reg_a();
        let l = self.reg_l();
        if d == POS_ZERO || d == NEG_ZERO {
            self.with_reg_a(if is_negative(a) { NEG_ZERO } else { 0x3FFFu16 }).with_reg_l(0)
        } else {
            let a_neg = is_negative(a);
            let l_mag = if a_neg { negated(l) } else { l };
            let dividend = dv_dividend(magnitude(a), l_mag);
            let divisor = magnitude(d) as u32;
            let q = ((dividend / divisor) % 0x4000) as u16;
            let r = ((dividend % divisor) % 0x4000) as u16;
            self.with_reg_a(signed_half(q, a_neg != is_negative(d))).with_reg_l(
                signed_half(r, a_neg),
            )
        }
    }

    /// SU K: A takes A minus the operand, with overflow.
    pub open spec fn after_su(self, k: u16) -> Agc {
        self.with_reg_a_overflow(
            overflow_flagged(ones_sum(self.reg_a(), negated(self.read_mem(k)))),
        )
    }

    /// BZF K: jump to K when A is +0 or −0.
    pub open spec fn after_bzf(self, k: u16) -> Agc {
        let a = self.reg_a();
        if a == POS_ZERO || a == NEG_ZERO {
            self.with_reg_z(k)
        } else {
            self
        }
    }

    /// BZMF K: jump to K when A is zero or negative.
    pub open spec fn after_bzmf(self, k: u16) -> Agc {
        let a = self.reg_a();
        if a == POS_ZERO || a == NEG_ZERO || is_negative(a) {
            self.with_reg_z(k)
        } else {
            self
        }
    }

    /// MSU K: A takes A minus the operand, both read as 15-bit two's-
    /// complement values, modulo 2^15; a negative difference is then turned
    /// into one's complement (one less).
    pub open spec fn after_msu(self, k: u16) -> Agc {
        let d = ((self.reg_a() - self.read_mem(k)) % 0x8000) as u16;
        self.with_reg_a(if d >= 0x4000 { (d - 1) as u16 } else { d })
    }

    /// AUG K: the operand's magnitude goes up by one (−0 becomes −1).
    pub open spec fn after_aug(self, k: u16) -> Agc {
        let v = self.read_mem(k);
        let r = if is_negative(v) {
            if v == NEG_ZERO {
                (NEG_ZERO - 1) as u16
            } else {
                (v - 1) as u16
            }
        } else {
            (v + 1) as u16
        };
        self.mem_written(k, word(r))
    }

    /// DIM K: the operand's magnitude goes down by one; zeros stay.
    pub open spec fn after_dim(self, k: u16) -> Agc {
        let v = self.read_mem(k);
        let r = if v == POS_ZERO || v == NEG_ZERO {
            v
        } else if is_negative(v) {
            word((v + 1) as u16)
        } else {
            (v - 1) as u16
        };
        self.mem_written(k, r)
    }

    /// READ K: A takes channel K.
    pub open spec fn after_read(self, k: u16) -> Agc {
        self.with_reg_a(self.io.channel_word(k as int))
    }

    /// WRITE K: channel K takes A.
    pub open spec fn after_write(self, k: u16) -> Agc {
        Agc { io: self.io.channel_stored(k as int, self.reg_a()), ..self }
    }

    /// RAND K: A takes A AND channel K.
    pub open spec fn after_rand(self, k: u16) -> Agc {
        self.with_reg_a(word(self.reg_a() & self.io.channel_word(k as int)))
    }

    /// WAND K: channel K and A both take channel K AND A.
    pub open spec fn after_wand(self, k: u16) -> Agc {
        let r = if (k as int) < crate::io::NUM_CHANNELS {
            word(self.io.channels[k as int] & self.reg_a())
        } else {
            0
        };
        Agc { io: self.io.channel_stored(k as int, r), ..self }.with_reg_a(r)
    }

    /// A basic instruction's effect and its MCT count:
    /// TC 0KKKK, CCS 1KKKK, DAS 20KKK, LXCH 22KKK, INCR 24KKK, ADS 26KKK,
    /// CA 3KKKK, CS 4KKKK, INDEX 50KKK, DXCH 52KKK, TS 54KKK, XCH 56KKK,
    /// AD 6KKKK, MASK 7KKKK.
    pub open spec fn basic_executed(self, instruction: u16) -> (Agc, u64) {
        let op = opcode_of(instruction);
        let qc = quarter_code_of(instruction);
        let k = address_of(instruction);
        let k10 = address10_of(instruction);
        if op == 0 {
            (self.after_tc(k), 1)
        } else if op == 1 {
            (self.after_ccs(k), 2)
        } else if op == 2 {
            if qc == 0 {
                (self.after_das(k10), 3)
            } else if qc == 1 {
                (self.after_lxch(k10), 2)
            } else if qc == 2 {
                (self.after_incr(k10), 2)
            } else {
                (self.after_ads(k10), 2)
            }
        } else if op == 3 {
            (self.after_ca(k), 2)
        } else if op == 4 {
            (self.after_cs(k), 2)
        } else if op == 5 {
            if qc == 0 {
                (self.after_index(k10), 1)
            } else if qc == 1 {
                (self.after_dxch(k10), 3)
            } else if qc == 2 {
                (self.after_ts(k10), 2)
            } else {
                (self.after_xch(k10), 2)
            }
        } else if op == 6 {
            (self.after_ad(k), 2)
        } else {
            (self.after_mask(k), 2)
        }
    }

    /// An extracode's effect and its MCT count. Extracodes take the whole
    /// 12-bit address field, quarter code included.
    pub open spec fn extracode_executed(self, instruction: u16) -> (Agc, u64) {
        let op = opcode_of(instruction);
        let qc = quarter_code_of(instruction);
        let k = address_of(instruction);
        if op == 0 {
            (self.after_read(k), 2)
        } else if op == 1 {
            if qc == 1 {
                (self.after_bzf(k), 1)
            } else {
                (self.after_dv(k), 6)
            }
        } else if op == 2 {
            if qc == 0 {
                (self.after_msu(k), 2)
            } else if qc == 1 {
                (self.after_dim(k), 2)
            } else if qc == 2 {
                (self.after_aug(k), 2)
            } else {
                (self, 1)
            }
        } else if op == 3 {
            (self.after_dca(k), 3)
        } else if op == 4 {
            (self.after_dcs(k), 3)
        } else if op == 5 {
            if qc == 0 {
                (self.after_index(k), 1)
            } else if qc == 1 {
                if k >= 0o2000 {
                    (self.after_bzmf(k), 1)
                } else {
                    (self.after_su(k), 2)
                }
            } else {
                (self.after_mp(k), 3)
            }
        } else if op == 6 {
            (self.after_su(k), 2)
        } else {
            if qc == 0 {
                (self.after_read(k), 2)
            } else if qc == 1 {
                (self.after_write(k), 2)
            } else if qc == 2 {
                (self.after_rand(k), 2)
            } else {
                (self.after_wand(k), 2)
            }
        }
    }
}

/// Every instruction leaves the frame alone and keeps EXTEND as it is.
pub proof fn lemma_after_frame(s: Agc, k: u16)
    ensures
        ({
            let f = s.frame();
            &&& s.after_tc(k).frame() == f && s.after_tc(k).extend == s.extend
            &&& s.after_ccs(k).frame() == f && s.after_ccs(k).extend == s.extend
            &&& s.after_ca(k).frame() == f && s.after_ca(k).extend == s.extend
            &&& s.after_cs(k).frame() == f && s.after_cs(k).extend == s.extend
            &&& s.after_ad(k).frame() == f && s.after_ad(k).extend == s.extend
            &&& s.after_mask(k).frame() == f && s.after_mask(k).extend == s.extend
            &&& s.after_index(k).frame() == f && s.after_index(k).extend == s.extend
            &&& s.after_ts(k).frame() == f && s.after_ts(k).extend == s.extend
            &&& s.after_xch(k).frame() == f && s.after_xch(k).extend == s.extend
            &&& s.after_lxch(k).frame() == f && s.after_lxch(k).extend == s.extend
            &&& s.after_incr(k).frame() == f && s.after_incr(k).extend == s.extend
            &&& s.after_ads(k).frame() == f && s.after_ads(k).extend == s.extend
            &&& s.after_das(k).frame() == f && s.after_das(k).extend == s.extend
            &&& s.after_dxch(k).frame() == f && s.after_dxch(k).extend == s.extend
            &&& s.after_dca(k).frame() == f && s.after_dca(k).extend == s.extend
            &&& s.after_dcs(k).frame() == f && s.after_dcs(k).extend == s.extend
            &&& s.after_mp(k).frame() == f && s.after_mp(k).extend == s.extend
            &&& s.after_dv(k).frame() == f && s.after_dv(k).extend == s.extend
            &&& s.after_su(k).frame() == f && s.after_su(k).extend == s.extend
            &&& s.after_bzf(k).frame() == f && s.after_bzf(k).extend == s.extend
            &&& s.after_bzmf(k).frame() == f && s.after_bzmf(k).extend == s.extend
            &&& s.after_msu(k).frame() == f && s.after_msu(k).extend == s.extend
            &&& s.after_aug(k).frame() == f && s.after_aug(k).extend == s.extend
            &&& s.after_dim(k).frame() == f && s.after_dim(k).extend == s.extend
            &&& s.after_read(k).frame() == f && s.after_read(k).extend == s.extend
            &&& s.after_write(k).frame() == f && s.after_write(k).extend == s.extend
            &&& s.after_rand(k).frame() == f && s.after_rand(k).extend == s.extend
            &&& s.after_wand(k).frame() == f && s.after_wand(k).extend == s.extend
        }),
{
    broadcast use crate::cpu::lemma_mem_written_frame;
}

/// Instructions leave the frame alone, keep EXTEND as it is, and take
/// between 1 and 6 MCTs.
pub proof fn lemma_executed_frame(s: Agc, instruction: u16)
    ensures
        s.basic_executed(instruction).0.frame() == s.frame(),
        s.basic_executed(instruction).0.extend == s.extend,
        1 <= s.basic_executed(instruction).1 <= 6,
        s.extracode_executed(instruction).0.frame() == s.frame(),
        s.extracode_executed(instruction).0.extend == s.extend,
        1 <= s.extracode_executed(instruction).1 <= 6,
{
    lemma_after_frame(s, address_of(instruction));
    lemma_after_frame(s, address10_of(instruction));
}

// ===== Laws of the instructions =====

/// A word's one's-complement value is its magnitude with the word's sign,
/// and magnitudes stay below 2^14.
pub proof fn lemma_ones_value_magnitude(v: u16)
    ensures
        ones_value(v) == if is_negative(v) {
            -(magnitude(v) as int)
        } else {
            magnitude(v) as int
        },
        magnitude(v) <= 0x3FFF,
{
}

/// A half below 2^14 with a sign applied stands for plus or minus itself.
pub proof fn lemma_signed_half_value(h: u16, negative: bool)
    requires
        h < 0x4000,
    ensures
        ones_value(signed_half(h, negative)) == if negative {
            -(h as int)
        } else {
            h as int
        },
{
}

/// MP multiplies: the double word A,L (A the high 14 bits, L the low 14)
/// stands for the signed product of A and the operand.
pub proof fn lemma_mp_is_signed_product(s: Agc, k: u16)
    ensures
        ones_value(s.after_mp(k).reg_a()) * 0x4000 + ones_value(s.after_mp(k).reg_l())
            == ones_value(s.reg_a()) * ones_value(s.read_mem(k)),
{
    let a = s.reg_a();
    let m = s.read_mem(k);
    crate::cpu::lemma_read_is_word(s, k);
    lemma_ones_value_magnitude(a);
    lemma_ones_value_magnitude(m);
    let ma = magnitude(a) as int;
    let mm = magnitude(m) as int;
    let p = ma * mm;
    assert(0 <= p < 0x4000 * 0x4000) by (nonlinear_arith)
        requires
            0 <= ma <= 0x3FFF,
            0 <= mm <= 0x3FFF,
            p == ma * mm,
    ;
    let hi = p / 0x4000;
    let lo = p % 0x4000;
    assert(hi < 0x4000 && p == hi * 0x4000 + lo);
    let negative = is_negative(a) != is_negative(m);
    lemma_signed_half_value(hi as u16, negative);
    lemma_signed_half_value(lo as u16, negative);
    let va = ones_value(a);
    let vm = ones_value(m);
    assert(va * vm == if negative { -p } else { p }) by (nonlinear_arith)
        requires
            va == (if is_negative(a) { -ma } else { ma }),
            vm == (if is_negative(m) { -mm } else { mm }),
            p == ma * mm,
            negative == (is_negative(a) != is_negative(m)),
    ;
}

/// DV on a non-zero divisor and a double word A,L whose halves share a
/// sign: with n the dividend's magnitude (A's magnitude times 2^14 plus L's)
/// and m the divisor's, A takes the quotient n / m (its low 14 bits), negative
/// exactly when the dividend's and the divisor's signs differ, and L takes
/// the remainder n % m with the dividend's sign.
pub proof fn lemma_dv_signed_quotient(s: Agc, k: u16)
    requires
        s.read_mem(k) != POS_ZERO,
        s.read_mem(k) != NEG_ZERO,
        is_negative(s.reg_l()) == is_negative(s.reg_a()),
    ensures
        ({
            let n = (magnitude(s.reg_a()) as int) * 0x4000 + magnitude(s.reg_l());
            let m = magnitude(s.read_mem(k)) as int;
            let q = (n / m) % 0x4000;
            let r = n % m;
            &&& m > 0
            &&& ones_value(s.after_dv(k).reg_a()) == if is_negative(s.reg_a()) != is_negative(
                s.read_mem(k),
            ) {
                -q
            } else {
                q
            }
            &&& ones_value(s.after_dv(k).reg_l()) == if is_negative(s.reg_a()) {
                -r
            } else {
                r
            }
        }),
{
    let a = s.reg_a();
    let l = s.reg_l();
    let d = s.read_mem(k);
    crate::cpu::lemma_read_is_word(s, k);
    lemma_ones_value_magnitude(a);
    lemma_ones_value_magnitude(l);
    lemma_ones_value_magnitude(d);
    crate::bits::lemma_u32_join();
    let a_neg = is_negative(a);
    let l_mag = if a_neg { negated(l) } else { l };
    assert(l_mag == magnitude(l));
    let dividend = dv_dividend(magnitude(a), l_mag);
    assert(dividend == (magnitude(a) as int) * 0x4000 + magnitude(l));
    let md = magnitude(d) as int;
    assert(md > 0);
    let q = dividend / (md as u32);
    let r = dividend % (md as u32);
    assert(r < md);
    lemma_signed_half_value((q % 0x4000) as u16, a_neg != is_negative(d));
    lemma_signed_half_value((r % 0x4000) as u16, a_neg);
}

/// Signed division on magnitudes: q times the divisor plus r gives back the
/// dividend, with the signs applied as DV applies them.
proof fn lemma_signed_division(n: int, md: int, q: int, r: int, a_neg: bool, d_neg: bool)
    requires
        n == q * md + r,
    ensures
        (if a_neg != d_neg { -q } else { q }) * (if d_neg { -md } else { md }) + (if a_neg {
            -r
        } else {
            r
        }) == (if a_neg { -n } else { n }),
{
    if a_neg {
        if d_neg {
            assert(q * (-md) == -(q * md)) by (nonlinear_arith);
        } else {
            assert((-q) * md == -(q * md)) by (nonlinear_arith);
        }
    } else {
        if d_neg {
            assert((-q) * (-md) == q * md) by (nonlinear_arith);
        }
    }
}

/// DV divides: for a non-zero divisor and a double word A,L whose halves
/// share a sign, with a quotient that fits in 14 bits, A times the divisor
/// plus L gives back the dividend; the remainder is smaller in magnitude
/// than the divisor and has the dividend's sign.
pub proof fn lemma_dv_divides(s: Agc, k: u16)
    requires
        s.read_mem(k) != POS_ZERO,
        s.read_mem(k) != NEG_ZERO,
        is_negative(s.reg_l()) == is_negative(s.reg_a()),
        (magnitude(s.reg_a()) as int) * 0x4000 + magnitude(s.reg_l()) < 0x4000 * (magnitude(
            s.read_mem(k),
        ) as int),
    ensures
        ones_value(s.after_dv(k).reg_a()) * ones_value(s.read_mem(k)) + ones_value(
            s.after_dv(k).reg_l(),
        ) == ones_value(s.reg_a()) * 0x4000 + ones_value(s.reg_l()),
        magnitude(s.after_dv(k).reg_l()) < magnitude(s.read_mem(k)),
        ones_value(s.after_dv(k).reg_l()) * (ones_value(s.reg_a()) * 0x4000 + ones_value(
            s.reg_l(),
        )) >= 0,
{
    lemma_dv_signed_quotient(s, k);
    let a = s.reg_a();
    let d = s.read_mem(k);
    let a_neg = is_negative(a);
    let d_neg = is_negative(d);
    crate::cpu::lemma_read_is_word(s, k);
    lemma_ones_value_magnitude(a);
    lemma_ones_value_magnitude(s.reg_l());
    lemma_ones_value_magnitude(d);
    lemma_ones_value_magnitude(s.after_dv(k).reg_l());
    let n = (magnitude(a) as int) * 0x4000 + magnitude(s.reg_l());
    let md = magnitude(d) as int;
    let q = n / md;
    let r = n % md;
    vstd::arithmetic::div_mod::lemma_fundamental_div_mod(n, md);
    assert(0 <= r < md);
    assert(q < 0x4000) by (nonlinear_arith)
        requires
            n == md * q + r,
            0 <= r,
            n < 0x4000 * md,
            md > 0,
    ;
    assert(q >= 0) by (nonlinear_arith)
        requires
            n == md * q + r,
            r < md,
            n >= 0,
            md > 0,
    ;
    assert(q % 0x4000 == q);
    assert(n == q * md + r) by (nonlinear_arith)
        requires
            n == md * q + r,
    ;
    lemma_signed_division(n, md, q, r, a_neg, d_neg);
    assert(ones_value(s.reg_a()) * 0x4000 + ones_value(s.reg_l()) == if a_neg {
        -n
    } else {
        n
    });
    if a_neg {
        assert((-r) * (-n) >= 0) by (nonlinear_arith)
            requires
                r >= 0,
                n >= 0,
        ;
    } else {
        assert(r * n >= 0) by (nonlinear_arith)
            requires
                r >= 0,
                n >= 0,
        ;
    }
}

/// BZF branches exactly when A stands for zero; BZMF exactly when A stands
/// for zero or a negative number.
pub proof fn lemma_branches_on_sign(s: Agc, k: u16)
    ensures
        s.after_bzf(k).reg_z() == if ones_value(s.reg_a()) == 0 {
            k % 0x1000
        } else {
            s.reg_z()
        },
        s.after_bzmf(k).reg_z() == if ones_value(s.reg_a()) <= 0 {
            k % 0x1000
        } else {
            s.reg_z()
        },
{
}

/// Complementing a word negates the number it stands for.
pub proof fn lemma_negated_value(v: u16)
    ensures
        ones_value(negated(v)) == -ones_value(v),
        word(negated(v)) == negated(v),
{
}

/// Whether `t`'s accumulator holds the one's-complement sum `x` as an adder
/// leaves it: the overflow bit is set exactly when `x` leaves ±16383;
/// without overflow A stands for `x`; after an overflow A's word has bit 15
/// set exactly for a positive one, and with that bit flipped stands for `x`
/// less the carry of +2^14 or −2^14.
pub open spec fn holds_sum(t: Agc, x: int) -> bool {
    &&& t.a_overflow == (x > 0x3FFF || x < -0x3FFF)
    &&& !t.a_overflow ==> ones_value(t.reg_a()) == x
    &&& t.a_overflow && x > 0 ==> t.reg_a() >= 0x4000 && ones_value(flipped_sign(t.reg_a())) == x
        - 0x4000
    &&& t.a_overflow && x < 0 ==> t.reg_a() < 0x4000 && ones_value(flipped_sign(t.reg_a())) == x
        + 0x4000
}

proof fn lemma_sum_into_a(s: Agc, a: u16, b: u16)
    ensures
        holds_sum(
            s.with_reg_a_overflow(overflow_flagged(ones_sum(a, b))),
            ones_value(a) + ones_value(b),
        ),
{
    lemma_add_is_ones_complement(a, b);
    lemma_overflow_carry(a, b);
    lemma_overflow_direction(a, b);
    let r = ones_sum(a, b);
    let t = s.with_reg_a_overflow(overflow_flagged(r));
    assert(t.reg_a() == word(r));
}

/// AD adds the operand to A, with overflow.
pub proof fn lemma_ad_adds(s: Agc, k: u16)
    ensures
        holds_sum(s.after_ad(k), ones_value(s.reg_a()) + ones_value(s.read_mem(k))),
{
    lemma_sum_into_a(s, s.reg_a(), s.read_mem(k));
}

/// SU subtracts the operand from A, with overflow.
pub proof fn lemma_su_subtracts(s: Agc, k: u16)
    ensures
        holds_sum(s.after_su(k), ones_value(s.reg_a()) - ones_value(s.read_mem(k))),
{
    lemma_negated_value(s.read_mem(k));
    lemma_sum_into_a(s, s.reg_a(), negated(s.read_mem(k)));
}

/// CS loads the negated operand and clears the overflow; CA loads the
/// operand itself.
pub proof fn lemma_cs_negates(s: Agc, k: u16)
    ensures
        ones_value(s.after_cs(k).reg_a()) == -ones_value(s.read_mem(k)),
        !s.after_cs(k).a_overflow,
        s.after_ca(k).reg_a() == s.read_mem(k),
        !s.after_ca(k).a_overflow,
{
    lemma_negated_value(s.read_mem(k));
    crate::cpu::lemma_read_is_word(s, k);
}

/// Whether a write through address `k` is read back through `k`: A, L, Q,
/// unswitched erasable memory beyond the registers, or switched erasable
/// memory outside bank E0.
pub open spec fn reads_back(s: Agc, k: u16) -> bool {
    let a = k % 0x1000;
    ||| a == crate::cpu::reg::A || a == crate::cpu::reg::L || a == crate::cpu::reg::Q
    ||| 0o24 <= a <= 0o1377
    ||| 0o1400 <= a <= 0o1777 && s.reg_eb() != 0
}

/// Whether `w` stands one step nearer zero than `v`, with `v`'s sign, where
/// `v` is not a zero; and `w == v` where `v` is +0 or −0.
pub open spec fn one_step_toward_zero(v: u16, w: u16) -> bool {
    &&& ones_value(v) > 0 ==> ones_value(w) == ones_value(v) - 1 && !is_negative(w)
    &&& ones_value(v) < 0 ==> ones_value(w) == ones_value(v) + 1 && is_negative(w)
    &&& (v == POS_ZERO || v == NEG_ZERO) ==> w == v
}

/// Whether `w` stands one step farther from zero than `v`, with `v`'s sign
/// (+0 goes to +1 and −0 to −1).
pub open spec fn one_step_from_zero(v: u16, w: u16) -> bool {
    &&& is_negative(v) ==> ones_value(w) == ones_value(v) - 1 && is_negative(w)
    &&& !is_negative(v) ==> ones_value(w) == ones_value(v) + 1 && !is_negative(w)
}

/// DIM moves its operand one step toward zero, keeping the sign; zeros
/// stay. The word written back through K is such a step, and reading K
/// back gives it wherever a write through K is read back.
pub proof fn lemma_dim_toward_zero(s: Agc, k: u16)
    ensures
        exists|w: u16|
            s.after_dim(k) == s.mem_written(k, w) && one_step_toward_zero(s.read_mem(k), w),
        reads_back(s, k) ==> one_step_toward_zero(s.read_mem(k), s.after_dim(k).read_mem(k)),
{
    let v = s.read_mem(k);
    crate::cpu::lemma_read_is_word(s, k);
    let r = if v == POS_ZERO || v == NEG_ZERO {
        v
    } else if is_negative(v) {
        word((v + 1) as u16)
    } else {
        (v - 1) as u16
    };
    assert(s.after_dim(k) == s.mem_written(k, r) && one_step_toward_zero(v, r));
    if reads_back(s, k) {
        crate::cpu::lemma_read_after_write(s, k, r);
    }
}

/// AUG moves its operand one step away from zero, keeping the sign (+0
/// becomes +1 and −0 becomes −1), as long as the magnitude has room. The
/// word written back through K is such a step, and reading K back gives it
/// wherever a write through K is read back.
pub proof fn lemma_aug_away_from_zero(s: Agc, k: u16)
    requires
        magnitude(s.read_mem(k)) < 0x3FFF,
    ensures
        exists|w: u16|
            s.after_aug(k) == s.mem_written(k, w) && one_step_from_zero(s.read_mem(k), w),
        reads_back(s, k) ==> one_step_from_zero(s.read_mem(k), s.after_aug(k).read_mem(k)),
{
    let v = s.read_mem(k);
    crate::cpu::lemma_read_is_word(s, k);
    let r = if is_negative(v) {
        if v == NEG_ZERO {
            (NEG_ZERO - 1) as u16
        } else {
            (v - 1) as u16
        }
    } else {
        (v + 1) as u16
    };
    assert(s.after_aug(k) == s.mem_written(k, word(r)) && one_step_from_zero(v, word(r)));
    if reads_back(s, k) {
        crate::cpu::lemma_read_after_write(s, k, word(r));
    }
}

/// ADS adds A to the operand: A holds the sum with overflow, and the word
/// written back through K, read back where a write through K is, is A's
/// word.
pub proof fn lemma_ads_adds_to_storage(s: Agc, k: u16)
    ensures
        holds_sum(s.after_ads(k), ones_value(s.reg_a()) + ones_value(s.read_mem(k))),
        reads_back(s, k) ==> s.after_ads(k).read_mem(k) == s.after_ads(k).reg_a(),
{
    let r = ones_sum(s.reg_a(), s.read_mem(k));
    let s1 = s.mem_written(k, word(r));
    lemma_sum_into_a(s1, s.reg_a(), s.read_mem(k));
    if reads_back(s, k) {
        crate::cpu::lemma_read_after_write(s, k, word(r));
        if k % 0x1000 == crate::cpu::reg::A {
            reveal(Agc::spec_read_mem);
        } else {
            crate::cpu::lemma_register_writes_keep_reads(s1, k, overflow_flagged(r));
        }
    }
}

/// CCS loads the diminished absolute value of the operand (its magnitude
/// less one, or 0 for either zero) and skips by its sign: no instruction
/// for a positive number, one for +0, two for a negative number, three for
/// −0.
pub proof fn lemma_ccs_counts_by_sign(s: Agc, k: u16)
    ensures
        ({
            let v = s.read_mem(k);
            let t = s.after_ccs(k);
            &&& !t.a_overflow
            &&& ones_value(v) > 0 ==> ones_value(t.reg_a()) == ones_value(v) - 1 && t.reg_z()
                == s.reg_z()
            &&& v == POS_ZERO ==> t.reg_a() == POS_ZERO && t.reg_z() == (s.reg_z() + 1) % 0x1000
            &&& ones_value(v) < 0 ==> ones_value(t.reg_a()) == -ones_value(v) - 1 && t.reg_z() == (
            s.reg_z() + 2) % 0x1000
            &&& v == NEG_ZERO ==> t.reg_a() == POS_ZERO && t.reg_z() == (s.reg_z() + 3) % 0x1000
        }),
{
    crate::cpu::lemma_read_is_word(s, k);
    lemma_ones_value_magnitude(s.read_mem(k));
}

/// INCR adds one to the operand: below +16383 the word written back
/// through K stands for one more, and reading K back gives it wherever a
/// write through K is read back.
pub proof fn lemma_incr_counts_up(s: Agc, k: u16)
    ensures
        exists|w: u16|
            s.after_incr(k) == s.mem_written(k, w) && (ones_value(s.read_mem(k)) < 0x3FFF
                ==> ones_value(w) == ones_value(s.read_mem(k)) + 1),
        reads_back(s, k) && ones_value(s.read_mem(k)) < 0x3FFF ==> ones_value(
            s.after_incr(k).read_mem(k),
        ) == ones_value(s.read_mem(k)) + 1,
{
    let v = s.read_mem(k);
    crate::cpu::lemma_read_is_word(s, k);
    lemma_add_is_ones_complement(v, 1);
    let w = word(ones_sum(v, 1));
    assert(s.after_incr(k) == s.mem_written(k, w));
    if reads_back(s, k) {
        crate::cpu::lemma_read_after_write(s, k, w);
    }
}

/// XCH swaps A and the operand; LXCH swaps L and the operand.
pub proof fn lemma_exchanges_swap(s: Agc, k: u16)
    ensures
        s.after_xch(k).reg_a() == s.read_mem(k),
        !s.after_xch(k).a_overflow,
        reads_back(s, k) && k % 0x1000 != crate::cpu::reg::A ==> s.after_xch(k).read_mem(k)
            == s.reg_a(),
        s.after_lxch(k).reg_l() == s.read_mem(k),
        reads_back(s, k) && k % 0x1000 != crate::cpu::reg::L ==> s.after_lxch(k).read_mem(k)
            == s.reg_l(),
{
    crate::cpu::lemma_read_is_word(s, k);
    if reads_back(s, k) {
        let v = s.read_mem(k);
        crate::cpu::lemma_read_after_write(s, k, s.reg_a());
        crate::cpu::lemma_register_writes_keep_reads(s.mem_written(k, s.reg_a()), k, v);
        crate::cpu::lemma_read_after_write(s, k, s.reg_l());
        crate::cpu::lemma_register_writes_keep_reads(s.mem_written(k, s.reg_l()), k, v);
    }
}

/// TS after an addition: without overflow the operand takes A and A stays;
/// after an overflow of a sum `x`, the operand and A together hold `x` as a
/// double word (A the carry of ±1 in units of 2^14, the operand the rest).
pub proof fn lemma_ts_stores_sum(s: Agc, k: u16, x: int)
    requires
        holds_sum(s, x),
        reads_back(s, k),
        k % 0x1000 != crate::cpu::reg::A,
    ensures
        !s.a_overflow ==> s.after_ts(k).read_mem(k) == s.reg_a() && s.after_ts(k).reg_a()
            == s.reg_a(),
        s.a_overflow ==> ones_value(s.after_ts(k).read_mem(k)) + 0x4000 * ones_value(
            s.after_ts(k).reg_a(),
        ) == x,
{
    let a = s.reg_a();
    if s.a_overflow {
        let fl = flipped_sign(a);
        let s1 = s.mem_written(k, fl);
        crate::cpu::lemma_read_after_write(s, k, fl);
        assert(s1.read_mem(k) == fl);
        let na: u16 = if a >= 0x4000 { 1u16 } else { 0x7FFEu16 };
        crate::cpu::lemma_register_writes_keep_reads(s1, k, na);
        let s2 = s1.with_reg_a(na);
        assert(s2.read_mem(k) == fl);
        let nz = (s2.reg_z() + 1) as u16;
        crate::cpu::lemma_register_writes_keep_reads(s2, k, nz);
        let t = s2.with_reg_z(nz);
        assert(t == s.after_ts(k));
        assert(t.read_mem(k) == fl);
        assert(t.reg_a() == na);
        if a >= 0x4000 {
            assert(x > 0);
        } else {
            assert(x < 0);
        }
    } else {
        crate::cpu::lemma_read_after_write(s, k, a);
    }
}

/// DCA loads the double word at K into A,L; DCS loads it negated.
pub proof fn lemma_double_loads(s: Agc, k: u16)
    ensures
        s.after_dca(k).reg_a() == s.read_mem(even_addr(k)),
        s.after_dca(k).reg_l() == s.read_mem((even_addr(k) + 1) as u16),
        ones_value(s.after_dcs(k).reg_a()) == -ones_value(s.read_mem(even_addr(k))),
        ones_value(s.after_dcs(k).reg_l()) == -ones_value(s.read_mem((even_addr(k) + 1) as u16)),
{
    crate::cpu::lemma_read_is_word(s, even_addr(k));
    crate::cpu::lemma_read_is_word(s, (even_addr(k) + 1) as u16);
    lemma_negated_value(s.read_mem(even_addr(k)));
    lemma_negated_value(s.read_mem((even_addr(k) + 1) as u16));
}

/// The number a 15-bit word stands for in two's complement.
pub open spec fn twos_value(v: u16) -> int {
    let w = word(v);
    if w >= 0x4000 {
        w - 0x8000
    } else {
        w as int
    }
}

/// A value in −2^15..2^15 brought into −2^14..2^14 − 1 modulo 2^15.
pub open spec fn wrapped15(d: int) -> int {
    if d >= 0x4000 {
        d - 0x8000
    } else if d < -0x4000 {
        d + 0x8000
    } else {
        d
    }
}

/// MSU subtracts in two's complement modulo 2^15 and leaves the difference
/// in one's complement: A stands for the wrapped difference, except for
/// −16384, which one's complement cannot hold.
pub proof fn lemma_msu_modular_difference(s: Agc, k: u16)
    ensures
        wrapped15(twos_value(s.reg_a()) - twos_value(s.read_mem(k))) != -0x4000 ==> ones_value(
            s.after_msu(k).reg_a(),
        ) == wrapped15(twos_value(s.reg_a()) - twos_value(s.read_mem(k))),
        !s.after_msu(k).a_overflow,
{
    crate::cpu::lemma_read_is_word(s, k);
}

/// Whether the double word at K (its even address and the next) lies where
/// writes are read back and neither half aliases the other: in unswitched
/// erasable memory beyond the registers, or in switched erasable memory
/// outside bank E0.
pub open spec fn pair_reads_back(s: Agc, k: u16) -> bool {
    let h = even_addr(k) % 0x1000;
    ||| 0o24 <= h && h + 1 <= 0o1377
    ||| 0o1400 <= h && h + 1 <= 0o1777 && s.reg_eb() != 0
}

/// The number a double word stands for: the high half in units of 2^14
/// plus the low half.
pub open spec fn dp_value(hi: u16, lo: u16) -> int {
    ones_value(hi) * 0x4000 + ones_value(lo)
}

proof fn lemma_pair_addresses(s: Agc, k: u16)
    requires
        pair_reads_back(s, k),
    ensures
        ((even_addr(k) + 1) as u16) % 0x1000 == even_addr(k) % 0x1000 + 1,
        reads_back(s, even_addr(k)),
        reads_back(s, (even_addr(k) + 1) as u16),
{
}

/// DXCH swaps A,L and the double word at K.
pub proof fn lemma_dxch_swaps(s: Agc, k: u16)
    requires
        pair_reads_back(s, k),
    ensures
        s.after_dxch(k).reg_a() == s.read_mem(even_addr(k)),
        s.after_dxch(k).reg_l() == s.read_mem((even_addr(k) + 1) as u16),
        s.after_dxch(k).read_mem(even_addr(k)) == s.reg_a(),
        s.after_dxch(k).read_mem((even_addr(k) + 1) as u16) == s.reg_l(),
{
    let kk = even_addr(k);
    let k1 = (kk + 1) as u16;
    lemma_pair_addresses(s, k);
    let hi = s.read_mem(kk);
    let lo = s.read_mem(k1);
    crate::cpu::lemma_read_is_word(s, kk);
    crate::cpu::lemma_read_is_word(s, k1);
    let s1 = s.mem_written(kk, s.reg_a());
    crate::cpu::lemma_read_after_write(s, kk, s.reg_a());
    let s2 = s1.mem_written(k1, s.reg_l());
    crate::cpu::lemma_read_after_write(s1, k1, s.reg_l());
    crate::cpu::lemma_write_keeps_other_reads(s1, k1, kk, s.reg_l());
    let s3 = s2.with_reg_a(hi);
    crate::cpu::lemma_register_writes_keep_reads(s2, kk, hi);
    crate::cpu::lemma_register_writes_keep_reads(s2, k1, hi);
    crate::cpu::lemma_register_writes_keep_reads(s3, kk, lo);
    crate::cpu::lemma_register_writes_keep_reads(s3, k1, lo);
}

/// DAS adds A,L into the double word at K: where neither the high halves'
/// sum nor that sum with the low halves' carry leaves ±16383, the double
/// word read back stands for its old value plus A,L; A and L are left +0.
#[verifier::spinoff_prover]
#[verifier::rlimit(50)]
pub proof fn lemma_das_adds_double(s: Agc, k: u16)
    requires
        pair_reads_back(s, k),
        ({
            let sh = ones_value(s.reg_a()) + ones_value(s.read_mem(even_addr(k)));
            let sl = ones_value(s.reg_l()) + ones_value(s.read_mem((even_addr(k) + 1) as u16));
            let c: int = if sl > 0x3FFF {
                1
            } else if sl < -0x3FFF {
                -1
            } else {
                0
            };
            &&& -0x3FFF <= sh <= 0x3FFF
            &&& -0x3FFF <= sh + c <= 0x3FFF
        }),
    ensures
        dp_value(
            s.after_das(k).read_mem(even_addr(k)),
            s.after_das(k).read_mem((even_addr(k) + 1) as u16),
        ) == dp_value(s.reg_a(), s.reg_l()) + dp_value(
            s.read_mem(even_addr(k)),
            s.read_mem((even_addr(k) + 1) as u16),
        ),
        s.after_das(k).reg_a() == POS_ZERO,
        s.after_das(k).reg_l() == POS_ZERO,
{
    let kk = even_addr(k);
    let k1 = (kk + 1) as u16;
    lemma_pair_addresses(s, k);
    let hi = s.read_mem(kk);
    let lo = s.read_mem(k1);
    let lo_sum = ones_sum(s.reg_l(), lo);
    let carry: u16 = if !overflowed(lo_sum) {
        0
    } else if lo_sum >= 0x8000 {
        0x7FFE
    } else {
        1
    };
    let sc = sign_corrected(lo_sum);
    let h2 = ones_sum(word(ones_sum(s.reg_a(), hi)), carry);
    lemma_das_halves(s.reg_a(), s.reg_l(), hi, lo);
    lemma_pair_written(s, k, sc, word(h2));
}

/// Writing the low half and then the high half of a double word that reads
/// back, and then clearing A and L, reads back both halves.
proof fn lemma_pair_written(s: Agc, k: u16, lo_w: u16, hi_w: u16)
    requires
        pair_reads_back(s, k),
    ensures
        ({
            let kk = even_addr(k);
            let k1 = (kk + 1) as u16;
            let t = s.mem_written(k1, lo_w).mem_written(kk, hi_w).with_reg_a(0).with_reg_l(0);
            &&& t.read_mem(kk) == word(hi_w)
            &&& t.read_mem(k1) == word(lo_w)
            &&& t.reg_a() == 0
            &&& t.reg_l() == 0
        }),
{
    let kk = even_addr(k);
    let k1 = (kk + 1) as u16;
    lemma_pair_addresses(s, k);
    let s1 = s.mem_written(k1, lo_w);
    crate::cpu::lemma_read_after_write(s, k1, lo_w);
    let s2 = s1.mem_written(kk, hi_w);
    crate::cpu::lemma_read_after_write(s1, kk, hi_w);
    crate::cpu::lemma_write_keeps_other_reads(s1, kk, k1, hi_w);
    let s3 = s2.with_reg_a(0);
    crate::cpu::lemma_register_writes_keep_reads(s2, kk, 0);
    crate::cpu::lemma_register_writes_keep_reads(s2, k1, 0);
    assert(s3.reg_eb() == s2.reg_eb());
    crate::cpu::lemma_register_writes_keep_reads(s3, kk, 0);
    crate::cpu::lemma_register_writes_keep_reads(s3, k1, 0);
}

/// The halves DAS writes: the low half stands for the low sum less its
/// carry of ±2^14, and, where the high sums stay within ±16383, the high
/// half for the high sum plus that carry.
#[verifier::spinoff_prover]
proof fn lemma_das_halves(a: u16, l: u16, hi: u16, lo: u16)
    ensures
        ({
            let lo_sum = ones_sum(l, lo);
            let carry: u16 = if !overflowed(lo_sum) {
                0
            } else if lo_sum >= 0x8000 {
                0x7FFE
            } else {
                1
            };
            let sl = ones_value(l) + ones_value(lo);
            let sh = ones_value(a) + ones_value(hi);
            let c: int = if sl > 0x3FFF {
                1
            } else if sl < -0x3FFF {
                -1
            } else {
                0
            };
            let h2 = ones_sum(word(ones_sum(a, hi)), carry);
            &&& ones_value(word(sign_corrected(lo_sum))) == sl - c * 0x4000
            &&& -0x3FFF <= sh <= 0x3FFF && -0x3FFF <= sh + c <= 0x3FFF ==> ones_value(word(h2))
                == sh + c
        }),
{
    let lo_sum = ones_sum(l, lo);
    lemma_add_is_ones_complement(l, lo);
    lemma_overflow_carry(l, lo);
    let carry: u16 = if !overflowed(lo_sum) {
        0
    } else if lo_sum >= 0x8000 {
        0x7FFE
    } else {
        1
    };
    let sl = ones_value(l) + ones_value(lo);
    let c: int = if sl > 0x3FFF {
        1
    } else if sl < -0x3FFF {
        -1
    } else {
        0
    };
    assert(ones_value(carry) == c);
    lemma_sum_of_sum(a, hi, carry);
}

/// Adding a third word to the word of a sum adds the numbers, where
/// neither sum leaves ±16383.
proof fn lemma_sum_of_sum(a: u16, b: u16, c: u16)
    ensures
        -0x3FFF <= ones_value(a) + ones_value(b) <= 0x3FFF && -0x3FFF <= ones_value(a)
            + ones_value(b) + ones_value(c) <= 0x3FFF ==> ones_value(
            word(ones_sum(word(ones_sum(a, b)), c)),
        ) == ones_value(a) + ones_value(b) + ones_value(c),
{
    lemma_add_is_ones_complement(a, b);
    let h1 = word(ones_sum(a, b));
    lemma_add_is_ones_complement(h1, c);
}

/// WRITE then READ of the same existing channel gives A back; WRITE
/// changes no other channel; READ and RAND leave the channels alone, and
/// RAND keeps in A only bits that both A and the channel have; WAND leaves
/// the same word, made only of such bits, in A and in the channel.
pub proof fn lemma_channel_instructions(s: Agc, k: u16, other: u16)
    requires
        (k as int) < crate::io::NUM_CHANNELS,
        other != k,
    ensures
        s.after_write(k).after_read(k).reg_a() == s.reg_a(),
        s.after_write(k).io.channel_word(other as int) == s.io.channel_word(other as int),
        s.after_read(k).io == s.io,
        s.after_rand(k).io == s.io,
        s.after_rand(k).reg_a() & s.reg_a() == s.after_rand(k).reg_a(),
        s.after_rand(k).reg_a() & s.io.channel_word(k as int) == s.after_rand(k).reg_a(),
        s.after_wand(k).reg_a() == s.after_wand(k).io.channel_word(k as int),
        s.after_wand(k).reg_a() & s.reg_a() == s.after_wand(k).reg_a(),
        s.after_wand(k).reg_a() & s.io.channel_word(k as int) == s.after_wand(k).reg_a(),
{
    let a = s.reg_a();
    let c = s.io.channels[k as int];
    assert(((a & (c & 0x7FFF)) & 0x7FFF) & a == (a & (c & 0x7FFF)) & 0x7FFF) by (bit_vector);
    assert(((a & (c & 0x7FFF)) & 0x7FFF) & (c & 0x7FFF) == (a & (c & 0x7FFF)) & 0x7FFF)
        by (bit_vector);
    assert(((c & a) & 0x7FFF) & a == (c & a) & 0x7FFF) by (bit_vector);
    assert(((c & a) & 0x7FFF) & (c & 0x7FFF) == (c & a) & 0x7FFF) by (bit_vector);
    assert(((c & a) & 0x7FFF) & 0x7FFF == (c & a) & 0x7FFF) by (bit_vector);
    lemma_u16_masks();
}

/// MASK keeps in A exactly the bits that both A and the operand have.
pub proof fn lemma_mask_keeps_common_bits(s: Agc, k: u16)
    ensures
        s.after_mask(k).reg_a() & s.reg_a() == s.after_mask(k).reg_a(),
        s.after_mask(k).reg_a() & s.read_mem(k) == s.after_mask(k).reg_a(),
        (s.reg_a() & s.read_mem(k)) & s.after_mask(k).reg_a() == s.reg_a() & s.read_mem(k),
        !s.after_mask(k).a_overflow,
{
    let a = s.reg_a();
    let m = s.read_mem(k);
    crate::cpu::lemma_read_is_word(s, k);
    assert(a < 0x8000 && m < 0x8000);
    assert(a < 0x8000 ==> ((a & m) & 0x7FFF) & a == (a & m) & 0x7FFF) by (bit_vector);
    assert(((a & m) & 0x7FFF) & m == (a & m) & 0x7FFF) by (bit_vector);
    assert(a < 0x8000 ==> (a & m) & ((a & m) & 0x7FFF) == a & m) by (bit_vector);
    assert(((a & m) & 0x7FFF) & 0x7FFF == (a & m) & 0x7FFF) by (bit_vector);
    lemma_u16_masks();
}

/// INDEX 17 (INHINT) blocks every poll until RELINT; INDEX 16 (RELINT)
/// enables interrupts. Neither touches the pending requests.
pub proof fn lemma_inhint_relint(s: Agc)
    ensures
        s.after_index(0o17).interrupts.polled() is None,
        s.after_index(0o17).interrupts.pending == s.interrupts.pending,
        s.after_index(0o16).interrupts.enabled,
        s.after_index(0o16).interrupts.pending == s.interrupts.pending,
        s.after_index(0o17).after_index(0o16).interrupts == (
        crate::interrupts::InterruptController { enabled: true, ..s.interrupts }),
{
}

// ===== Execution =====

/// Execute a basic (non-extracode) instruction; returns the MCTs it takes.
pub fn execute_basic(agc: &mut Agc, instruction: u16) -> (mcts: u64)
    ensures
        (*final(agc), mcts) == old(agc).basic_executed(instruction),
{
    let op = opcode(instruction);
    let qc = quarter_code(instruction);
    let addr = address_field(instruction);
    let addr10 = address_field_10(instruction);
    if op == 0o0 {
        exec_tc(agc, addr)
    } else if op == 0o1 {
        exec_ccs(agc, addr)
    } else if op == 0o2 {
        if qc == 0o0 {
            exec_das(agc, addr10)
        } else if qc == 0o1 {
            exec_lxch(agc, addr10)
        } else if qc == 0o2 {
            exec_incr(agc, addr10)
        } else {
            exec_ads(agc, addr10)
        }
    } else if op == 0o3 {
        exec_ca(agc, addr)
    } else if op == 0o4 {
        exec_cs(agc, addr)
    } else if op == 0o5 {
        if qc == 0o0 {
            exec_index(agc, addr10)
        } else if qc == 0o1 {
            exec_dxch(agc, addr10)
        } else if qc == 0o2 {
            exec_ts(agc, addr10)
        } else {
            exec_xch(agc, addr10)
        }
    } else if op == 0o6 {
        exec_ad(agc, addr)
    } else {
        exec_mask(agc, addr)
    }
}

/// Execute an extracode (an instruction after EXTEND); returns the MCTs it
/// takes.
pub fn execute_extracode(agc: &mut Agc, instruction: u16) -> (mcts: u64)
    ensures
        (*final(agc), mcts) == old(agc).extracode_executed(instruction),
{
    let op = opcode(instruction);
    let qc = quarter_code(instruction);
    let addr = address_field(instruction);
    if op == 0o0 {
        exec_read(agc, addr)
    } else if op == 0o1 {
        if qc == 0o1 {
            exec_bzf(agc, addr)
        } else {
            exec_dv(agc, addr)
        }
    } else if op == 0o2 {
        if qc == 0o0 {
            exec_msu(agc, addr)
        } else if qc == 0o1 {
            exec_dim(agc, addr)
        } else if qc == 0o2 {
            exec_aug(agc, addr)
        } else {
            1
        }
    } else if op == 0o3 {
        exec_dca(agc, addr)
    } else if op == 0o4 {
        exec_dcs(agc, addr)
    } else if op == 0o5 {
        if qc == 0o0 {
            exec_index(agc, addr)
        } else if qc == 0o1 {
            if addr >= 0o2000 {
                exec_bzmf(agc, addr)
            } else {
                exec_su(agc, addr)
            }
        } else {
            exec_mp(agc, addr)
        }
    } else if op == 0o6 {
        exec_su(agc, addr)
    } else {
        if qc == 0o0 {
            exec_read(agc, addr)
        } else if qc == 0o1 {
            exec_write(agc, addr)
        } else if qc == 0o2 {
            exec_rand(agc, addr)
        } else {
            exec_wand(agc, addr)
        }
    }
}

// ===== Basic instructions =====

/// TC (Transfer Control): jump to K, return address to Q.
fn exec_tc(agc: &mut Agc, addr: u16) -> (mcts: u64)
    ensures
        *final(agc) == old(agc).after_tc(addr),
        mcts == 1,
{
    let target = addr;
    let z = agc.reg_z();
    agc.write_reg_q(z);
    agc.set_reg_z(target);
    1
}

/// CCS (Count, Compare, and Skip): four-way branch on the operand.
fn exec_ccs(agc: &mut Agc, addr: u16) -> (mcts: u64)
    ensures
        *final(agc) == old(agc).after_ccs(addr),
        mcts == 2,
{
    proof {
        lemma_u16_masks();
    }
    let val = agc.read_mem(addr);
    let dabs = diminished_abs(val);
    agc.set_reg_a(dabs);
    let v = val & WORD_MASK;
    let skip: u16 = if v != POS_ZERO && (v & SIGN_BIT) == 0 {
        0
    } else if v == POS_ZERO {
        1
    } else if v != NEG_ZERO && (v & SIGN_BIT) != 0 {
        2
    } else {
        3
    };
    let z = agc.reg_z();
    agc.set_reg_z(z + skip);
    2
}

/// CA (Clear and Add): A takes the operand.
fn exec_ca(agc: &mut Agc, addr: u16) -> (mcts: u64)
    ensures
        *final(agc) == old(agc).after_ca(addr),
        mcts == 2,
{
    let val = agc.read_mem(addr);
    agc.set_reg_a(val);
    2
}

/// CS (Clear and Subtract): A takes the complemented operand.
fn exec_cs(agc: &mut Agc, addr: u16) -> (mcts: u64)
    ensures
        *final(agc) == old(agc).after_cs(addr),
        mcts == 2,
{
    let val = agc.read_mem(addr);
    agc.set_reg_a(ones_complement_negate(val));
    2
}

/// AD (Add): A takes A plus the operand.
fn exec_ad(agc: &mut Agc, addr: u16) -> (mcts: u64)
    ensures
        *final(agc) == old(agc).after_ad(addr),
        mcts == 2,
{
    let val = agc.read_mem(addr);
    let a = agc.reg_a();
    let result = ones_complement_add(a, val);
    agc.set_reg_a_with_overflow(flag_overflow(result));
    2
}

/// MASK: A takes A AND the operand.
fn exec_mask(agc: &mut Agc, addr: u16) -> (mcts: u64)
    ensures
        *final(agc) == old(agc).after_mask(addr),
        mcts == 2,
{
    proof {
        lemma_u16_masks();
    }
    let val = agc.read_mem(addr);
    let a = agc.reg_a();
    agc.set_reg_a((a & val) & WORD_MASK);
    2
}

/// INDEX: add the operand to the next instruction; INHINT, RELINT and
/// RESUME at addresses 17, 16 and 25.
fn exec_index(agc: &mut Agc, addr: u16) -> (mcts: u64)
    ensures
        *final(agc) == old(agc).after_index(addr),
        mcts == 1,
{
    if addr == 0o17 {
        agc.interrupts.inhibit();
        1
    } else if addr == 0o16 {
        agc.interrupts.release();
        1
    } else if addr == 0o25 {
        let (a, l, q, bb, z) = agc.interrupts.exit_isr();
        agc.set_reg_a(a);
        agc.set_reg_l(l);
        agc.write_reg_q(q);
        agc.set_reg_bb(bb);
        agc.set_reg_z(z);
        1
    } else {
        let index_val = agc.read_mem(addr);
        agc.index_value = Some(index_val);
        1
    }
}

/// TS (Transfer to Storage): the operand takes A; when A's overflow bit is
/// set, the stored word is sign-corrected, A becomes +1 (positive overflow)
/// or −1 (negative overflow), and the next instruction is skipped.
fn exec_ts(agc: &mut Agc, addr: u16) -> (mcts: u64)
    ensures
        *final(agc) == old(agc).after_ts(addr),
        mcts == 2,
{
    proof {
        lemma_u16_masks();
    }
    let a = agc.reg_a_with_overflow();
    if a & 0x8000 != 0 {
        let w = a & WORD_MASK;
        let corrected = if w & SIGN_BIT != 0 { w - SIGN_BIT } else { w + SIGN_BIT };
        agc.write_mem(addr, corrected);
        if w & SIGN_BIT != 0 {
            agc.set_reg_a(0x0001);
        } else {
            agc.set_reg_a(NEG_ZERO - 1);
        }
        let z = agc.reg_z();
        agc.set_reg_z(z + 1);
    } else {
        agc.write_mem(addr, a & WORD_MASK);
    }
    2
}

/// XCH (Exchange): A and the operand swap.
fn exec_xch(agc: &mut Agc, addr: u16) -> (mcts: u64)
    ensures
        *final(agc) == old(agc).after_xch(addr),
        mcts == 2,
{
    let mem_val = agc.read_mem(addr);
    let a_val = agc.reg_a();
    agc.write_mem(addr, a_val);
    agc.set_reg_a(mem_val);
    2
}

/// LXCH (L Exchange): L and the operand swap.
fn exec_lxch(agc: &mut Agc, addr: u16) -> (mcts: u64)
    ensures
        *final(agc) == old(agc).after_lxch(addr),
        mcts == 2,
{
    let mem_val = agc.read_mem(addr);
    let l_val = agc.reg_l();
    agc.write_mem(addr, l_val);
    agc.set_reg_l(mem_val);
    2
}

/// INCR: the operand goes up by one.
fn exec_incr(agc: &mut Agc, addr: u16) -> (mcts: u64)
    ensures
        *final(agc) == old(agc).after_incr(addr),
        mcts == 2,
{
    proof {
        lemma_u16_masks();
    }
    let val = agc.read_mem(addr);
    let result = ones_complement_add(val, 1);
    agc.write_mem(addr, result & WORD_MASK);
    2
}

/// ADS (Add to Storage): operand and A take A plus the operand.
fn exec_ads(agc: &mut Agc, addr: u16) -> (mcts: u64)
    ensures
        *final(agc) == old(agc).after_ads(addr),
        mcts == 2,
{
    proof {
        lemma_u16_masks();
    }
    let val = agc.read_mem(addr);
    let a = agc.reg_a();
    let result = ones_complement_add(a, val);
    agc.write_mem(addr, result & WORD_MASK);
    agc.set_reg_a_with_overflow(flag_overflow(result));
    2
}

/// DAS (Double Add to Storage).
fn exec_das(agc: &mut Agc, addr: u16) -> (mcts: u64)
    requires
        addr < 0x1000,
    ensures
        *final(agc) == old(agc).after_das(addr),
        mcts == 3,
{
    proof {
        lemma_u16_masks();
    }
    let k = addr & 0xFFFE;
    let a = agc.reg_a();
    let l = agc.reg_l();
    let mem_hi = agc.read_mem(k);
    let mem_lo = agc.read_mem(k + 1);
    let lo_sum = ones_complement_add(l, mem_lo);
    let carry: u16 = if !has_overflow(lo_sum) {
        0
    } else if lo_sum & 0x8000 != 0 {
        NEG_ZERO - 1
    } else {
        1
    };
    agc.write_mem(k + 1, sign_correct(lo_sum));
    let hi_sum = ones_complement_add(a, mem_hi);
    let hi_sum = ones_complement_add(hi_sum & WORD_MASK, carry);
    agc.write_mem(k, hi_sum & WORD_MASK);
    agc.set_reg_a(POS_ZERO);
    agc.set_reg_l(POS_ZERO);
    3
}

/// DXCH (Double Exchange): A,L and the double word at K swap.
fn exec_dxch(agc: &mut Agc, addr: u16) -> (mcts: u64)
    requires
        addr < 0x1000,
    ensures
        *final(agc) == old(agc).after_dxch(addr),
        mcts == 3,
{
    proof {
        lemma_u16_masks();
    }
    let k = addr & 0xFFFE;
    let a = agc.reg_a();
    let l = agc.reg_l();
    let mem_hi = agc.read_mem(k);
    let mem_lo = agc.read_mem(k + 1);
    agc.write_mem(k, a);
    agc.write_mem(k + 1, l);
    agc.set_reg_a(mem_hi);
    agc.set_reg_l(mem_lo);
    3
}

// ===== Extracodes =====

/// DCA (Double Clear and Add).
fn exec_dca(agc: &mut Agc, addr: u16) -> (mcts: u64)
    requires
        addr < 0x1000,
    ensures
        *final(agc) == old(agc).after_dca(addr),
        mcts == 3,
{
    proof {
        lemma_u16_masks();
    }
    let k = addr & 0xFFFE;
    let hi = agc.read_mem(k);
    let lo = agc.read_mem(k + 1);
    agc.set_reg_a(hi);
    agc.set_reg_l(lo);
    3
}

/// DCS (Double Clear and Subtract).
fn exec_dcs(agc: &mut Agc, addr: u16) -> (mcts: u64)
    requires
        addr < 0x1000,
    ensures
        *final(agc) == old(agc).after_dcs(addr),
        mcts == 3,
{
    proof {
        lemma_u16_masks();
    }
    let k = addr & 0xFFFE;
    let hi = agc.read_mem(k);
    let lo = agc.read_mem(k + 1);
    agc.set_reg_a(ones_complement_negate(hi));
    agc.set_reg_l(ones_complement_negate(lo));
    3
}

/// MP (Multiply).
fn exec_mp(agc: &mut Agc, addr: u16) -> (mcts: u64)
    ensures
        *final(agc) == old(agc).after_mp(addr),
        mcts == 3,
{
    proof {
        lemma_u16_masks();
        lemma_u32_masks();
    }
    let a_val = agc.reg_a();
    let k_val = agc.read_mem(addr);
    let a_sign = a_val & SIGN_BIT != 0;
    let k_sign = k_val & SIGN_BIT != 0;
    let a_mag = (if a_sign { ones_complement_negate(a_val) } else { a_val }) as u32;
    let k_mag = (if k_sign { ones_complement_negate(k_val) } else { k_val }) as u32;
    assert(a_mag * k_mag <= 0x3FFF * 0x3FFF) by (nonlinear_arith)
        requires
            a_mag <= 0x3FFF,
            k_mag <= 0x3FFF,
    ;
    let product = a_mag * k_mag;
    let result_sign = a_sign != k_sign;
    let hi = ((product >> 14) & 0x3FFF) as u16;
    let lo = (product & 0x3FFF) as u16;
    let hi = if result_sign && hi != 0 { ones_complement_negate(hi) } else { hi };
    let lo = if result_sign && lo != 0 { ones_complement_negate(lo) } else { lo };
    agc.set_reg_a(hi & WORD_MASK);
    agc.set_reg_l(lo & WORD_MASK);
    3
}

/// DV (Divide).
#[verifier::spinoff_prover]
#[verifier::rlimit(40)]
fn exec_dv(agc: &mut Agc, addr: u16) -> (mcts: u64)
    ensures
        *final(agc) == old(agc).after_dv(addr),
        mcts == 6,
{
    proof {
        lemma_u16_masks();
        lemma_u32_masks();
    }
    let k_val = agc.read_mem(addr);
    let a_val = agc.reg_a();
    let l_val = agc.reg_l();
    if k_val == POS_ZERO || k_val == NEG_ZERO {
        agc.set_reg_a(if a_val & SIGN_BIT != 0 { NEG_ZERO } else { 0x3FFF });
        agc.set_reg_l(POS_ZERO);
        return 6;
    }
    let a_sign = a_val & SIGN_BIT != 0;
    let k_sign = k_val & SIGN_BIT != 0;
    let a_mag = (if a_sign { ones_complement_negate(a_val) } else { a_val }) as u32;
    let l_mag = (if a_sign { ones_complement_negate(l_val) } else { l_val }) as u32;
    let k_mag = (if k_sign { ones_complement_negate(k_val) } else { k_val }) as u32;
    let dividend = (a_mag << 14) | l_mag;
    let quotient = if k_mag != 0 { dividend / k_mag } else { 0x3FFF };
    let remainder = if k_mag != 0 { dividend % k_mag } else { 0 };
    let q_sign = a_sign != k_sign;
    let q = (quotient & 0x3FFF) as u16;
    let r = (remainder & 0x3FFF) as u16;
    let q = if q_sign && q != 0 { ones_complement_negate(q) } else { q };
    let r = if a_sign && r != 0 { ones_complement_negate(r) } else { r };
    agc.set_reg_a(q & WORD_MASK);
    agc.set_reg_l(r & WORD_MASK);
    6
}

/// SU (Subtract): A takes A minus the operand.
fn exec_su(agc: &mut Agc, addr: u16) -> (mcts: u64)
    ensures
        *final(agc) == old(agc).after_su(addr),
        mcts == 2,
{
    let val = agc.read_mem(addr);
    let a = agc.reg_a();
    let neg_val = ones_complement_negate(val);
    let result = ones_complement_add(a, neg_val);
    agc.set_reg_a_with_overflow(flag_overflow(result));
    2
}

/// BZF (Branch Zero to Fixed).
fn exec_bzf(agc: &mut Agc, addr: u16) -> (mcts: u64)
    ensures
        *final(agc) == old(agc).after_bzf(addr),
        mcts == 1,
{
    let a = agc.reg_a();
    if a == POS_ZERO || a == NEG_ZERO {
        agc.set_reg_z(addr);
    }
    1
}

/// BZMF (Branch Zero or Minus to Fixed).
fn exec_bzmf(agc: &mut Agc, addr: u16) -> (mcts: u64)
    ensures
        *final(agc) == old(agc).after_bzmf(addr),
        mcts == 1,
{
    proof {
        lemma_u16_masks();
    }
    let a = agc.reg_a();
    if a == POS_ZERO || a == NEG_ZERO || (a & SIGN_BIT) != 0 {
        agc.set_reg_z(addr);
    }
    1
}

/// MSU (Modular Subtract): two's-complement subtraction modulo 2^15, the
/// result turned back into one's complement.
fn exec_msu(agc: &mut Agc, addr: u16) -> (mcts: u64)
    ensures
        *final(agc) == old(agc).after_msu(addr),
        mcts == 2,
{
    proof {
        lemma_u16_masks();
    }
    let val = agc.read_mem(addr);
    let a = agc.reg_a();
    let diff = a.wrapping_sub(val) & WORD_MASK;
    let result = if diff & SIGN_BIT != 0 { diff - 1 } else { diff };
    agc.set_reg_a(result);
    2
}

/// AUG (Augment): the operand's magnitude goes up by one.
fn exec_aug(agc: &mut Agc, addr: u16) -> (mcts: u64)
    ensures
        *final(agc) == old(agc).after_aug(addr),
        mcts == 2,
{
    proof {
        lemma_u16_masks();
    }
    let val = agc.read_mem(addr);
    let result = if val & SIGN_BIT != 0 {
        if val == NEG_ZERO {
            NEG_ZERO - 1
        } else {
            val - 1
        }
    } else {
        val + 1
    };
    agc.write_mem(addr, result & WORD_MASK);
    2
}

/// DIM (Diminish): the operand's magnitude goes down by one.
fn exec_dim(agc: &mut Agc, addr: u16) -> (mcts: u64)
    ensures
        *final(agc) == old(agc).after_dim(addr),
        mcts == 2,
{
    proof {
        lemma_u16_masks();
    }
    let val = agc.read_mem(addr);
    let result = if val == POS_ZERO || val == NEG_ZERO {
        val
    } else if val & SIGN_BIT != 0 {
        (val + 1) & WORD_MASK
    } else {
        val - 1
    };
    agc.write_mem(addr, result);
    2
}

/// READ: A takes channel K.
fn exec_read(agc: &mut Agc, addr: u16) -> (mcts: u64)
    ensures
        *final(agc) == old(agc).after_read(addr),
        mcts == 2,
{
    let channel = addr as usize;
    let val = agc.io.read(channel);
    agc.set_reg_a(val);
    2
}

/// WRITE: channel K takes A.
fn exec_write(agc: &mut Agc, addr: u16) -> (mcts: u64)
    ensures
        *final(agc) == old(agc).after_write(addr),
        mcts == 2,
{
    let channel = addr as usize;
    let a = agc.reg_a();
    agc.io.write(channel, a);
    2
}

/// RAND (Read AND): A takes A AND channel K.
fn exec_rand(agc: &mut Agc, addr: u16) -> (mcts: u64)
    ensures
        *final(agc) == old(agc).after_rand(addr),
        mcts == 2,
{
    proof {
        lemma_u16_masks();
    }
    let channel = addr as usize;
    let a = agc.reg_a();
    let val = agc.io.read(channel);
    agc.set_reg_a((a & val) & WORD_MASK);
    2
}

/// WAND (Write AND): channel K and A take channel K AND A.
fn exec_wand(agc: &mut Agc, addr: u16) -> (mcts: u64)
    ensures
        *final(agc) == old(agc).after_wand(addr),
        mcts == 2,
{
    let channel = addr as usize;
    let a = agc.reg_a();
    let result = agc.io.and_channel(channel, a);
    agc.set_reg_a(result);
    2
}

} // verus!
