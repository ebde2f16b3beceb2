//! The 15-bit word and the facts that tie its bitwise operations to arithmetic.
//!
//! Contracts speak of words arithmetically (`% 0x8000`, `/ 1024`); the code
//! uses the masks and shifts of the hardware. The lemmas here relate the two.

use vstd::prelude::*;

verus! {

/// The 15 data bits of a 16-bit register value.
pub open spec fn word(v: u16) -> u16 {
    v % 0x8000
}

/// Facts relating the masks of a 16-bit value to arithmetic.
pub proof fn lemma_u16_masks()
    by (bit_vector)
    ensures
        forall|x: u16| #[trigger] (x & 0x7FFF) == x % 0x8000,
        forall|x: u16| #[trigger] (x & 0x0FFF) == x % 0x1000,
        forall|x: u16| #[trigger] (x & 0x3FFF) == x % 0x4000,
        forall|x: u16| #[trigger] (x & 0x07) == x % 8,
        forall|x: u16| #[trigger] (x & 0x1F) == x % 32,
        forall|x: u16| #[trigger] (x & 0x7C00) == ((x / 1024) % 32) * 1024,
        forall|x: u16| #[trigger] (x & 0xFFFE) == x - x % 2,
        forall|x: u16| #[trigger] ((x >> 12) & 0x07) == (x / 4096) % 8,
        forall|x: u16| #[trigger] ((x >> 10) & 0x03) == (x / 1024) % 4,
        forall|x: u16| #[trigger] ((x >> 10) & 0x1F) == (x / 1024) % 32,
        forall|x: u16| ((#[trigger] (x & 0x8000)) != 0) == (x >= 0x8000),
        forall|x: u16| ((#[trigger] (x & 0x4000)) != 0) == (x % 0x8000 >= 0x4000),
        forall|x: u16| #[trigger] (!x & 0x7FFF) == 0x7FFF - x % 0x8000,
        forall|x: u16| #[trigger] (x & 0x03FF) == x % 0x400,
        forall|x: u16| #[trigger] ((x >> 15u16) & 1) == x / 0x8000,
        forall|x: u16| #[trigger] ((x >> 14u16) & 1) == (x / 0x4000) % 2,
{
}

/// Sign correction of a 16-bit value: bits 14–1 kept, bit 16 moved into
/// bit 15.
pub proof fn lemma_sign_correction_bits()
    by (bit_vector)
    ensures
        forall|x: u16|
            #[trigger] ((x & 0x3FFF) | ((x >> 1u16) & 0x4000)) == x % 0x4000 + (x / 0x8000)
                * 0x4000,
{
}

/// Joining a bank field and a 3-bit bank number is addition.
pub proof fn lemma_u16_join()
    by (bit_vector)
    ensures
        forall|x: u16, y: u16|
            #[trigger] ((x & 0x7C00) | (y & 0x07)) == (x & 0x7C00) + (y & 0x07),
        forall|x: u16| x < 0x8000 ==> #[trigger] (x | 0x8000) == x + 0x8000,
{
}

/// Facts relating the masks of a 32-bit product or quotient to arithmetic.
pub proof fn lemma_u32_masks()
    by (bit_vector)
    ensures
        forall|p: u32| #[trigger] ((p >> 14u32) & 0x3FFF) == (p / 0x4000) % 0x4000,
        forall|p: u32| #[trigger] (p & 0x3FFF) == p % 0x4000,
{
}

/// Joining a 14-bit high half and a 14-bit low half is addition.
pub proof fn lemma_u32_join()
    by (bit_vector)
    ensures
        forall|x: u32, y: u32|
            x < 0x4000 && y < 0x4000 ==> #[trigger] ((x << 14u32) | y) == x * 0x4000 + y,
{
}

/// The editing transformations of a 15-bit word, as arithmetic.
pub proof fn lemma_editing_bits()
    by (bit_vector)
    ensures
        forall|x: u16|
            x < 0x8000 ==> #[trigger] (((x >> 1u16) | ((x & 1) << 14u16)) & 0x7FFF) == x / 2 + (x
                % 2) * 0x4000,
        forall|x: u16|
            x < 0x8000 ==> #[trigger] (((x & 0x4000) | (x >> 1u16)) & 0x7FFF) == (x / 0x4000)
                * 0x4000 + x / 2,
        forall|x: u16|
            x < 0x8000 ==> #[trigger] (((x << 1u16) | ((x >> 14u16) & 1)) & 0x7FFF) == (x % 0x4000)
                * 2 + x / 0x4000,
        forall|x: u16| x < 0x8000 ==> #[trigger] ((x >> 7u16) & 0x007F) == (x / 128) % 128,
{
}

} // verus!
