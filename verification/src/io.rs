//! I/O channel subsystem.
//!
//! The AGC talks to the rest of the spacecraft through 512 channels, read and
//! written by READ, WRITE, RAND, WAND, ROR, WOR and RXOR. Channels 30–33 are
//! status inputs that read as all ones until something drives them.

pub mod channel;

use vstd::prelude::*;
use crate::bits::{word, lemma_u16_masks};

verus! {

/// Number of I/O channels.
pub const NUM_CHANNELS: usize = 512;

/// The channel store.
#[derive(Clone)]
pub struct IoChannels {
    /// Channel data.
    pub channels: [u16; NUM_CHANNELS],
}

/// Whether a channel number names a status input (channels 30–33).
pub open spec fn is_status_input(ch: int) -> bool {
    channel::CHAN30 <= ch <= channel::CHAN33
}

impl IoChannels {
    /// The 15-bit value of a channel; 0 for a channel that does not exist.
    pub open spec fn channel_word(self, ch: int) -> u16 {
        if 0 <= ch < NUM_CHANNELS {
            word(self.channels[ch])
        } else {
            0
        }
    }

    /// The channels after storing `value` (as stored, unmasked) in channel
    /// `ch`; unchanged for a channel that does not exist.
    pub open spec fn channel_stored(self, ch: int, value: u16) -> IoChannels {
        if 0 <= ch < NUM_CHANNELS {
            IoChannels { channels: vstd::array::spec_array_update(self.channels, ch, value) }
        } else {
            self
        }
    }

    /// Power-up channel state: every channel 0 except the status inputs
    /// 30–33, which read as 37777 (octal).
    pub fn new() -> (io: Self)
        ensures
            forall|i: int|
                0 <= i < NUM_CHANNELS ==> #[trigger] io.channels[i] == if is_status_input(i) {
                    0o37777u16
                } else {
                    0u16
                },
    {
        let mut channels = [0u16; NUM_CHANNELS];
        channels[channel::CHAN30] = 0o37777;
        channels[channel::CHAN31] = 0o37777;
        channels[channel::CHAN32] = 0o37777;
        channels[channel::CHAN33] = 0o37777;
        Self { channels }
    }

    /// Read a channel's 15-bit value; 0 for a channel that does not exist.
    pub fn read(&self, channel: usize) -> (r: u16)
        ensures
            r == self.channel_word(channel as int),
    {
        proof {
            lemma_u16_masks();
        }
        if channel < NUM_CHANNELS {
            self.channels[channel] & 0x7FFF
        } else {
            0
        }
    }

    /// Write the 15-bit word of `value` to a channel; ignored for a channel
    /// that does not exist.
    pub fn write(&mut self, channel: usize, value: u16)
        ensures
            *final(self) == old(self).channel_stored(channel as int, word(value)),
    {
        proof {
            lemma_u16_masks();
        }
        if channel < NUM_CHANNELS {
            self.channels[channel] = value & 0x7FFF;
        }
    }

    /// AND a mask into a channel (RAND/WAND); returns the new 15-bit value,
    /// or 0 for a channel that does not exist.
    pub fn and_channel(&mut self, channel: usize, mask: u16) -> (r: u16)
        ensures
            channel < NUM_CHANNELS ==> r == word(old(self).channels[channel as int] & mask),
            channel >= NUM_CHANNELS ==> r == 0,
            *final(self) == old(self).channel_stored(channel as int, r),
    {
        proof {
            lemma_u16_masks();
        }
        if channel < NUM_CHANNELS {
            let result = self.channels[channel] & mask & 0x7FFF;
            self.channels[channel] = result;
            result
        } else {
            0
        }
    }

    /// OR a value into a channel (ROR/WOR); returns the new 15-bit value, or
    /// 0 for a channel that does not exist.
    pub fn or_channel(&mut self, channel: usize, value: u16) -> (r: u16)
        ensures
            channel < NUM_CHANNELS ==> r == word(old(self).channels[channel as int] | value),
            channel >= NUM_CHANNELS ==> r == 0,
            *final(self) == old(self).channel_stored(channel as int, r),
    {
        proof {
            lemma_u16_masks();
        }
        if channel < NUM_CHANNELS {
            let result = (self.channels[channel] | value) & 0x7FFF;
            self.channels[channel] = result;
            result
        } else {
            0
        }
    }

    /// XOR a value into a channel (RXOR); returns the new 15-bit value, or 0
    /// for a channel that does not exist.
    pub fn xor_channel(&mut self, channel: usize, value: u16) -> (r: u16)
        ensures
            channel < NUM_CHANNELS ==> r == word(old(self).channels[channel as int] ^ value),
            channel >= NUM_CHANNELS ==> r == 0,
            *final(self) == old(self).channel_stored(channel as int, r),
    {
        proof {
            lemma_u16_masks();
        }
        if channel < NUM_CHANNELS {
            let result = (self.channels[channel] ^ value) & 0x7FFF;
            self.channels[channel] = result;
            result
        } else {
            0
        }
    }

    /// Channel 14, bit 4.
    pub open spec fn spec_is_engine_on(&self) -> bool {
        self.channels[channel::CHAN14 as int] & 0o20 != 0
    }

    /// Channel 7, bit 7.
    pub open spec fn spec_superbank(&self) -> bool {
        self.channels[channel::SUPERBANK as int] & 0o100 != 0
    }

    /// Whether the descent engine is on: channel 14, bit 4 (octal 20).
    #[verifier::when_used_as_spec(spec_is_engine_on)]
    pub fn is_engine_on(&self) -> (r: bool)
        ensures
            r == self.spec_is_engine_on(),
    {
        (self.channels[channel::CHAN14] & 0o20) != 0
    }

    /// The superbank bit: channel 7, bit 7 (octal 100).
    #[verifier::when_used_as_spec(spec_superbank)]
    pub fn superbank(&self) -> (r: bool)
        ensures
            r == self.spec_superbank(),
    {
        (self.channels[channel::SUPERBANK] & 0o100) != 0
    }
}

/// A channel write is read back as the 15-bit word written and leaves the
/// other channels alone.
pub proof fn lemma_channel_read_after_write(io: IoChannels, ch: int, other: int, value: u16)
    requires
        0 <= ch < NUM_CHANNELS,
        other != ch,
    ensures
        io.channel_stored(ch, word(value)).channel_word(ch) == word(value),
        io.channel_stored(ch, word(value)).channel_word(other) == io.channel_word(other),
{
}

/// What the channel operations do to the bits of a 15-bit word: XOR with
/// the same value twice gives the word back; OR keeps every bit of the
/// channel and of the value; AND keeps only bits of both.
pub proof fn lemma_channel_bit_laws(c: u16, v: u16)
    ensures
        word(word(c ^ v) ^ v) == word(c),
        word(c | v) & word(c) == word(c),
        word(c | v) & word(v) == word(v),
        word(c & v) | word(c) == word(c),
        word(c & v) | word(v) == word(v),
{
    assert(((((c ^ v) & 0x7FFF) ^ v) & 0x7FFF) == c & 0x7FFF) by (bit_vector);
    assert((((c | v) & 0x7FFF) & (c & 0x7FFF)) == (c & 0x7FFF)) by (bit_vector);
    assert((((c | v) & 0x7FFF) & (v & 0x7FFF)) == (v & 0x7FFF)) by (bit_vector);
    assert((((c & v) & 0x7FFF) | (c & 0x7FFF)) == (c & 0x7FFF)) by (bit_vector);
    assert((((c & v) & 0x7FFF) | (v & 0x7FFF)) == (v & 0x7FFF)) by (bit_vector);
    lemma_u16_masks();
}

impl Default for IoChannels {
    fn default() -> (io: Self)
        ensures
            forall|i: int|
                0 <= i < NUM_CHANNELS ==> #[trigger] io.channels[i] == if is_status_input(i) {
                    0o37777u16
                } else {
                    0u16
                },
    {
        Self::new()
    }
}

} // verus!
