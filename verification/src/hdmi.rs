//! Audio frames for the HDMI controller.
//!
//! The controller takes one word per subframe, alternating between the left
//! and the right channel: a preamble, a 16-bit sample, and one bit of the
//! 192-bit channel status that every block of 192 frames spells out.

use vstd::prelude::*;

verus! {

/// Audio sample rate, in frames per second.
pub const SAMPLE_RATE: usize = 48000;

/// Words in the audio buffer: half a second of stereo frames.
pub const AU_BUF_LEN: usize = 24000;

/// Subframes in a block: 192 frames of two channels.
pub const BLOCK_LEN: usize = 384;

/// Sample in the upper half of a wave.
pub const HIGH: u32 = 0x3fff;

/// Sample in the lower half of a wave.
pub const LOW: u32 = 0xc000;

/// The first bytes of the channel status: consumer format with PCM audio;
/// software broadcast; the channel, which each subframe fills in for itself;
/// 48000 Hz at 1000 ppm; 16-bit samples that were taken at 48000 Hz.  The
/// bytes that follow are zero.
pub open spec fn status_byte(index: int) -> u32 {
    if index == 0 {
        0x4
    } else if index == 1 {
        0x44
    } else if index == 3 {
        0x2
    } else if index == 4 {
        0xd2
    } else {
        0
    }
}

/// Subframes in half a wave: the left channel sounds at 100 Hz, the right
/// channel at 150 Hz.
pub open spec fn half_period(index: int) -> int {
    if index % 2 == 0 {
        240
    } else {
        160
    }
}

/// The sample of subframe `index`: a square wave that starts low.
pub open spec fn sample(index: int) -> u32 {
    if (index / half_period(index)) % 2 == 1 {
        HIGH
    } else {
        LOW
    }
}

/// The preamble of subframe `index`, which marks the start of a block.
pub open spec fn preamble(index: int) -> u32 {
    if index % 384 == 0 {
        8
    } else {
        0
    }
}

/// The channel status bit of subframe `index`.  Frame by frame the bits
/// spell the status bytes out, lowest bit first; the right channel has its
/// number set where source and destination channel stand.
pub open spec fn status_bit(index: int) -> u32 {
    let place = index % 384;
    if place == 33 || place == 41 {
        1
    } else {
        (status_byte(place / 16) >> ((place / 2) % 8) as u32) & 1
    }
}

/// The word of subframe `index`.
pub open spec fn subframe(index: int) -> u32 {
    (status_bit(index) << 30) | (sample(index) << 12) | preamble(index)
}

/// The parts of a word do not run into each other: each can be read back
/// from its bits.
pub proof fn lemma_subframe_parts(index: int)
    requires
        0 <= index,
    ensures
        subframe(index) >> 30 == status_bit(index),
        (subframe(index) >> 12) & 0xffff == sample(index),
        subframe(index) & 0xfff == preamble(index),
{
    let flag = status_bit(index);
    let level = sample(index);
    let mark = preamble(index);
    let byte = status_byte((index % 384) / 16);
    let shift = (((index % 384) / 2) % 8) as u32;
    assert((byte >> shift) & 1 <= 1) by (bit_vector);
    assert(((flag << 30) | (level << 12) | mark) >> 30 == flag && (((flag << 30) | (level << 12)
        | mark) >> 12) & 0xffff == level && ((flag << 30) | (level << 12) | mark) & 0xfff == mark)
        by (bit_vector)
        requires
            flag <= 1,
            level == 0x3fff || level == 0xc000,
            mark == 8 || mark == 0,
    ;
}

/// Synthesizes two audio tones in different frequencies to each of the stereo
/// channels.
pub fn synthesize(buf: &mut [u32; AU_BUF_LEN])
    ensures
        forall|index: int| 0 <= index < AU_BUF_LEN ==> final(buf)[index] == subframe(index),
{
    let mut status = [0u32; 24];
    status[0] = 0x4;
    status[1] = 0x44;
    status[3] = 0x2;
    status[4] = 0xd2;
    let mut index: usize = 0;
    while index < AU_BUF_LEN
        invariant
            index <= AU_BUF_LEN,
            forall|k: int| 0 <= k < 24 ==> status[k] == status_byte(k),
            forall|done: int| 0 <= done < index ==> buf[done] == subframe(done),
        decreases AU_BUF_LEN - index,
    {
        let half: usize = if index & 0x1 == 0 {
            SAMPLE_RATE / 200
        } else {
            SAMPLE_RATE / 300
        };
        let level: u32 = if (index / half) & 0x1 == 1 {
            HIGH
        } else {
            LOW
        };
        let place: usize = index % BLOCK_LEN;
        let mark: u32 = if place == 0 {
            8
        } else {
            0
        };
        let byte: usize = place >> 4;
        let bit: usize = (place >> 1) & 0x7;
        proof {
            assert(index & 0x1 == index % 2) by (bit_vector);
            let periods = index / half;
            assert(periods & 0x1 == periods % 2) by (bit_vector);
            assert(place >> 4 == place / 16) by (bit_vector);
            assert((place >> 1) & 0x7 == (place / 2) % 8) by (bit_vector);
        }
        let flag: u32 = if place == 16 * 2 + 1 || place == 20 * 2 + 1 {
            0x1
        } else {
            (status[byte] >> bit) & 0x1
        };
        assert(flag == status_bit(index as int));
        buf[index] = (flag << 30) | (level << 12) | mark;
        index += 1;
    }
}

} // verus!
