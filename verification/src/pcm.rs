//! The sample formats of the audio stream, and the decoding of USB packets
//! into the 16-bit words that the I2S data register takes.

use vstd::prelude::*;
use crate::fifo::min_int;

verus! {

/// The formats of the streaming interface: 16-bit and packed 24-bit PCM.
#[derive(Clone, Copy, Debug, PartialEq, Eq, Structural)]
pub enum SampleFormat {
    /// Two bytes per sample (alternate setting 1).
    Pcm16,
    /// Three bytes per sample, packed (alternate setting 2).
    Pcm24,
}

impl SampleFormat {
    /// Bytes that one sample of one channel takes in a USB packet.
    pub open spec fn subslot(self) -> u8 {
        match self {
            SampleFormat::Pcm16 => 2,
            SampleFormat::Pcm24 => 3,
        }
    }

    /// Bits of one sample.
    pub open spec fn bits(self) -> u8 {
        match self {
            SampleFormat::Pcm16 => 16,
            SampleFormat::Pcm24 => 24,
        }
    }

    /// 16-bit words that one sample of one channel takes on the I2S side.
    pub open spec fn words_per_sample(self) -> nat {
        match self {
            SampleFormat::Pcm16 => 1,
            SampleFormat::Pcm24 => 2,
        }
    }

    /// Bytes per sample in a USB packet.
    pub fn subslot_size(&self) -> (n: u8)
        ensures
            n == self.subslot(),
    {
        match self {
            SampleFormat::Pcm16 => 2,
            SampleFormat::Pcm24 => 3,
        }
    }

    /// Bits per sample.
    pub fn bit_resolution(&self) -> (n: u8)
        ensures
            n == self.bits(),
    {
        match self {
            SampleFormat::Pcm16 => 16,
            SampleFormat::Pcm24 => 24,
        }
    }
}

/// The word whose little-endian bytes are `lo`, `hi`.
pub open spec fn le_word(lo: u8, hi: u8) -> u16 {
    (lo as int + 256 * hi as int) as u16
}

/// The words encoded by `bytes`, two little-endian bytes each; an odd last
/// byte is not part of any word.
pub open spec fn decode_words(bytes: Seq<u8>) -> Seq<u16> {
    Seq::new(bytes.len() / 2, |i: int| le_word(bytes[2 * i], bytes[2 * i + 1]))
}

/// Decodes as many whole words of `bytes` as fit into `out`, writes them to
/// the front of `out` and returns how many it wrote; the rest of `out` is
/// left as it was.
pub fn bytes_to_words(bytes: &[u8], out: &mut [u16]) -> (count: usize)
    ensures
        count == min_int((bytes@.len() / 2) as int, old(out)@.len() as int),
        final(out)@ == decode_words(bytes@).take(count as int) + old(out)@.skip(count as int),
        final(out)@.len() == old(out)@.len(),
        forall|i: int|
            0 <= i < count ==> #[trigger] final(out)@[i] as int == bytes@[2 * i] as int + 256
                * bytes@[2 * i + 1] as int,
        forall|i: int| count <= i < old(out)@.len() ==> #[trigger] final(out)@[i] == old(out)@[i],
{
    let ghost old_out = out@;
    let byte_len: usize = bytes.len();
    let pairs: usize = byte_len / 2;
    let limit: usize = if pairs < out.len() {
        pairs
    } else {
        out.len()
    };
    let mut count: usize = 0;
    while count < limit
        invariant
            limit == min_int((bytes@.len() / 2) as int, old_out.len() as int),
            count <= limit,
            limit <= bytes@.len() / 2,
            byte_len == bytes@.len(),
            out@.len() == old_out.len(),
            out@ == decode_words(bytes@).take(count as int) + old_out.skip(count as int),
        decreases limit - count,
    {
        let lo: u16 = bytes[2 * count] as u16;
        let hi: u16 = bytes[2 * count + 1] as u16;
        out[count] = lo + 256 * hi;
        assert(out@ =~= decode_words(bytes@).take(count + 1) + old_out.skip(count + 1));
        count = count + 1;
    }
    proof {
        lemma_decode_words_little_endian(bytes@);
        assert forall|i: int| 0 <= i < count implies #[trigger] out@[i] as int == bytes@[2 * i] as int
            + 256 * bytes@[2 * i + 1] as int by {
            assert(out@[i] == decode_words(bytes@)[i]);
        }
        assert forall|i: int| count <= i < old_out.len() implies #[trigger] out@[i] == old_out[i] by {
            assert(out@[i] == old_out.skip(count as int)[i - count]);
        }
    }
    count
}

/// Each decoded word is the little-endian value of its two bytes: word `i`
/// is `bytes[2i] + 256 * bytes[2i + 1]`, whatever its position.
pub proof fn lemma_decode_words_little_endian(bytes: Seq<u8>)
    ensures
        decode_words(bytes).len() == bytes.len() / 2,
        forall|i: int|
            0 <= i < bytes.len() / 2 ==> #[trigger] decode_words(bytes)[i] as int == bytes[2 * i] as int
                + 256 * bytes[2 * i + 1] as int,
{
}

/// The two words that carry a packed 24-bit sample with little-endian bytes
/// `b0`, `b1`, `b2` in a 32-bit I2S slot: the high half first (`b2`, `b1`),
/// then the low half (`b0` followed by a zero byte).
pub open spec fn packed24_word(bytes: Seq<u8>, i: int) -> u16 {
    let s = i / 2;
    if i % 2 == 0 {
        (bytes[3 * s + 1] as int + 256 * bytes[3 * s + 2] as int) as u16
    } else {
        (256 * bytes[3 * s] as int) as u16
    }
}

/// The words encoded by packed 24-bit `bytes`, two per sample; a trailing
/// partial sample is not decoded.
pub open spec fn decode_packed24(bytes: Seq<u8>) -> Seq<u16> {
    Seq::new(2 * (bytes.len() / 3), |i: int| packed24_word(bytes, i))
}

/// Decodes as many whole packed 24-bit samples of `bytes` as fit, two words
/// each, into the front of `out` and returns how many words it wrote; the
/// rest of `out` is left as it was.
pub fn packed24_to_words(bytes: &[u8], out: &mut [u16]) -> (count: usize)
    ensures
        count == 2 * min_int((bytes@.len() / 3) as int, (old(out)@.len() / 2) as int),
        final(out)@ == decode_packed24(bytes@).take(count as int) + old(out)@.skip(count as int),
        final(out)@.len() == old(out)@.len(),
        forall|i: int|
            0 <= i < count && i % 2 == 0 ==> #[trigger] final(out)@[i] as int == bytes@[3 * (i / 2)
                + 1] as int + 256 * bytes@[3 * (i / 2) + 2] as int,
        forall|i: int|
            0 <= i < count && i % 2 == 1 ==> #[trigger] final(out)@[i] as int == 256 * bytes@[3 * (i
                / 2)] as int,
        forall|s: int|
            #![trigger final(out)@[2 * s]]
            0 <= s < count / 2 ==> final(out)@[2 * s] as int == bytes@[3 * s + 1] as int + 256
                * bytes@[3 * s + 2] as int && final(out)@[2 * s + 1] as int == 256 * bytes@[3
                * s] as int,
        forall|i: int| count <= i < old(out)@.len() ==> #[trigger] final(out)@[i] == old(out)@[i],
{
    let ghost old_out = out@;
    let byte_len: usize = bytes.len();
    let samples: usize = byte_len / 3;
    let room: usize = out.len() / 2;
    let limit: usize = if samples < room {
        samples
    } else {
        room
    };
    let mut k: usize = 0;
    while k < limit
        invariant
            limit == min_int((bytes@.len() / 3) as int, (old_out.len() / 2) as int),
            k <= limit,
            byte_len == bytes@.len(),
            out@.len() == old_out.len(),
            out@ == decode_packed24(bytes@).take(2 * k) + old_out.skip(2 * k),
        decreases limit - k,
    {
        let b0: u16 = bytes[3 * k] as u16;
        let b1: u16 = bytes[3 * k + 1] as u16;
        let b2: u16 = bytes[3 * k + 2] as u16;
        out[2 * k] = b1 + 256 * b2;
        out[2 * k + 1] = 256 * b0;
        proof {
            let d = decode_packed24(bytes@);
            assert(d[2 * k] == out@[2 * k]) by {
                assert((2 * k) / 2 == k);
                assert((2 * k) % 2 == 0);
            }
            assert(d[2 * k + 1] == out@[2 * k + 1]) by {
                assert((2 * k + 1) / 2 == k);
                assert((2 * k + 1) % 2 == 1);
            }
            assert(out@ =~= d.take(2 * (k + 1)) + old_out.skip(2 * (k + 1)));
        }
        k = k + 1;
    }
    proof {
        lemma_decode_packed24_layout(bytes@);
        let count = 2 * k;
        assert forall|i: int| 0 <= i < count implies #[trigger] out@[i] == decode_packed24(bytes@)[i] by {
        }
        assert forall|s: int| #![trigger out@[2 * s]] 0 <= s < count / 2 implies out@[2 * s] as int == bytes@[3 * s + 1] as int
            + 256 * bytes@[3 * s + 2] as int && out@[2 * s + 1] as int == 256 * bytes@[3 * s] as int by {
            assert((2 * s) / 2 == s && (2 * s) % 2 == 0);
            assert((2 * s + 1) / 2 == s && (2 * s + 1) % 2 == 1);
            assert(out@[2 * s] == decode_packed24(bytes@)[2 * s]);
            assert(out@[2 * s + 1] == decode_packed24(bytes@)[2 * s + 1]);
        }
        assert forall|i: int| count <= i < old_out.len() implies #[trigger] out@[i] == old_out[i] by {
            assert(out@[i] == old_out.skip(count as int)[i - count]);
        }
    }
    2 * k
}

/// Each packed 24-bit sample `s` (bytes `3s`, `3s + 1`, `3s + 2`, low byte
/// first) becomes two words, the same way for every sample: word `2s` holds
/// the high 16 bits and word `2s + 1` the low 8 bits followed by a zero byte.
pub proof fn lemma_decode_packed24_layout(bytes: Seq<u8>)
    ensures
        decode_packed24(bytes).len() == 2 * (bytes.len() / 3),
        forall|i: int|
            0 <= i < 2 * (bytes.len() / 3) && i % 2 == 0 ==> #[trigger] decode_packed24(bytes)[i] as int
                == bytes[3 * (i / 2) + 1] as int + 256 * bytes[3 * (i / 2) + 2] as int,
        forall|i: int|
            0 <= i < 2 * (bytes.len() / 3) && i % 2 == 1 ==> #[trigger] decode_packed24(bytes)[i] as int
                == 256 * bytes[3 * (i / 2)] as int,
{
}

} // verus!
