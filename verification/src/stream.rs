//! The two ends of the audio stream: packets from USB go into the FIFO, and
//! chunks for the I2S DMA ring come out of it, padded with silence.

use vstd::prelude::*;
use crate::fifo::{AudioSampleFifo, keep_newest, min_int};
use crate::pcm::{bytes_to_words, decode_packed24, decode_words, packed24_to_words, SampleFormat};

verus! {

/// `n` samples of silence.
pub open spec fn silence(n: nat) -> Seq<u16> {
    Seq::new(n, |i: int| 0u16)
}

/// The words a packet of `format` decodes to.
pub open spec fn decode_packet(format: SampleFormat, bytes: Seq<u8>) -> Seq<u16> {
    match format {
        SampleFormat::Pcm16 => decode_words(bytes),
        SampleFormat::Pcm24 => decode_packed24(bytes),
    }
}

/// How many words of a packet of `len` bytes in `format` fit into `room`
/// words: whole samples only.
pub open spec fn decoded_count(format: SampleFormat, len: int, room: int) -> int {
    match format {
        SampleFormat::Pcm16 => min_int(len / 2, room),
        SampleFormat::Pcm24 => 2 * min_int(len / 3, room / 2),
    }
}

/// Decodes a packet of `format` into the front of `out`; returns how many
/// words it wrote.
pub fn decode_packet_into(format: SampleFormat, bytes: &[u8], out: &mut [u16]) -> (count: usize)
    ensures
        count == decoded_count(format, bytes@.len() as int, old(out)@.len() as int),
        final(out)@ == decode_packet(format, bytes@).take(count as int) + old(out)@.skip(
            count as int,
        ),
        final(out)@.len() == old(out)@.len(),
        format is Pcm16 ==> forall|i: int|
            0 <= i < count ==> #[trigger] final(out)@[i] as int == bytes@[2 * i] as int + 256
                * bytes@[2 * i + 1] as int,
        format is Pcm24 ==> forall|s: int|
            #![trigger final(out)@[2 * s]]
            0 <= s < count / 2 ==> final(out)@[2 * s] as int == bytes@[3 * s + 1] as int + 256
                * bytes@[3 * s + 2] as int && final(out)@[2 * s + 1] as int == 256 * bytes@[3
                * s] as int,
        forall|i: int| count <= i < old(out)@.len() ==> #[trigger] final(out)@[i] == old(out)@[i],
{
    match format {
        SampleFormat::Pcm16 => bytes_to_words(bytes, out),
        SampleFormat::Pcm24 => packed24_to_words(bytes, out),
    }
}

/// Every sample of silence is the zero word.
pub proof fn lemma_silence_is_zero(n: nat)
    ensures
        silence(n).len() == n,
        forall|i: int| 0 <= i < n ==> #[trigger] silence(n)[i] == 0,
{
}

/// Decodes a received packet of `format` into `words` and queues the
/// decoded words. Returns how many words the packet gave (no more than
/// `words` holds).
pub fn store_packet<const N: usize>(
    fifo: &mut AudioSampleFifo<N>,
    format: SampleFormat,
    packet: &[u8],
    words: &mut [u16],
) -> (count: usize)
    requires
        old(fifo).wf(),
    ensures
        final(fifo).wf(),
        count == decoded_count(format, packet@.len() as int, old(words)@.len() as int),
        final(words)@ == decode_packet(format, packet@).take(count as int) + old(words)@.skip(
            count as int,
        ),
        final(fifo)@ == keep_newest(
            old(fifo)@ + decode_packet(format, packet@).take(count as int),
            N as nat,
        ),
{
    let count: usize = decode_packet_into(format, packet, words);
    let decoded: &[u16] = vstd::slice::slice_subrange(words, 0, count);
    assert(decoded@ =~= decode_packet(format, packet@).take(count as int));
    fifo.push_slice(decoded);
    count
}

/// What a read of the stream endpoint gave.
pub enum ReadOutcome {
    /// A packet of this many bytes arrived.
    Received(usize),
    /// The host disabled the endpoint.
    Disabled,
    /// The packet did not fit the buffer.
    BufferOverflow,
}

/// One step of the receive loop. A received packet is queued; a disabled
/// endpoint empties the FIFO and ends the loop (the result is `false`); an
/// overflowing packet is ignored.
pub fn handle_read<const N: usize>(
    fifo: &mut AudioSampleFifo<N>,
    format: SampleFormat,
    outcome: ReadOutcome,
    packet: &[u8],
    words: &mut [u16],
) -> (keep_reading: bool)
    requires
        old(fifo).wf(),
        outcome matches ReadOutcome::Received(n) ==> n <= packet@.len(),
    ensures
        final(fifo).wf(),
        match outcome {
            ReadOutcome::Received(n) => {
                let bytes = packet@.take(n as int);
                let count = decoded_count(format, n as int, old(words)@.len() as int);
                &&& keep_reading
                &&& final(words)@ == decode_packet(format, bytes).take(count) + old(words)@.skip(
                    count,
                )
                &&& final(fifo)@ == keep_newest(
                    old(fifo)@ + decode_packet(format, bytes).take(count),
                    N as nat,
                )
            },
            ReadOutcome::Disabled => {
                &&& !keep_reading
                &&& final(fifo)@ == Seq::<u16>::empty()
                &&& final(words)@ == old(words)@
            },
            ReadOutcome::BufferOverflow => {
                &&& keep_reading
                &&& final(fifo)@ == old(fifo)@
                &&& final(words)@ == old(words)@
            },
        },
{
    match outcome {
        ReadOutcome::Received(n) => {
            let received: &[u8] = vstd::slice::slice_subrange(packet, 0, n);
            assert(received@ =~= packet@.take(n as int));
            store_packet(fifo, format, received, words);
            true
        },
        ReadOutcome::Disabled => {
            fifo.clear();
            false
        },
        ReadOutcome::BufferOverflow => true,
    }
}

/// Fills `chunk` for the I2S output. While the stream is active it takes the
/// oldest queued samples; otherwise it empties the FIFO. Whatever the FIFO
/// could not supply is silence. Returns how many samples came from the FIFO.
pub fn next_playback_chunk<const N: usize>(
    fifo: &mut AudioSampleFifo<N>,
    stream_active: bool,
    chunk: &mut [u16],
) -> (written: usize)
    requires
        old(fifo).wf(),
    ensures
        final(fifo).wf(),
        stream_active ==> written == min_int(old(chunk)@.len() as int, old(fifo)@.len() as int),
        stream_active ==> final(fifo)@ == old(fifo)@.skip(written as int),
        !stream_active ==> written == 0,
        !stream_active ==> final(fifo)@ == Seq::<u16>::empty(),
        final(chunk)@ == old(fifo)@.take(written as int) + silence(
            (old(chunk)@.len() - written) as nat,
        ),
        final(chunk)@.len() == old(chunk)@.len(),
        written <= old(chunk)@.len(),
        written <= old(fifo)@.len(),
        forall|i: int| 0 <= i < written ==> #[trigger] final(chunk)@[i] == old(fifo)@[i],
        forall|i: int| written <= i < old(chunk)@.len() ==> #[trigger] final(chunk)@[i] == 0,
{
    let ghost old_fifo = fifo@;
    let written: usize = if stream_active {
        fifo.pop_slice(chunk)
    } else {
        fifo.clear();
        0
    };
    let ghost filled = chunk@;
    assert(filled =~= old_fifo.take(written as int) + silence(0) + filled.skip(written as int));
    let mut i: usize = written;
    while i < chunk.len()
        invariant
            written <= i <= chunk@.len(),
            chunk@.len() == filled.len(),
            chunk@ == old_fifo.take(written as int) + silence((i - written) as nat) + filled.skip(
                i as int,
            ),
            written <= filled.len(),
        decreases chunk@.len() - i,
    {
        chunk[i] = 0;
        assert(chunk@ =~= old_fifo.take(written as int) + silence((i + 1 - written) as nat)
            + filled.skip(i + 1));
        i = i + 1;
    }
    assert(chunk@ =~= old_fifo.take(written as int) + silence((chunk@.len() - written) as nat));
    proof {
        lemma_silence_is_zero((chunk@.len() - written) as nat);
        assert forall|i: int| written <= i < chunk@.len() implies #[trigger] chunk@[i] == 0 by {
            assert(chunk@[i] == silence((chunk@.len() - written) as nat)[i - written]);
        }
    }
    written
}

} // verus!
