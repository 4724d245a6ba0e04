use usb_i2s_dac::fifo::AudioSampleFifo;
use usb_i2s_dac::pcm::SampleFormat;
use usb_i2s_dac::stream::{handle_read, next_playback_chunk, store_packet, ReadOutcome};

#[test]
fn stored_packet_plays_back() {
    let mut fifo: AudioSampleFifo<16> = AudioSampleFifo::new();
    let mut words = [0u16; 4];
    let n = store_packet(&mut fifo, SampleFormat::Pcm16, &[1, 0, 2, 0, 3, 0], &mut words);
    assert_eq!(n, 3);
    let mut chunk = [0xffffu16; 5];
    let written = next_playback_chunk(&mut fifo, true, &mut chunk);
    assert_eq!(written, 3);
    assert_eq!(chunk, [1, 2, 3, 0, 0]);
}

#[test]
fn stored_24_bit_packet_plays_back() {
    let mut fifo: AudioSampleFifo<16> = AudioSampleFifo::new();
    let mut words = [0u16; 8];
    let n = store_packet(&mut fifo, SampleFormat::Pcm24, &[0x03, 0x02, 0x01, 0x06, 0x05, 0x04], &mut words);
    assert_eq!(n, 4);
    let mut chunk = [0xffffu16; 6];
    assert_eq!(next_playback_chunk(&mut fifo, true, &mut chunk), 4);
    assert_eq!(chunk, [0x0102, 0x0300, 0x0405, 0x0600, 0, 0]);
}

#[test]
fn underrun_is_filled_with_silence() {
    let mut fifo: AudioSampleFifo<16> = AudioSampleFifo::new();
    let mut chunk = [0x5555u16; 4];
    assert_eq!(next_playback_chunk(&mut fifo, true, &mut chunk), 0);
    assert_eq!(chunk, [0, 0, 0, 0]);
}

#[test]
fn inactive_stream_plays_silence_and_flushes() {
    let mut fifo: AudioSampleFifo<16> = AudioSampleFifo::new();
    fifo.push_slice(&[1, 2, 3]);
    let mut chunk = [0x5555u16; 2];
    assert_eq!(next_playback_chunk(&mut fifo, false, &mut chunk), 0);
    assert_eq!(chunk, [0, 0]);
    let mut chunk = [0x5555u16; 2];
    assert_eq!(next_playback_chunk(&mut fifo, true, &mut chunk), 0);
    assert_eq!(chunk, [0, 0]);
}

#[test]
fn packet_overflow_keeps_newest_words() {
    let mut fifo: AudioSampleFifo<3> = AudioSampleFifo::new();
    let mut words = [0u16; 8];
    store_packet(&mut fifo, SampleFormat::Pcm16, &[1, 0, 2, 0], &mut words);
    store_packet(&mut fifo, SampleFormat::Pcm16, &[3, 0, 4, 0], &mut words);
    let mut chunk = [0u16; 4];
    assert_eq!(next_playback_chunk(&mut fifo, true, &mut chunk), 3);
    assert_eq!(chunk, [2, 3, 4, 0]);
}

#[test]
fn receive_loop_steps() {
    let mut fifo: AudioSampleFifo<8> = AudioSampleFifo::new();
    let mut words = [0u16; 8];
    let packet = [1u8, 0, 2, 0, 3, 0, 9, 9];
    // Only the received bytes are decoded.
    assert!(handle_read(&mut fifo, SampleFormat::Pcm16, ReadOutcome::Received(6), &packet, &mut words));
    assert!(handle_read(&mut fifo, SampleFormat::Pcm16, ReadOutcome::BufferOverflow, &packet, &mut words));
    let mut chunk = [0u16; 4];
    assert_eq!(next_playback_chunk(&mut fifo, true, &mut chunk), 3);
    assert_eq!(chunk, [1, 2, 3, 0]);
    fifo.push_slice(&[5, 6]);
    assert!(!handle_read(&mut fifo, SampleFormat::Pcm16, ReadOutcome::Disabled, &packet, &mut words));
    assert_eq!(next_playback_chunk(&mut fifo, true, &mut chunk), 0);
}
