use usb_i2s_dac::pcm::{bytes_to_words, packed24_to_words, SampleFormat};

#[test]
fn decodes_little_endian_words() {
    let mut out = [0u16; 4];
    let n = bytes_to_words(&[0x34, 0x12, 0xff, 0x00, 0x00, 0x80], &mut out);
    assert_eq!(n, 3);
    assert_eq!(out, [0x1234, 0x00ff, 0x8000, 0]);
}

#[test]
fn odd_trailing_byte_is_ignored() {
    let mut out = [7u16; 3];
    let n = bytes_to_words(&[1, 2, 3], &mut out);
    assert_eq!(n, 1);
    assert_eq!(out, [0x0201, 7, 7]);
}

#[test]
fn output_length_limits_count() {
    let mut out = [0u16; 2];
    let n = bytes_to_words(&[1, 0, 2, 0, 3, 0, 4, 0], &mut out);
    assert_eq!(n, 2);
    assert_eq!(out, [1, 2]);
}

#[test]
fn empty_packet_gives_no_words() {
    let mut out = [9u16; 2];
    assert_eq!(bytes_to_words(&[], &mut out), 0);
    assert_eq!(out, [9, 9]);
}

#[test]
fn packed24_samples_become_two_words_high_first() {
    let mut out = [0u16; 4];
    let n = packed24_to_words(&[0x56, 0x34, 0x12, 0xcc, 0xbb, 0xaa], &mut out);
    assert_eq!(n, 4);
    assert_eq!(out, [0x1234, 0x5600, 0xaabb, 0xcc00]);
}

#[test]
fn packed24_partial_sample_and_short_output() {
    let mut out = [7u16; 3];
    let n = packed24_to_words(&[1, 2, 3, 4, 5, 6, 7], &mut out);
    assert_eq!(n, 2);
    assert_eq!(out, [0x0302, 0x0100, 7]);
}

#[test]
fn sample_format_sizes() {
    assert_eq!(SampleFormat::Pcm16.subslot_size(), 2);
    assert_eq!(SampleFormat::Pcm16.bit_resolution(), 16);
    assert_eq!(SampleFormat::Pcm24.subslot_size(), 3);
    assert_eq!(SampleFormat::Pcm24.bit_resolution(), 24);
}
