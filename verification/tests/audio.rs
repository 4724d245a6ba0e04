use usb_i2s_dac::audio::{
    ac_header_descriptor, as_general_descriptor, clock_source_descriptor, feedback_packet,
    feedback_value, format_of_alternate, format_type_descriptor, input_terminal_descriptor,
    iso_endpoint_descriptor, le16_bytes, le32_bytes, max_packet_size, output_terminal_descriptor,
    rate_is_supported, ControlRequest, Recipient, RequestType, UsbAudioClass,
    AC_TOTAL_LENGTH, AUDIO_FIFO_CAPACITY_WORDS, USB_PACKET_SIZE,
};
use usb_i2s_dac::pcm::SampleFormat;

fn clock_request(request: u8, interface: u16) -> ControlRequest {
    ControlRequest {
        request_type: RequestType::Class,
        recipient: Recipient::Interface,
        request,
        value: 0x0100,
        index: 0x1000 | interface,
    }
}

fn range_of(rates: &[u32]) -> Vec<u8> {
    let mut v = (rates.len() as u16).to_le_bytes().to_vec();
    for r in rates {
        v.extend_from_slice(&r.to_le_bytes());
        v.extend_from_slice(&r.to_le_bytes());
        v.extend_from_slice(&0u32.to_le_bytes());
    }
    v
}

fn get_range(class: &UsbAudioClass) -> Vec<u8> {
    let mut buf = [0xaau8; 64];
    let n = class.control_in(&clock_request(0x02, 0), &mut buf).unwrap();
    assert_eq!(class.answer_len(&clock_request(0x02, 0)), Some(n));
    assert_eq!(buf[n], 0xaa);
    buf[..n].to_vec()
}

fn get_cur(class: &UsbAudioClass) -> Vec<u8> {
    let mut buf = [0xaau8; 64];
    let n = class.control_in(&clock_request(0x01, 0), &mut buf).unwrap();
    buf[..n].to_vec()
}

#[test]
fn little_endian_helpers() {
    assert_eq!(le16_bytes(0x1234), [0x34, 0x12]);
    assert_eq!(le32_bytes(0x1234_5678), [0x78, 0x56, 0x34, 0x12]);
    assert_eq!(le32_bytes(48_000), [0x80, 0xbb, 0x00, 0x00]);
}

#[test]
fn descriptor_bodies() {
    assert_eq!(ac_header_descriptor(), [0x01, 0x00, 0x02, 0x01, 46, 0x00, 0x00]);
    assert_eq!(clock_source_descriptor(), [0x0a, 0x10, 0x03, 0x03, 0x00, 0x00]);
    assert_eq!(
        input_terminal_descriptor(),
        [0x02, 0x11, 0x01, 0x01, 0x00, 0x10, 2, 0x03, 0x00, 0x00, 0x00, 0x00, 0x00, 0x00, 0x00]
    );
    assert_eq!(
        output_terminal_descriptor(),
        [0x03, 0x12, 0x01, 0x03, 0x00, 0x11, 0x10, 0x00, 0x00, 0x00]
    );
    assert_eq!(
        as_general_descriptor(),
        [0x01, 0x11, 0x00, 0x00, 0x01, 0x00, 0x00, 0x00, 2, 0x03, 0x00, 0x00, 0x00, 0x00]
    );
    assert_eq!(format_type_descriptor(SampleFormat::Pcm16), [0x02, 0x01, 2, 16]);
    assert_eq!(format_type_descriptor(SampleFormat::Pcm24), [0x02, 0x01, 3, 24]);
    assert_eq!(iso_endpoint_descriptor(), [0x01, 0x00, 0x00, 0x00, 0x00, 0x00]);
}

#[test]
fn ac_total_length_is_sum_of_descriptors() {
    let total = ac_header_descriptor().len()
        + clock_source_descriptor().len()
        + input_terminal_descriptor().len()
        + output_terminal_descriptor().len()
        + 4 * 2;
    assert_eq!(total, AC_TOTAL_LENGTH as usize);
}

#[test]
fn packet_sizes_fit_the_driver() {
    assert_eq!(max_packet_size(SampleFormat::Pcm16), 388);
    assert_eq!(max_packet_size(SampleFormat::Pcm24), 294);
    assert_eq!(USB_PACKET_SIZE, 388);
    assert!(max_packet_size(SampleFormat::Pcm16) as usize <= 512);
    // 24-bit at 88.2 kHz would need (89 + 1) * 2 * 3 = 540 bytes.
    assert!((89 + 1) * 2 * 3 > 512);
}

#[test]
fn fifo_holds_32_ms() {
    assert_eq!(AUDIO_FIFO_CAPACITY_WORDS, 32 * 96 * 2);
    assert_eq!(AUDIO_FIFO_CAPACITY_WORDS, 32 * 48 * 2 * 2);
}

#[test]
fn supported_rates_per_format() {
    for rate in [44_100, 48_000, 88_200, 96_000] {
        assert!(rate_is_supported(None, rate));
        assert!(rate_is_supported(Some(SampleFormat::Pcm16), rate));
    }
    assert!(rate_is_supported(Some(SampleFormat::Pcm24), 44_100));
    assert!(rate_is_supported(Some(SampleFormat::Pcm24), 48_000));
    assert!(!rate_is_supported(Some(SampleFormat::Pcm24), 88_200));
    assert!(!rate_is_supported(Some(SampleFormat::Pcm24), 96_000));
    assert!(!rate_is_supported(None, 32_000));
    assert!(!rate_is_supported(Some(SampleFormat::Pcm16), 192_000));
}

#[test]
fn alternate_formats() {
    assert_eq!(format_of_alternate(0), None);
    assert_eq!(format_of_alternate(1), Some(SampleFormat::Pcm16));
    assert_eq!(format_of_alternate(2), Some(SampleFormat::Pcm24));
    assert_eq!(format_of_alternate(3), None);
}

#[test]
fn feedback_values() {
    // Samples per 1 ms frame in 10.14 fixed point.
    assert_eq!(feedback_value(48_000), 48 << 14);
    assert_eq!(feedback_value(96_000), 96 << 14);
    assert_eq!(feedback_value(44_100), 722_534);
    assert_eq!(feedback_value(88_200), 1_445_068);
    assert_eq!(feedback_packet(48_000), [0x00, 0x00, 0x0c]);
    assert_eq!(feedback_packet(44_100), [0x66, 0x06, 0x0b]);
}

#[test]
fn get_cur_returns_sample_rate() {
    let class = UsbAudioClass::new(0, 1);
    assert_eq!(class.sample_rate(), 48_000);
    let mut buf = [0xaau8; 64];
    assert_eq!(class.control_in(&clock_request(0x01, 0), &mut buf), Some(4));
    assert_eq!(buf[..4], [0x80, 0xbb, 0x00, 0x00]);
    assert_eq!(buf[4], 0xaa);
}

#[test]
fn get_range_lists_every_rate() {
    let class = UsbAudioClass::new(0, 1);
    assert_eq!(get_range(&class), range_of(&[44_100, 48_000, 88_200, 96_000]));
}

#[test]
fn get_range_of_24_bit_stops_at_48_khz() {
    let mut class = UsbAudioClass::new(0, 1);
    assert_eq!(class.set_alternate_setting(1, 2), Some(true));
    assert_eq!(get_range(&class), range_of(&[44_100, 48_000]));
    assert_eq!(class.set_alternate_setting(1, 1), Some(true));
    assert_eq!(get_range(&class), range_of(&[44_100, 48_000, 88_200, 96_000]));
}

#[test]
fn set_cur_selects_rate() {
    let mut class = UsbAudioClass::new(0, 1);
    let set = clock_request(0x01, 0);
    assert_eq!(class.control_out(&set, &44_100u32.to_le_bytes()), Some(true));
    assert_eq!(class.sample_rate(), 44_100);
    assert_eq!(get_cur(&class), 44_100u32.to_le_bytes().to_vec());
    assert_eq!(class.control_out(&set, &96_000u32.to_le_bytes()), Some(true));
    assert_eq!(get_cur(&class), 96_000u32.to_le_bytes().to_vec());
}

#[test]
fn set_cur_rejects_unsupported_rates() {
    let mut class = UsbAudioClass::new(0, 1);
    let set = clock_request(0x01, 0);
    assert_eq!(class.control_out(&set, &32_000u32.to_le_bytes()), Some(false));
    assert_eq!(class.control_out(&set, &[0x44, 0xac, 0x00]), Some(false));
    assert_eq!(class.set_alternate_setting(1, 2), Some(true));
    assert_eq!(class.control_out(&set, &96_000u32.to_le_bytes()), Some(false));
    assert_eq!(class.sample_rate(), 48_000);
    // Requests that are not SET_CUR of the clock are not handled.
    assert_eq!(class.control_out(&clock_request(0x02, 0), &48_000u32.to_le_bytes()), None);
    assert_eq!(class.control_out(&clock_request(0x01, 1), &48_000u32.to_le_bytes()), None);
}

#[test]
fn switching_to_24_bit_drops_a_high_rate() {
    let mut class = UsbAudioClass::new(0, 1);
    let set = clock_request(0x01, 0);
    assert_eq!(class.control_out(&set, &88_200u32.to_le_bytes()), Some(true));
    assert_eq!(class.set_alternate_setting(1, 2), Some(true));
    assert_eq!(class.sample_rate(), 48_000);
    assert_eq!(class.control_out(&set, &44_100u32.to_le_bytes()), Some(true));
    assert_eq!(class.set_alternate_setting(1, 1), Some(true));
    assert_eq!(class.sample_rate(), 44_100);
}

#[test]
fn other_requests_are_not_answered() {
    let class = UsbAudioClass::new(0, 1);
    let mut buf = [0xaau8; 16];
    assert_eq!(class.control_in(&clock_request(0x01, 1), &mut buf), None);
    assert_eq!(class.control_in(&clock_request(0x03, 0), &mut buf), None);
    assert_eq!(class.answer_len(&clock_request(0x03, 0)), None);
    let mut req = clock_request(0x01, 0);
    req.index = 0x1100;
    assert_eq!(class.control_in(&req, &mut buf), None);
    let mut req = clock_request(0x01, 0);
    req.value = 0x0200;
    assert_eq!(class.control_in(&req, &mut buf), None);
    let mut req = clock_request(0x01, 0);
    req.request_type = RequestType::Standard;
    assert_eq!(class.control_in(&req, &mut buf), None);
    let mut req = clock_request(0x01, 0);
    req.recipient = Recipient::Device;
    assert_eq!(class.control_in(&req, &mut buf), None);
    assert_eq!(buf, [0xaa; 16]);
}

#[test]
fn alternate_setting_controls_stream() {
    let mut class = UsbAudioClass::new(0, 1);
    assert_eq!(class.stream_format(), None);
    assert_eq!(class.set_alternate_setting(1, 1), Some(true));
    assert_eq!(class.stream_format(), Some(SampleFormat::Pcm16));
    assert_eq!(class.set_alternate_setting(1, 2), Some(true));
    assert_eq!(class.stream_format(), Some(SampleFormat::Pcm24));
    assert_eq!(class.set_alternate_setting(1, 0), Some(false));
    assert_eq!(class.stream_format(), None);
    assert_eq!(class.set_alternate_setting(1, 3), Some(false));
    assert_eq!(class.set_alternate_setting(0, 1), None);
    assert_eq!(class.stream_format(), None);
}

#[test]
fn reset_stops_stream() {
    let mut class = UsbAudioClass::new(0, 1);
    class.set_alternate_setting(1, 1);
    class.control_out(&clock_request(0x01, 0), &96_000u32.to_le_bytes());
    class.reset();
    assert_eq!(class.stream_format(), None);
    assert_eq!(class.sample_rate(), 96_000);
}
