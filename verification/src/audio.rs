//! The USB Audio Class 2.0 speaker function: its sample rates and formats,
//! its class-specific descriptors, its feedback value, and its answers to
//! the clock source's sampling-frequency requests.

use vstd::prelude::*;
use crate::pcm::SampleFormat;

verus! {

/// The sample rate the device starts with.
pub const SAMPLE_RATE_HZ: u32 = 48_000;
/// Stereo.
pub const CHANNEL_COUNT: usize = 2;
/// Largest isochronous OUT packet the USB driver can take.
pub const MAX_ISO_OUT_PACKET: usize = 512;
/// Largest packet of any alternate setting: the size of the receive buffer.
pub const USB_PACKET_SIZE: usize = 388;
/// Milliseconds of audio the FIFO holds at the highest rate of each format.
pub const FIFO_LATENCY_MS: usize = 32;
/// Capacity of the sample FIFO in 16-bit words.
pub const AUDIO_FIFO_CAPACITY_WORDS: usize = 6144;

/// Interface class: audio.
pub const USB_CLASS_AUDIO: u8 = 0x01;
/// Interface subclass: audio control.
pub const USB_SUBCLASS_AUDIO_CONTROL: u8 = 0x01;
/// Interface subclass: audio streaming.
pub const USB_SUBCLASS_AUDIO_STREAMING: u8 = 0x02;
/// Interface protocol: audio device class 2.0.
pub const USB_PROTOCOL_IP_02_00: u8 = 0x20;

/// Descriptor type of a class-specific interface descriptor.
pub const CS_INTERFACE: u8 = 0x24;
/// Descriptor type of a class-specific endpoint descriptor.
pub const CS_ENDPOINT: u8 = 0x25;

/// Audio control subtype: header.
pub const AC_HEADER: u8 = 0x01;
/// Audio control subtype: input terminal.
pub const AC_INPUT_TERM: u8 = 0x02;
/// Audio control subtype: output terminal.
pub const AC_OUTPUT_TERM: u8 = 0x03;
/// Audio control subtype: clock source.
pub const AC_CLOCK_SOURCE: u8 = 0x0A;

/// Audio streaming subtype: general.
pub const AS_GENERAL: u8 = 0x01;
/// Audio streaming subtype: format type.
pub const AS_FORMAT_TYPE: u8 = 0x02;
/// Endpoint subtype: general.
pub const EP_GENERAL: u8 = 0x01;

/// Entity ID of the clock source.
pub const CLOCK_SOURCE_ID: u8 = 0x10;
/// Entity ID of the USB streaming input terminal.
pub const INPUT_TERM_ID: u8 = 0x11;
/// Entity ID of the speaker output terminal.
pub const OUTPUT_TERM_ID: u8 = 0x12;
/// Clock source attributes: internal programmable clock.
pub const CLOCK_INTERNAL_PROGRAMMABLE: u8 = 0x03;
/// Clock source controls: sampling frequency readable and writable.
pub const CLOCK_FREQUENCY_READ_WRITE: u8 = 0x03;

/// Function category: desktop speaker.
pub const FUNCTION_CATEGORY_DESKTOP_SPEAKER: u8 = 0x01;
/// Terminal type: USB streaming.
pub const TERM_USB_STREAMING: u16 = 0x0101;
/// Terminal type: speaker.
pub const TERM_SPEAKER: u16 = 0x0301;
/// Spatial location of the two channels: front left and front right.
pub const CHANNEL_CONFIG_FL_FR: u32 = 0x0000_0003;
/// Format: type I PCM.
pub const PCM_FORMAT_I: u32 = 0x0000_0001;

/// Class request: the current value (GET_CUR, or SET_CUR on an OUT request).
pub const UAC2_GET_CUR: u8 = 0x01;
/// Class request: set the current value.
pub const UAC2_SET_CUR: u8 = 0x01;
/// Class request: get the range of values.
pub const UAC2_GET_RANGE: u8 = 0x02;
/// Clock source control selector: sampling frequency.
pub const SAM_FREQ_CS: u8 = 0x01;

/// Total length of the class-specific audio control descriptors, the header
/// included.
pub const AC_TOTAL_LENGTH: u16 = 46;

/// The sample rates the device plays: 44.1, 48, 88.2 and 96 kHz.
pub open spec fn is_listed_rate(rate: u32) -> bool {
    rate == 44_100 || rate == 48_000 || rate == 88_200 || rate == 96_000
}

/// Highest sample rate of a format: 96 kHz for 16-bit, 48 kHz for 24-bit.
pub open spec fn max_rate(format: SampleFormat) -> u32 {
    match format {
        SampleFormat::Pcm16 => 96_000,
        SampleFormat::Pcm24 => 48_000,
    }
}

/// Whether `rate` can be played in `format` (`None`: no format selected yet,
/// any listed rate).
pub open spec fn rate_supported(format: Option<SampleFormat>, rate: u32) -> bool {
    &&& is_listed_rate(rate)
    &&& (format matches Some(f) ==> rate <= max_rate(f))
}

/// The rates of `format`, lowest first.
pub open spec fn supported_rates(format: Option<SampleFormat>) -> Seq<u32> {
    match format {
        Some(SampleFormat::Pcm24) => seq![44_100u32, 48_000],
        _ => seq![44_100u32, 48_000, 88_200, 96_000],
    }
}

/// The format of an alternate setting of the streaming interface: 1 is
/// 16-bit, 2 is 24-bit, any other setting plays nothing.
pub open spec fn alternate_format(alternate: u8) -> Option<SampleFormat> {
    if alternate == 1 {
        Some(SampleFormat::Pcm16)
    } else if alternate == 2 {
        Some(SampleFormat::Pcm24)
    } else {
        None
    }
}

/// Bytes of the largest packet at `rate` in `format`: one millisecond of
/// stereo audio, rounded up, plus one sample frame for the host's rate
/// adjustment.
pub open spec fn max_packet_bytes(format: SampleFormat, rate: u32) -> int {
    ((rate + 999) / 1000 + 1) * CHANNEL_COUNT * format.subslot()
}

/// The rates listed for `format` are exactly the rates it supports.
pub proof fn lemma_supported_rates_listed(format: Option<SampleFormat>)
    ensures
        forall|rate: u32| rate_supported(format, rate) <==> supported_rates(format).contains(rate),
{
    let rates = supported_rates(format);
    assert forall|rate: u32| rate_supported(format, rate) <==> rates.contains(rate) by {
        if rate_supported(format, rate) {
            if rate == 44_100 {
                assert(rates[0] == rate);
            } else if rate == 48_000 {
                assert(rates[1] == rate);
            } else if rate == 88_200 {
                assert(rates[2] == rate);
            } else {
                assert(rates[3] == rate);
            }
        }
        if rates.contains(rate) {
            let i = choose|i: int| 0 <= i < rates.len() && rates[i] == rate;
            assert(rates[i] == rate);
        }
    }
}

/// A format supports a listed rate exactly when a packet at that rate fits
/// the driver's 512-byte limit: 16-bit goes up to 96 kHz, 24-bit up to 48 kHz.
pub proof fn lemma_rates_fit_usb_packets(format: SampleFormat, rate: u32)
    requires
        is_listed_rate(rate),
    ensures
        rate_supported(Some(format), rate) <==> max_packet_bytes(format, rate)
            <= MAX_ISO_OUT_PACKET,
{
}

/// The receive buffer holds the largest packet of either format.
pub proof fn lemma_receive_buffer_fits_packets(format: SampleFormat)
    ensures
        max_packet_bytes(format, max_rate(format)) <= USB_PACKET_SIZE,
        USB_PACKET_SIZE == max_packet_bytes(SampleFormat::Pcm16, max_rate(SampleFormat::Pcm16)),
{
    assert(SampleFormat::Pcm16.subslot() == 2);
    assert(max_rate(SampleFormat::Pcm16) == 96_000);
}

/// The FIFO holds 32 ms of audio at the highest rate of either format.
pub proof fn lemma_fifo_holds_32_ms(format: SampleFormat)
    ensures
        AUDIO_FIFO_CAPACITY_WORDS == FIFO_LATENCY_MS * (max_rate(format) / 1000) * CHANNEL_COUNT
            * format.words_per_sample(),
{
}

/// The format of alternate setting `alternate` of the streaming interface.
pub fn format_of_alternate(alternate: u8) -> (format: Option<SampleFormat>)
    ensures
        format == alternate_format(alternate),
{
    if alternate == 1 {
        Some(SampleFormat::Pcm16)
    } else if alternate == 2 {
        Some(SampleFormat::Pcm24)
    } else {
        None
    }
}

/// Whether `rate` can be played in `format`.
pub fn rate_is_supported(format: Option<SampleFormat>, rate: u32) -> (ok: bool)
    ensures
        ok == rate_supported(format, rate),
{
    let listed: bool = rate == 44_100 || rate == 48_000 || rate == 88_200 || rate == 96_000;
    match format {
        Some(SampleFormat::Pcm24) => listed && rate <= 48_000,
        _ => listed,
    }
}

/// `wMaxPacketSize` of the streaming endpoint of `format`: the largest packet
/// at the format's highest rate.
pub fn max_packet_size(format: SampleFormat) -> (size: u16)
    ensures
        size == max_packet_bytes(format, max_rate(format)),
        size <= MAX_ISO_OUT_PACKET,
{
    match format {
        SampleFormat::Pcm16 => 388,
        SampleFormat::Pcm24 => 294,
    }
}

/// The little-endian bytes of a 16-bit value.
pub open spec fn le16(x: u16) -> Seq<u8> {
    seq![(x % 256) as u8, (x / 256) as u8]
}

/// The little-endian bytes of a 32-bit value.
pub open spec fn le32(x: u32) -> Seq<u8> {
    seq![
        (x % 256) as u8,
        ((x / 256) % 256) as u8,
        ((x / 65536) % 256) as u8,
        (x / 16777216) as u8,
    ]
}

/// Reading the two bytes of `le16(x)` back, low byte first, gives `x`.
pub proof fn lemma_le16_round_trip(x: u16)
    ensures
        le16(x).len() == 2,
        le16(x)[0] + 256 * le16(x)[1] == x,
{
}

/// Reading the four bytes of `le32(x)` back, low byte first, gives `x`.
pub proof fn lemma_le32_round_trip(x: u32)
    ensures
        le32(x).len() == 4,
        le32(x)[0] + 256 * le32(x)[1] + 65536 * le32(x)[2] + 16777216 * le32(x)[3] == x,
{
}

/// Little-endian bytes of a 16-bit value.
pub fn le16_bytes(x: u16) -> (b: [u8; 2])
    ensures
        b@ == le16(x),
{
    let lo: u8 = (x & 0xff) as u8;
    let hi: u8 = (x >> 8) as u8;
    assert(lo == x % 256 && hi == x / 256) by (bit_vector)
        requires
            lo == (x & 0xff) as u8,
            hi == (x >> 8) as u8,
    ;
    let b: [u8; 2] = [lo, hi];
    assert(b@ =~= le16(x));
    b
}

/// Little-endian bytes of a 32-bit value.
pub fn le32_bytes(x: u32) -> (b: [u8; 4])
    ensures
        b@ == le32(x),
{
    let b0: u8 = (x & 0xff) as u8;
    let b1: u8 = ((x >> 8) & 0xff) as u8;
    let b2: u8 = ((x >> 16) & 0xff) as u8;
    let b3: u8 = ((x >> 24) & 0xff) as u8;
    assert(b0 == x % 256 && b1 == (x / 256) % 256 && b2 == (x / 65536) % 256 && b3 == x
        / 16777216) by (bit_vector)
        requires
            b0 == (x & 0xff) as u8,
            b1 == ((x >> 8) & 0xff) as u8,
            b2 == ((x >> 16) & 0xff) as u8,
            b3 == ((x >> 24) & 0xff) as u8,
    ;
    let b: [u8; 4] = [b0, b1, b2, b3];
    assert(b@ =~= le32(x));
    b
}

/// The feedback value for `rate` on the full-speed bus: samples per 1 ms
/// frame in 10.14 fixed point, rounded down.
pub open spec fn feedback(rate: u32) -> int {
    rate * 16384 / 1000
}

/// The little-endian bytes of a value below 2^24.
pub open spec fn le24(x: u32) -> Seq<u8> {
    seq![(x % 256) as u8, ((x / 256) % 256) as u8, ((x / 65536) % 256) as u8]
}

/// Computes the feedback value for `rate`.
pub fn feedback_value(rate: u32) -> (value: u32)
    requires
        feedback(rate) < 0x100_0000,
    ensures
        value == feedback(rate),
        value * 1000 <= rate * 16384 < (value + 1) * 1000,
{
    let wide: u64 = rate as u64 * 16384;
    let value: u32 = (wide / 1000) as u32;
    proof {
        lemma_feedback_rounds_down(rate);
    }
    value
}

/// The feedback value is the rate in samples per 1 ms frame as 10.14 fixed
/// point, rounded down: it is the largest value whose frame rate
/// `value / 2^14` samples per millisecond does not exceed `rate`.
pub proof fn lemma_feedback_rounds_down(rate: u32)
    ensures
        feedback(rate) * 1000 <= rate * 16384 < (feedback(rate) + 1) * 1000,
{
    let x = rate * 16384;
    assert(x == 1000 * (x / 1000) + x % 1000 && 0 <= x % 1000 < 1000) by {
        vstd::arithmetic::div_mod::lemma_fundamental_div_mod(x, 1000);
        vstd::arithmetic::div_mod::lemma_mod_bound(x, 1000);
    }
}

/// The 3-byte packet that the feedback endpoint sends for `rate`: the
/// feedback value, little-endian.
pub fn feedback_packet(rate: u32) -> (packet: [u8; 3])
    requires
        feedback(rate) < 0x100_0000,
    ensures
        packet@ == le24(feedback(rate) as u32),
{
    let bytes: [u8; 4] = le32_bytes(feedback_value(rate));
    let packet: [u8; 3] = [bytes[0], bytes[1], bytes[2]];
    assert(packet@ =~= le24(feedback(rate) as u32));
    packet
}

/// Body of the audio control header descriptor: class version 2.00, the
/// desktop speaker category, the total length of the audio control
/// descriptors, and no controls.
pub open spec fn ac_header_body() -> Seq<u8> {
    seq![AC_HEADER, 0x00, 0x02, FUNCTION_CATEGORY_DESKTOP_SPEAKER] + le16(AC_TOTAL_LENGTH) + seq![
        0x00,
    ]
}

/// Body of the clock source descriptor: an internal programmable clock whose
/// sampling frequency the host can read and set.
pub open spec fn clock_source_body() -> Seq<u8> {
    seq![
        AC_CLOCK_SOURCE,
        CLOCK_SOURCE_ID,
        CLOCK_INTERNAL_PROGRAMMABLE,
        CLOCK_FREQUENCY_READ_WRITE,
        0x00,
        0x00,
    ]
}

/// Body of the input terminal descriptor: USB streaming into the function,
/// clocked by the clock source, with two channels front left and right.
pub open spec fn input_terminal_body() -> Seq<u8> {
    seq![AC_INPUT_TERM, INPUT_TERM_ID] + le16(TERM_USB_STREAMING) + seq![
        0x00,
        CLOCK_SOURCE_ID,
        CHANNEL_COUNT as u8,
    ] + le32(CHANNEL_CONFIG_FL_FR) + seq![0x00, 0x00, 0x00, 0x00]
}

/// Body of the output terminal descriptor: a speaker fed by the input
/// terminal, clocked by the clock source.
pub open spec fn output_terminal_body() -> Seq<u8> {
    seq![AC_OUTPUT_TERM, OUTPUT_TERM_ID] + le16(TERM_SPEAKER) + seq![
        0x00,
        INPUT_TERM_ID,
        CLOCK_SOURCE_ID,
        0x00,
        0x00,
        0x00,
    ]
}

/// Body of the audio streaming general descriptor: linked to the input
/// terminal, type I PCM, two channels front left and right.
pub open spec fn as_general_body() -> Seq<u8> {
    seq![AS_GENERAL, INPUT_TERM_ID, 0x00, 0x00] + le32(PCM_FORMAT_I) + seq![CHANNEL_COUNT as u8]
        + le32(CHANNEL_CONFIG_FL_FR) + seq![0x00]
}

/// Body of the format type descriptor of `format`: format type I, with the
/// subslot size and the bit resolution of one sample.
pub open spec fn format_type_body(format: SampleFormat) -> Seq<u8> {
    seq![AS_FORMAT_TYPE, 0x01, format.subslot(), format.bits()]
}

/// Body of the class-specific isochronous endpoint descriptor: no controls,
/// no lock delay.
pub open spec fn iso_endpoint_body() -> Seq<u8> {
    seq![EP_GENERAL, 0x00, 0x00, 0x00, 0x00, 0x00]
}

/// The length field of a descriptor with this body: the body plus the length
/// and type bytes.
pub open spec fn descriptor_len(body: Seq<u8>) -> int {
    body.len() + 2int
}

/// Body of the audio control header descriptor.
pub fn ac_header_descriptor() -> (d: [u8; 7])
    ensures
        d@ == ac_header_body(),
{
    let len: [u8; 2] = le16_bytes(AC_TOTAL_LENGTH);
    let d: [u8; 7] = [AC_HEADER, 0x00, 0x02, FUNCTION_CATEGORY_DESKTOP_SPEAKER, len[0], len[1], 0x00];
    assert(d@ =~= ac_header_body());
    d
}

/// Body of the clock source descriptor.
pub fn clock_source_descriptor() -> (d: [u8; 6])
    ensures
        d@ == clock_source_body(),
{
    let d: [u8; 6] = [
        AC_CLOCK_SOURCE,
        CLOCK_SOURCE_ID,
        CLOCK_INTERNAL_PROGRAMMABLE,
        CLOCK_FREQUENCY_READ_WRITE,
        0x00,
        0x00,
    ];
    assert(d@ =~= clock_source_body());
    d
}

/// Body of the input terminal descriptor.
pub fn input_terminal_descriptor() -> (d: [u8; 15])
    ensures
        d@ == input_terminal_body(),
{
    let term: [u8; 2] = le16_bytes(TERM_USB_STREAMING);
    let config: [u8; 4] = le32_bytes(CHANNEL_CONFIG_FL_FR);
    let d: [u8; 15] = [
        AC_INPUT_TERM,
        INPUT_TERM_ID,
        term[0],
        term[1],
        0x00,
        CLOCK_SOURCE_ID,
        CHANNEL_COUNT as u8,
        config[0],
        config[1],
        config[2],
        config[3],
        0x00,
        0x00,
        0x00,
        0x00,
    ];
    assert(d@ =~= input_terminal_body());
    d
}

/// Body of the output terminal descriptor.
pub fn output_terminal_descriptor() -> (d: [u8; 10])
    ensures
        d@ == output_terminal_body(),
{
    let term: [u8; 2] = le16_bytes(TERM_SPEAKER);
    let d: [u8; 10] = [
        AC_OUTPUT_TERM,
        OUTPUT_TERM_ID,
        term[0],
        term[1],
        0x00,
        INPUT_TERM_ID,
        CLOCK_SOURCE_ID,
        0x00,
        0x00,
        0x00,
    ];
    assert(d@ =~= output_terminal_body());
    d
}

/// Body of the audio streaming general descriptor.
pub fn as_general_descriptor() -> (d: [u8; 14])
    ensures
        d@ == as_general_body(),
{
    let format: [u8; 4] = le32_bytes(PCM_FORMAT_I);
    let config: [u8; 4] = le32_bytes(CHANNEL_CONFIG_FL_FR);
    let d: [u8; 14] = [
        AS_GENERAL,
        INPUT_TERM_ID,
        0x00,
        0x00,
        format[0],
        format[1],
        format[2],
        format[3],
        CHANNEL_COUNT as u8,
        config[0],
        config[1],
        config[2],
        config[3],
        0x00,
    ];
    assert(d@ =~= as_general_body());
    d
}

/// Body of the format type descriptor of `format`.
pub fn format_type_descriptor(format: SampleFormat) -> (d: [u8; 4])
    ensures
        d@ == format_type_body(format),
{
    let d: [u8; 4] = [AS_FORMAT_TYPE, 0x01, format.subslot_size(), format.bit_resolution()];
    assert(d@ =~= format_type_body(format));
    d
}

/// Body of the class-specific isochronous endpoint descriptor.
pub fn iso_endpoint_descriptor() -> (d: [u8; 6])
    ensures
        d@ == iso_endpoint_body(),
{
    let d: [u8; 6] = [EP_GENERAL, 0x00, 0x00, 0x00, 0x00, 0x00];
    assert(d@ =~= iso_endpoint_body());
    d
}

/// The total length that the audio control header announces is the sum of
/// the lengths of the audio control descriptors: header, clock source, input
/// terminal and output terminal.
pub proof fn lemma_ac_total_length_matches()
    ensures
        AC_TOTAL_LENGTH as int == descriptor_len(ac_header_body()) + descriptor_len(
            clock_source_body(),
        ) + descriptor_len(input_terminal_body()) + descriptor_len(output_terminal_body()),
        le16(AC_TOTAL_LENGTH) == ac_header_body().subrange(4, 6),
{
    assert(ac_header_body().subrange(4, 6) =~= le16(AC_TOTAL_LENGTH));
}

/// Type of a control request.
pub enum RequestType {
    /// A standard request.
    Standard,
    /// A class request.
    Class,
    /// A vendor request.
    Vendor,
    /// Reserved.
    Reserved,
}

/// Recipient of a control request.
pub enum Recipient {
    /// The device.
    Device,
    /// An interface, named by the low byte of the index.
    Interface,
    /// An endpoint.
    Endpoint,
    /// Something else.
    Other,
    /// Reserved.
    Reserved,
}

/// The fields of a control request that the audio function reads.
pub struct ControlRequest {
    /// Type of the request.
    pub request_type: RequestType,
    /// Recipient of the request.
    pub recipient: Recipient,
    /// Request code.
    pub request: u8,
    /// Request value; its high byte is the control selector.
    pub value: u16,
    /// Request index; its low byte is the interface, its high byte the entity.
    pub index: u16,
}

/// Whether `req` is a class request for the sampling-frequency control of
/// the clock source, on the audio control interface `ac_interface`.
pub open spec fn addresses_sampling_frequency(ac_interface: u8, req: ControlRequest) -> bool {
    &&& req.request_type is Class
    &&& req.recipient is Interface
    &&& req.index % 256 == ac_interface as int
    &&& req.index / 256 == CLOCK_SOURCE_ID as int
    &&& req.value / 256 == SAM_FREQ_CS as int
}

/// The GET_RANGE subrange of a single rate: minimum and maximum the rate,
/// resolution 0.
pub open spec fn rate_subrange(rate: u32) -> Seq<u8> {
    le32(rate) + le32(rate) + le32(0)
}

/// The subranges of `rates`, in order.
pub open spec fn range_entries(rates: Seq<u32>) -> Seq<u8>
    decreases rates.len(),
{
    if rates.len() == 0 {
        Seq::empty()
    } else {
        range_entries(rates.drop_last()) + rate_subrange(rates.last())
    }
}

/// Answer to GET_RANGE: the number of subranges, then one subrange per rate.
pub open spec fn rate_range_response(rates: Seq<u32>) -> Seq<u8> {
    le16(rates.len() as u16) + range_entries(rates)
}

/// The GET_RANGE answer is made of 12-byte subranges, the `i`-th of which
/// holds the `i`-th rate.
pub proof fn lemma_range_entries_layout(rates: Seq<u32>)
    ensures
        range_entries(rates).len() == 12 * rates.len(),
        forall|i: int|
            0 <= i < rates.len() ==> range_entries(rates).subrange(12 * i, 12 * i + 12)
                == rate_subrange(#[trigger] rates[i]),
    decreases rates.len(),
{
    if rates.len() > 0 {
        let init = rates.drop_last();
        lemma_range_entries_layout(init);
        let a = range_entries(init);
        let b = rate_subrange(rates.last());
        assert forall|i: int| 0 <= i < rates.len() implies range_entries(rates).subrange(
            12 * i,
            12 * i + 12,
        ) == rate_subrange(#[trigger] rates[i]) by {
            if i < rates.len() - 1 {
                assert(init[i] == rates[i]);
                assert((a + b).subrange(12 * i, 12 * i + 12) =~= a.subrange(12 * i, 12 * i + 12));
            } else {
                assert((a + b).subrange(12 * i, 12 * i + 12) =~= b);
            }
        }
    }
}

/// What the function answers to an IN control request, in its state
/// (`format` selected, playing at `rate`): GET_CUR gives the current rate,
/// GET_RANGE the rates of the selected format. Anything else is left to the
/// rest of the device (`None`).
pub open spec fn clock_control_response(
    ac_interface: u8,
    format: Option<SampleFormat>,
    rate: u32,
    req: ControlRequest,
) -> Option<Seq<u8>> {
    if !addresses_sampling_frequency(ac_interface, req) {
        None
    } else if req.request == UAC2_GET_CUR {
        Some(le32(rate))
    } else if req.request == UAC2_GET_RANGE {
        Some(rate_range_response(supported_rates(format)))
    } else {
        None
    }
}

/// The value of four little-endian bytes.
pub open spec fn le32_value(bytes: Seq<u8>) -> int {
    bytes[0] + 256 * bytes[1] + 65536 * bytes[2] + 16777216 * bytes[3]
}

fn supported_rate_list(format: Option<SampleFormat>) -> (rates: Vec<u32>)
    ensures
        rates@ == supported_rates(format),
{
    let rates: Vec<u32> = match format {
        Some(SampleFormat::Pcm24) => vec![44_100, 48_000],
        _ => vec![44_100, 48_000, 88_200, 96_000],
    };
    assert(rates@ =~= supported_rates(format));
    rates
}

fn push_bytes(v: &mut Vec<u8>, bytes: &[u8])
    ensures
        final(v)@ == old(v)@ + bytes@,
{
    let ghost start = v@;
    let mut i: usize = 0;
    while i < bytes.len()
        invariant
            i <= bytes@.len(),
            v@ == start + bytes@.take(i as int),
        decreases bytes@.len() - i,
    {
        v.push(bytes[i]);
        assert(v@ =~= start + bytes@.take(i + 1));
        i = i + 1;
    }
    assert(bytes@.take(bytes@.len() as int) =~= bytes@);
}

/// Builds the GET_RANGE answer for `format`.
fn range_response(format: Option<SampleFormat>) -> (resp: Vec<u8>)
    ensures
        resp@ == rate_range_response(supported_rates(format)),
{
    let rates: Vec<u32> = supported_rate_list(format);
    let mut resp: Vec<u8> = Vec::new();
    let count: [u8; 2] = le16_bytes(rates.len() as u16);
    push_bytes(&mut resp, &count);
    let zero: [u8; 4] = le32_bytes(0);
    let mut i: usize = 0;
    while i < rates.len()
        invariant
            i <= rates@.len(),
            rates@ == supported_rates(format),
            zero@ == le32(0),
            resp@ == le16(rates@.len() as u16) + range_entries(rates@.take(i as int)),
        decreases rates@.len() - i,
    {
        let rate: [u8; 4] = le32_bytes(rates[i]);
        push_bytes(&mut resp, &rate);
        push_bytes(&mut resp, &rate);
        push_bytes(&mut resp, &zero);
        assert(rates@.take(i + 1).drop_last() =~= rates@.take(i as int));
        assert(resp@ =~= le16(rates@.len() as u16) + range_entries(rates@.take(i + 1)));
        i = i + 1;
    }
    assert(rates@.take(rates@.len() as int) =~= rates@);
    resp
}

/// Writes `src` to the front of `buf`.
fn copy_prefix(buf: &mut [u8], src: &[u8])
    requires
        src@.len() <= old(buf)@.len(),
    ensures
        final(buf)@ == src@ + old(buf)@.skip(src@.len() as int),
{
    let ghost old_buf = buf@;
    let mut i: usize = 0;
    while i < src.len()
        invariant
            i <= src@.len() <= old_buf.len(),
            buf@ == src@.take(i as int) + old_buf.skip(i as int),
        decreases src@.len() - i,
    {
        buf[i] = src[i];
        assert(buf@ =~= src@.take(i + 1) + old_buf.skip(i + 1));
        i = i + 1;
    }
    assert(src@.take(src@.len() as int) =~= src@);
}

/// The state of the audio function: the numbers the USB stack gave its two
/// interfaces, the format of the selected streaming alternate setting
/// (`None` while nothing plays), and the selected sample rate.
pub struct UsbAudioClass {
    ac_interface: u8,
    streaming_interface: u8,
    format: Option<SampleFormat>,
    rate: u32,
}

impl UsbAudioClass {
    /// Number of the audio control interface.
    pub closed spec fn ac_interface_number(&self) -> u8 {
        self.ac_interface
    }

    /// Number of the audio streaming interface.
    pub closed spec fn streaming_interface_number(&self) -> u8 {
        self.streaming_interface
    }

    /// Format of the selected alternate setting, `None` while nothing plays.
    pub closed spec fn active_format(&self) -> Option<SampleFormat> {
        self.format
    }

    /// The selected sample rate.
    pub closed spec fn current_rate(&self) -> u32 {
        self.rate
    }

    /// The selected rate is one that the selected format supports.
    pub open spec fn wf(&self) -> bool {
        rate_supported(self.active_format(), self.current_rate())
    }

    /// The function, once the USB stack has numbered its interfaces: nothing
    /// plays yet, and the rate is the default one.
    pub fn new(ac_interface: u8, streaming_interface: u8) -> (c: Self)
        ensures
            c.wf(),
            c.ac_interface_number() == ac_interface,
            c.streaming_interface_number() == streaming_interface,
            c.active_format() == None::<SampleFormat>,
            c.current_rate() == SAMPLE_RATE_HZ,
    {
        UsbAudioClass { ac_interface, streaming_interface, format: None, rate: SAMPLE_RATE_HZ }
    }

    /// The selected sample rate.
    pub fn sample_rate(&self) -> (rate: u32)
        ensures
            rate == self.current_rate(),
    {
        self.rate
    }

    /// Format of the selected alternate setting, `None` while nothing plays.
    pub fn stream_format(&self) -> (format: Option<SampleFormat>)
        ensures
            format == self.active_format(),
    {
        self.format
    }

    fn addresses_clock(&self, req: &ControlRequest) -> (yes: bool)
        ensures
            yes == addresses_sampling_frequency(self.ac_interface, *req),
    {
        match (&req.request_type, &req.recipient) {
            (RequestType::Class, Recipient::Interface) => {},
            _ => {
                return false;
            },
        }
        req.index % 256 == self.ac_interface as u16 && req.index / 256 == CLOCK_SOURCE_ID as u16
            && req.value / 256 == SAM_FREQ_CS as u16
    }

    /// Length of the answer that `control_in` gives to `req`, `None` when it
    /// gives none.
    pub fn answer_len(&self, req: &ControlRequest) -> (len: Option<usize>)
        ensures
            match clock_control_response(self.ac_interface_number(), self.active_format(), self.current_rate(), *req) {
                None => len is None,
                Some(r) => len == Some(r.len() as usize),
            },
    {
        if !self.addresses_clock(req) {
            return None;
        }
        if req.request == UAC2_GET_CUR {
            Some(4)
        } else if req.request == UAC2_GET_RANGE {
            let rates: Vec<u32> = supported_rate_list(self.format);
            proof {
                lemma_range_entries_layout(rates@);
            }
            Some(2 + 12 * rates.len())
        } else {
            None
        }
    }

    /// Answers an IN control request. When the request is one of the
    /// function's (see `clock_control_response`), the answer is written to the
    /// front of `buf` and its length returned; otherwise `buf` is untouched
    /// and the result is `None`.
    pub fn control_in(&self, req: &ControlRequest, buf: &mut [u8]) -> (answered: Option<usize>)
        requires
            clock_control_response(self.ac_interface_number(), self.active_format(), self.current_rate(), *req) matches Some(r)
                ==> r.len() <= old(buf)@.len(),
        ensures
            match clock_control_response(self.ac_interface_number(), self.active_format(), self.current_rate(), *req) {
                None => answered is None && final(buf)@ == old(buf)@,
                Some(r) => answered == Some(r.len() as usize) && final(buf)@ == r + old(buf)@.skip(
                    r.len() as int,
                ),
            },
            final(buf)@.len() == old(buf)@.len(),
            answered is Some <==> ({
                &&& req.request_type is Class
                &&& req.recipient is Interface
                &&& req.index % 256 == self.ac_interface_number()
                &&& req.index / 256 == CLOCK_SOURCE_ID
                &&& req.value / 256 == SAM_FREQ_CS
                &&& (req.request == UAC2_GET_CUR || req.request == UAC2_GET_RANGE)
            }),
            answered is None ==> final(buf)@ == old(buf)@,
            addresses_sampling_frequency(self.ac_interface_number(), *req) && req.request
                == UAC2_GET_CUR ==> {
                &&& answered == Some(4usize)
                &&& final(buf)@[0] + 256 * final(buf)@[1] + 65536 * final(buf)@[2] + 16777216
                    * final(buf)@[3] == self.current_rate()
            },
            addresses_sampling_frequency(self.ac_interface_number(), *req) && req.request
                == UAC2_GET_RANGE ==> {
                let rates = supported_rates(self.active_format());
                &&& answered == Some((2 + 12 * rates.len()) as usize)
                &&& final(buf)@[0] + 256 * final(buf)@[1] == rates.len()
                &&& forall|i: int|
                    0 <= i < rates.len() ==> {
                        let k = 2 + 12 * i;
                        &&& final(buf)@[k] + 256 * final(buf)@[k + 1] + 65536 * final(buf)@[k + 2]
                            + 16777216 * final(buf)@[k + 3] == #[trigger] rates[i]
                        &&& final(buf)@[k + 4] + 256 * final(buf)@[k + 5] + 65536 * final(buf)@[k
                            + 6] + 16777216 * final(buf)@[k + 7] == rates[i]
                        &&& final(buf)@[k + 8] + 256 * final(buf)@[k + 9] + 65536 * final(buf)@[k
                            + 10] + 16777216 * final(buf)@[k + 11] == 0
                    }
            },
    {
        let ghost old_buf = buf@;
        if !self.addresses_clock(req) {
            return None;
        }
        if req.request == UAC2_GET_CUR {
            let bytes: [u8; 4] = le32_bytes(self.rate);
            copy_prefix(buf, &bytes);
            proof {
                lemma_le32_round_trip(self.rate);
                assert(buf@.subrange(0, 4) =~= le32(self.rate));
                assert(buf@[0] == le32(self.rate)[0] && buf@[1] == le32(self.rate)[1] && buf@[2]
                    == le32(self.rate)[2] && buf@[3] == le32(self.rate)[3]);
            }
            Some(4)
        } else if req.request == UAC2_GET_RANGE {
            let response: Vec<u8> = range_response(self.format);
            copy_prefix(buf, response.as_slice());
            proof {
                let rates = supported_rates(self.format);
                let entries = range_entries(rates);
                lemma_range_entries_layout(rates);
                lemma_le16_round_trip(rates.len() as u16);
                assert(buf@[0] == le16(rates.len() as u16)[0] && buf@[1] == le16(
                    rates.len() as u16,
                )[1]);
                assert forall|i: int| 0 <= i < rates.len() implies {
                    let k = 2 + 12 * i;
                    &&& buf@[k] + 256 * buf@[k + 1] + 65536 * buf@[k + 2] + 16777216 * buf@[k + 3]
                        == #[trigger] rates[i]
                    &&& buf@[k + 4] + 256 * buf@[k + 5] + 65536 * buf@[k + 6] + 16777216 * buf@[k
                        + 7] == rates[i]
                    &&& buf@[k + 8] + 256 * buf@[k + 9] + 65536 * buf@[k + 10] + 16777216 * buf@[k
                        + 11] == 0
                } by {
                    let k = 2 + 12 * i;
                    let sub = entries.subrange(12 * i, 12 * i + 12);
                    assert(sub == rate_subrange(rates[i]));
                    lemma_le32_round_trip(rates[i]);
                    lemma_le32_round_trip(0);
                    assert forall|j: int| 0 <= j < 12 implies buf@[k + j] == #[trigger] sub[j] by {
                        assert(buf@[k + j] == entries[12 * i + j]);
                    }
                    assert(sub[0] == le32(rates[i])[0] && sub[1] == le32(rates[i])[1] && sub[2]
                        == le32(rates[i])[2] && sub[3] == le32(rates[i])[3]);
                    assert(sub[4] == le32(rates[i])[0] && sub[5] == le32(rates[i])[1] && sub[6]
                        == le32(rates[i])[2] && sub[7] == le32(rates[i])[3]);
                    assert(sub[8] == le32(0)[0] && sub[9] == le32(0)[1] && sub[10] == le32(0)[2]
                        && sub[11] == le32(0)[3]);
                }
            }
            Some(response.len())
        } else {
            None
        }
    }

    /// Handles an OUT control request carrying `data`. A SET_CUR of the
    /// sampling frequency is accepted (`Some(true)`) when `data` is a
    /// 4-byte rate that the selected format supports, and that rate becomes
    /// the current one; otherwise it is rejected (`Some(false)`) and nothing
    /// changes. Other requests are left to the rest of the device (`None`).
    pub fn control_out(&mut self, req: &ControlRequest, data: &[u8]) -> (accepted: Option<bool>)
        requires
            old(self).wf(),
        ensures
            final(self).wf(),
            !addresses_sampling_frequency(old(self).ac_interface_number(), *req) || req.request
                != UAC2_SET_CUR ==> accepted is None && *final(self) == *old(self),
            addresses_sampling_frequency(old(self).ac_interface_number(), *req) && req.request
                == UAC2_SET_CUR ==> if data@.len() == 4 && rate_supported(
                old(self).active_format(),
                le32_value(data@) as u32,
            ) {
                &&& accepted == Some(true)
                &&& final(self).current_rate() == le32_value(data@)
                &&& final(self).active_format() == old(self).active_format()
                &&& final(self).ac_interface_number() == old(self).ac_interface_number()
                &&& final(self).streaming_interface_number() == old(
                    self,
                ).streaming_interface_number()
            } else {
                accepted == Some(false) && *final(self) == *old(self)
            },
    {
        if !self.addresses_clock(req) || req.request != UAC2_SET_CUR {
            return None;
        }
        if data.len() != 4 {
            return Some(false);
        }
        let rate: u32 = data[0] as u32 + 256 * data[1] as u32 + 65536 * data[2] as u32 + 16777216
            * data[3] as u32;
        if !rate_is_supported(self.format, rate) {
            return Some(false);
        }
        self.rate = rate;
        Some(true)
    }

    /// Selects alternate setting `alternate` of interface `iface`. On the
    /// streaming interface, settings 1 (16-bit) and 2 (24-bit) play and any
    /// other stops; the result says whether the stream now plays. The rate is
    /// kept when the new format supports it and returns to the default rate
    /// otherwise. Other interfaces change nothing (`None`).
    pub fn set_alternate_setting(&mut self, iface: u8, alternate: u8) -> (active: Option<bool>)
        requires
            old(self).wf(),
        ensures
            final(self).wf(),
            iface == old(self).streaming_interface_number() ==> active == Some(
                alternate == 1 || alternate == 2,
            ),
            iface == old(self).streaming_interface_number() && alternate == 1 ==> final(self).active_format() == Some(SampleFormat::Pcm16),
            iface == old(self).streaming_interface_number() && alternate == 2 ==> final(self).active_format() == Some(SampleFormat::Pcm24),
            iface == old(self).streaming_interface_number() && alternate != 1 && alternate != 2
                ==> final(self).active_format() == None::<SampleFormat>,
            iface == old(self).streaming_interface_number() ==> {
                &&& active == Some(alternate_format(alternate) is Some)
                &&& final(self).active_format() == alternate_format(alternate)
                &&& final(self).current_rate() == (if rate_supported(
                    alternate_format(alternate),
                    old(self).current_rate(),
                ) {
                    old(self).current_rate()
                } else {
                    SAMPLE_RATE_HZ
                })
                &&& final(self).ac_interface_number() == old(self).ac_interface_number()
                &&& final(self).streaming_interface_number() == old(
                    self,
                ).streaming_interface_number()
            },
            iface != old(self).streaming_interface_number() ==> active is None && *final(self)
                == *old(self),
    {
        if iface != self.streaming_interface {
            return None;
        }
        let format: Option<SampleFormat> = format_of_alternate(alternate);
        if !rate_is_supported(format, self.rate) {
            self.rate = SAMPLE_RATE_HZ;
        }
        self.format = format;
        Some(format.is_some())
    }

    /// A bus reset: the stream stops; the rate is kept.
    pub fn reset(&mut self)
        requires
            old(self).wf(),
        ensures
            final(self).wf(),
            final(self).active_format() == None::<SampleFormat>,
            final(self).current_rate() == old(self).current_rate(),
            final(self).ac_interface_number() == old(self).ac_interface_number(),
            final(self).streaming_interface_number() == old(self).streaming_interface_number(),
    {
        self.format = None;
    }
}

} // verus!
