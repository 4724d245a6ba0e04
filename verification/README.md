# usb_i2s_dac

Verified core of a CH32V305 USB Audio Class 2.0 speaker that plays the
received PCM stream over I2S.

- `src/` is the library, verified with Verus:
  - `fifo.rs`: the ring-buffer sample FIFO between USB and I2S, with its
    model (the queued samples, oldest first) and the laws of pushing and
    popping.
  - `pcm.rs`: the two sample formats (16-bit, packed 24-bit) and the
    decoding of USB packets into the 16-bit words of the I2S data register.
  - `stream.rs`: storing a received packet, one step of the receive loop,
    and producing a playback chunk padded with silence.
  - `audio.rs`: the supported rates (44.1, 48, 88.2, 96 kHz for 16-bit;
    44.1, 48 kHz for 24-bit), packet and FIFO sizes, the feedback value, the
    class-specific descriptors, and the GET_CUR / GET_RANGE / SET_CUR
    handling of the clock's sampling frequency.
  - `i2s.rs`: the I2S clock divider, its prescaler fields, GPIO slot
    arithmetic and the transmitter's configure/start bookkeeping.
- `app/` is the firmware around it: embassy tasks, the embassy-usb handler
  and builder calls, and the SPI2/DMA register accesses.
- `tests/` runs the library on concrete values.
