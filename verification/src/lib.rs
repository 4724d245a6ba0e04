//! Verified core of a USB Audio Class 2.0 speaker that forwards PCM to I2S.
//!
//! The library holds the parts of the device that compute: the sample FIFO
//! between the USB receive path and the I2S playback path, the decoding of
//! USB packets into 16-bit words, the class-specific descriptors and control
//! answers of the audio function, and the I2S clock and pin arithmetic.

pub mod audio;
pub mod fifo;
pub mod i2s;
pub mod pcm;
pub mod stream;
