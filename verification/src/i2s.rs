//! I2S clock divider and transmitter bookkeeping.

use vstd::prelude::*;

verus! {

/// Clock feeding the I2S prescaler, in hertz.
pub const I2S_CLOCK_HZ: u32 = 144_000_000;

/// Bit clocks per stereo frame (two 32-bit channels).
pub const I2S_FRAME_BITS: u32 = 64;

/// Smallest divider the I2S prescaler accepts.
pub const I2S_MIN_DIVIDER: u32 = 4;

/// Largest divider the I2S prescaler accepts.
pub const I2S_MAX_DIVIDER: u32 = 510;

/// The divider before clamping: `I2S_CLOCK_HZ / (I2S_FRAME_BITS * rate)`
/// rounded to the nearest integer, halves rounding up.
pub open spec fn unclamped_divider(sample_rate_hz: int) -> int {
    let base = I2S_FRAME_BITS * sample_rate_hz;
    (I2S_CLOCK_HZ + base / 2) / base
}

/// The divider the transmitter programs for a sample rate: the nearest
/// integer divider, kept inside the range the prescaler accepts.
pub open spec fn i2s_divider(sample_rate_hz: int) -> int {
    let q = unclamped_divider(sample_rate_hz);
    if q < I2S_MIN_DIVIDER {
        I2S_MIN_DIVIDER as int
    } else if q > I2S_MAX_DIVIDER {
        I2S_MAX_DIVIDER as int
    } else {
        q
    }
}

/// What the caller must guarantee about a sample rate: it is not zero and a
/// frame's bit clock, `I2S_FRAME_BITS * rate`, fits in a `u32`.
pub open spec fn valid_sample_rate(sample_rate_hz: int) -> bool {
    0 < sample_rate_hz && I2S_FRAME_BITS * sample_rate_hz <= u32::MAX
}

/// Computes the I2S divider for `sample_rate_hz`.
pub fn calculate_i2s_divider(sample_rate_hz: u32) -> (divider: u16)
    requires
        valid_sample_rate(sample_rate_hz as int),
    ensures
        divider as int == i2s_divider(sample_rate_hz as int),
        I2S_MIN_DIVIDER <= divider <= I2S_MAX_DIVIDER,
{
    let base: u32 = I2S_FRAME_BITS * sample_rate_hz;
    let rounded: u32 = (I2S_CLOCK_HZ + (base / 2)) / base;
    let clamped: u32 = if rounded < I2S_MIN_DIVIDER {
        I2S_MIN_DIVIDER
    } else if rounded > I2S_MAX_DIVIDER {
        I2S_MAX_DIVIDER
    } else {
        rounded
    };
    clamped as u16
}

/// The divider before clamping is the integer nearest to
/// `I2S_CLOCK_HZ / (I2S_FRAME_BITS * rate)`: it misses the exact quotient by at
/// most half a step, and a tie rounds up.
pub proof fn lemma_divider_is_nearest(sample_rate_hz: int)
    requires
        valid_sample_rate(sample_rate_hz),
    ensures
        ({
            let base = I2S_FRAME_BITS * sample_rate_hz;
            let q = unclamped_divider(sample_rate_hz);
            &&& 2 * (q * base - I2S_CLOCK_HZ) <= base
            &&& 2 * (I2S_CLOCK_HZ - q * base) < base
        }),
{
    let base = I2S_FRAME_BITS * sample_rate_hz;
    let c = I2S_CLOCK_HZ as int;
    let q = unclamped_divider(sample_rate_hz);
    assert(base % 2 == 0);
    assert(q * base <= c + base / 2 < q * base + base) by (nonlinear_arith)
        requires
            base > 0,
            q == (c + base / 2) / base,
    ;
}

/// The two prescaler register fields that encode a divider.
pub struct I2sPrescaler {
    /// Linear prescaler (`I2SDIV`).
    pub i2sdiv: u8,
    /// Odd factor (`ODD`): adds one to twice the linear prescaler.
    pub odd: bool,
}

/// Splits the divider for `sample_rate_hz` into the prescaler fields that
/// `configure` writes.
pub fn i2s_prescaler(sample_rate_hz: u32) -> (p: I2sPrescaler)
    requires
        valid_sample_rate(sample_rate_hz as int),
    ensures
        p.i2sdiv as int == i2s_divider(sample_rate_hz as int) / 2,
        p.odd == (i2s_divider(sample_rate_hz as int) % 2 == 1),
        2 * p.i2sdiv + (if p.odd { 1int } else { 0int }) == i2s_divider(sample_rate_hz as int),
{
    let divider: u16 = calculate_i2s_divider(sample_rate_hz);
    let prescaler: u16 = divider / 2;
    let odd: bool = divider % 2 != 0;
    I2sPrescaler { i2sdiv: prescaler as u8, odd }
}

/// Which configuration register of a GPIO port holds a pin, and the pin's
/// slot in it.
pub struct PinConfigSlot {
    /// `true` for the high register (pins 8 to 15), `false` for the low one.
    pub high_register: bool,
    /// The pin's position among the eight fields of that register.
    pub index: usize,
}

/// Locates the mode and configuration fields of GPIO pin `pin`.
pub fn gpio_pin_config_slot(pin: usize) -> (slot: PinConfigSlot)
    requires
        pin < 16,
    ensures
        slot.high_register == (pin >= 8),
        slot.index == pin % 8,
        slot.index < 8,
{
    if pin < 8 {
        PinConfigSlot { high_register: false, index: pin }
    } else {
        PinConfigSlot { high_register: true, index: pin - 8 }
    }
}

/// The transmitter's bookkeeping: the sample rate it was last configured
/// for (0 before the first `configure`), and whether it runs. `start`
/// enables the hardware once, and a new `configure` stops it until the next
/// `start`.
pub struct I2sTxState {
    started: bool,
    rate: u32,
}

impl I2sTxState {
    /// Whether the transmitter runs.
    pub closed spec fn started(&self) -> bool {
        self.started
    }

    /// The rate of the last `configure`, 0 if there was none.
    pub closed spec fn configured_rate(&self) -> u32 {
        self.rate
    }

    /// A transmitter that was neither configured nor started.
    pub fn new() -> (s: Self)
        ensures
            !s.started(),
            s.configured_rate() == 0,
    {
        I2sTxState { started: false, rate: 0 }
    }

    /// Records that the peripheral was reconfigured for `sample_rate_hz`,
    /// which stops it.
    pub fn configure(&mut self, sample_rate_hz: u32)
        ensures
            !final(self).started(),
            final(self).configured_rate() == sample_rate_hz,
    {
        self.started = false;
        self.rate = sample_rate_hz;
    }

    /// Whether the peripheral must be reconfigured to play at
    /// `sample_rate_hz`: it was configured for another rate, or not at all.
    pub fn needs_configure(&self, sample_rate_hz: u32) -> (needed: bool)
        ensures
            needed == (self.configured_rate() != sample_rate_hz),
    {
        self.rate != sample_rate_hz
    }

    /// Records a start request; the result says whether the hardware must be
    /// enabled now, which is the case only when it was not running.
    pub fn start(&mut self) -> (enable: bool)
        ensures
            enable == !old(self).started(),
            final(self).started(),
            final(self).configured_rate() == old(self).configured_rate(),
    {
        if self.started {
            return false;
        }
        self.started = true;
        true
    }
}

} // verus!
