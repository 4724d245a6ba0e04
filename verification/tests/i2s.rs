use usb_i2s_dac::i2s::{calculate_i2s_divider, gpio_pin_config_slot, i2s_prescaler, I2sTxState};

#[test]
fn divider_for_supported_rates() {
    assert_eq!(calculate_i2s_divider(48_000), 47);
    assert_eq!(calculate_i2s_divider(44_100), 51);
    assert_eq!(calculate_i2s_divider(96_000), 23);
    assert_eq!(calculate_i2s_divider(88_200), 26);
}

#[test]
fn divider_rounds_to_nearest() {
    // 144 MHz / (64 * 45_000) = 50 exactly.
    assert_eq!(calculate_i2s_divider(45_000), 50);
    // 144 MHz / (64 * 45_455) = 49.4997..., rounds down.
    assert_eq!(calculate_i2s_divider(45_455), 49);
    // 144 MHz / (64 * 45_454) = 49.5006..., rounds up to 50.
    assert_eq!(calculate_i2s_divider(45_454), 50);
}

#[test]
fn divider_is_clamped() {
    assert_eq!(calculate_i2s_divider(1), 510);
    assert_eq!(calculate_i2s_divider(4_000), 510);
    assert_eq!(calculate_i2s_divider(1_000_000), 4);
    assert_eq!(calculate_i2s_divider(67_108_863), 4);
}

#[test]
fn prescaler_fields_encode_divider() {
    let p = i2s_prescaler(48_000);
    assert_eq!(p.i2sdiv, 23);
    assert!(p.odd);
    let p = i2s_prescaler(45_000);
    assert_eq!(p.i2sdiv, 25);
    assert!(!p.odd);
    for rate in [44_100u32, 48_000, 88_200, 96_000, 1, 1_000_000] {
        let p = i2s_prescaler(rate);
        assert_eq!(2 * p.i2sdiv as u16 + p.odd as u16, calculate_i2s_divider(rate));
    }
}

#[test]
fn gpio_slots() {
    let s = gpio_pin_config_slot(12);
    assert!(s.high_register);
    assert_eq!(s.index, 4);
    let s = gpio_pin_config_slot(15);
    assert!(s.high_register);
    assert_eq!(s.index, 7);
    let s = gpio_pin_config_slot(3);
    assert!(!s.high_register);
    assert_eq!(s.index, 3);
    let s = gpio_pin_config_slot(8);
    assert!(s.high_register);
    assert_eq!(s.index, 0);
}

#[test]
fn start_enables_once_per_configure() {
    let mut tx = I2sTxState::new();
    assert!(tx.start());
    assert!(!tx.start());
    tx.configure(48_000);
    assert!(tx.start());
    assert!(!tx.start());
}

#[test]
fn reconfigure_only_on_rate_change() {
    let mut tx = I2sTxState::new();
    assert!(tx.needs_configure(48_000));
    tx.configure(48_000);
    assert!(!tx.needs_configure(48_000));
    assert!(tx.needs_configure(44_100));
    tx.start();
    assert!(!tx.needs_configure(48_000));
    tx.configure(44_100);
    assert!(tx.needs_configure(48_000));
    assert!(!tx.needs_configure(44_100));
}
