use gpio_bridge::gpio::{chip_path, GpioId, ParseError, LINES_PER_CHIP};

fn address(id: &str) -> (u32, u32) {
    let g = GpioId::parse(id).expect("identifier resolves");
    (g.get_chip_number(), g.get_line_offset())
}

#[test]
fn resolve_gpio1_c0_is_chip_1_offset_16() {
    assert_eq!(address("GPIO1_C0"), (1, 16));
}

#[test]
fn resolve_port_letter_ignores_case() {
    assert_eq!(address("GPIO1_c0"), (1, 16));
    assert_eq!(address("GPIO0_a0"), (0, 0));
}

#[test]
fn resolve_carries_into_next_chip() {
    // 0*32 + 4*8 + 3 = 35
    assert_eq!(address("GPIO0_E3"), (1, 3));
    // 3*32 + 3*8 + 7 = 127
    assert_eq!(address("GPIO3_D7"), (3, 31));
}

#[test]
fn resolve_keeps_the_identifier() {
    let g = GpioId::parse("GPIO2_B5").unwrap();
    assert_eq!(g.as_str(), "GPIO2_B5");
    assert_eq!((g.get_chip_number(), g.get_line_offset()), (2, 13));
}

#[test]
fn resolve_is_deterministic() {
    for id in ["GPIO1_C0", "GPIO0_E3", "GPIO1_Z99", "GPIO7_h7"] {
        let a = GpioId::parse(id).unwrap();
        let b = GpioId::parse(id).unwrap();
        assert_eq!(a.get_chip_number(), b.get_chip_number());
        assert_eq!(a.get_line_offset(), b.get_line_offset());
        assert!(a.get_line_offset() < LINES_PER_CHIP);
    }
}

#[test]
fn resolve_bad_prefix() {
    assert_eq!(GpioId::parse("BADPREFIX_A0").unwrap_err(), ParseError::BadPrefix);
    assert_eq!(GpioId::parse("gpio1_C0").unwrap_err(), ParseError::BadPrefix);
    assert_eq!(GpioId::parse("").unwrap_err(), ParseError::BadPrefix);
}

#[test]
fn resolve_large_pin_lands_off_board() {
    // 1*32 + 25*8 + 99 = 331 = 10*32 + 11
    assert_eq!(address("GPIO1_Z99"), (10, 11));
}

#[test]
fn resolve_bad_bank() {
    assert_eq!(GpioId::parse("GPIO1C0").unwrap_err(), ParseError::BadBank);
    assert_eq!(GpioId::parse("GPIOx_C0").unwrap_err(), ParseError::BadBank);
    assert_eq!(GpioId::parse("GPIO_C0").unwrap_err(), ParseError::BadBank);
    assert_eq!(GpioId::parse("GPIO-1_C0").unwrap_err(), ParseError::BadBank);
    assert_eq!(GpioId::parse("GPIO4294967296_A0").unwrap_err(), ParseError::BadBank);
}

#[test]
fn resolve_bad_pin() {
    assert_eq!(GpioId::parse("GPIO1_").unwrap_err(), ParseError::BadPin);
    assert_eq!(GpioId::parse("GPIO1_C").unwrap_err(), ParseError::BadPin);
    assert_eq!(GpioId::parse("GPIO1_Cx").unwrap_err(), ParseError::BadPin);
    assert_eq!(GpioId::parse("GPIO1_90").unwrap_err(), ParseError::BadPin);
    assert_eq!(GpioId::parse("GPIO1_C0_1").unwrap_err(), ParseError::BadPin);
}

#[test]
fn resolve_accepts_plus_sign() {
    assert_eq!(address("GPIO+1_C+0"), (1, 16));
    assert_eq!(GpioId::parse("GPIO+_C0").unwrap_err(), ParseError::BadBank);
}

#[test]
fn resolve_chip_index_overflow() {
    // 4294967295*32 + 7*8 + 7 puts the chip index at 2^32
    assert_eq!(GpioId::parse("GPIO4294967295_H7").unwrap_err(), ParseError::OutOfRange);
    assert_eq!(address("GPIO4294967295_A0"), (4294967295, 0));
}

#[test]
fn from_literal_resolves() {
    let g = GpioId::from_literal("GPIO1_C0");
    assert_eq!((g.get_chip_number(), g.get_line_offset()), (1, 16));
}

#[test]
fn chip_path_appends_decimal_index() {
    assert_eq!(chip_path(0), "/dev/gpiochip0");
    assert_eq!(chip_path(1), "/dev/gpiochip1");
    assert_eq!(chip_path(10), "/dev/gpiochip10");
    assert_eq!(chip_path(4294967295), "/dev/gpiochip4294967295");
}
