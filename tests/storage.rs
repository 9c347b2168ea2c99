use gpio_bridge::gpio::{GpioError, GpioStorage, ParseError, GPIO_CHIPS_N};
use gpio_bridge::handler::{Action, Handler};
use gpio_bridge::handlers::handler::HandlerError;
use gpio_bridge::handlers::led::Led;

#[test]
fn unsupported_chip_names_path_and_count() {
    let mut s = GpioStorage::new();
    match s.get_or_create("GPIO1_Z99") {
        Err(GpioError::UnsupportedChip { id, path, chips }) => {
            assert_eq!(id, "GPIO1_Z99");
            assert_eq!(path, "/dev/gpiochip10");
            assert_eq!(chips, GPIO_CHIPS_N);
            assert_eq!(chips, 4);
        }
        other => panic!("unexpected {:?}", other),
    }
    assert_eq!(s.lookup("GPIO1_Z99"), None);
}

#[test]
fn first_chip_past_the_board_is_unsupported() {
    let mut s = GpioStorage::new();
    // 4*32 + 0 + 0 = 128: chip 4 of a four-chip board
    match s.get_or_create("GPIO4_A0") {
        Err(GpioError::UnsupportedChip { path, .. }) => assert_eq!(path, "/dev/gpiochip4"),
        other => panic!("unexpected {:?}", other),
    }
}

#[test]
fn invalid_identifier_touches_nothing() {
    let mut s = GpioStorage::new();
    assert!(matches!(
        s.get_or_create("BADPREFIX_A0"),
        Err(GpioError::InvalidIdentifier(ParseError::BadPrefix))
    ));
    assert!(matches!(
        s.get_or_create("GPIO1_"),
        Err(GpioError::InvalidIdentifier(ParseError::BadPin))
    ));
    assert_eq!(s.lookup("BADPREFIX_A0"), None);
}

#[test]
fn missing_chip_device_fails_and_is_retried() {
    let mut s = GpioStorage::new();
    if std::path::Path::new("/dev/gpiochip3").exists() {
        return;
    }
    for _ in 0..2 {
        match s.get_or_create("GPIO3_A1") {
            Err(GpioError::ChipOpenFailed { path, .. }) => assert_eq!(path, "/dev/gpiochip3"),
            other => panic!("unexpected {:?}", other),
        }
        assert_eq!(s.lookup("GPIO3_A1"), None);
    }
}

#[test]
fn unknown_line_index_is_refused() {
    let mut s = GpioStorage::new();
    assert!(matches!(s.set_value(0, 1), Err(GpioError::UnknownLine(0))));
    assert!(matches!(s.get_value(3), Err(GpioError::UnknownLine(3))));
}

#[test]
fn action_apply_values() {
    let mut v: u8 = 0;
    assert_eq!(Action::On.apply(&mut v), None);
    assert_eq!(v, 1);
    assert_eq!(Action::Off.apply(&mut v), None);
    assert_eq!(v, 0);
    assert_eq!(Action::Toggle.apply(&mut v), None);
    assert_eq!(v, 1);
    assert_eq!(Action::Toggle.apply(&mut v), None);
    assert_eq!(v, 0);
    let mut w: u8 = 5;
    assert_eq!(Action::Toggle.apply(&mut w), None);
    assert_eq!(w, 1);
    let mut x: u8 = 1;
    assert_eq!(Action::Status.apply(&mut x), Some(1));
    assert_eq!(x, 1);
    assert_eq!(Action::Null.apply(&mut x), None);
    assert_eq!(x, 1);
}

#[test]
fn handler_unknown_signal() {
    let mut h = Handler::new(GpioStorage::new());
    assert!(matches!(h.send(7), Err(HandlerError::UnknownSignal(7))));
    assert_eq!(h._status("GPIO1_C0"), None);
}

#[test]
fn handler_binding_needs_a_line() {
    let mut h = Handler::new(GpioStorage::new());
    assert!(matches!(
        h.add_gpio_handler(1, "BADPREFIX_A0", Action::On),
        Err(HandlerError::Gpio(GpioError::InvalidIdentifier(ParseError::BadPrefix)))
    ));
    assert!(matches!(
        h.add_gpio_handler(1, "GPIO1_Z99", Action::On),
        Err(HandlerError::Gpio(GpioError::UnsupportedChip { .. }))
    ));
    assert!(matches!(h.send(1), Err(HandlerError::UnknownSignal(1))));
}

#[test]
fn led_needs_a_line() {
    assert!(matches!(
        Led::new(GpioStorage::new(), "GPIO1_Z99"),
        Err(HandlerError::Gpio(GpioError::UnsupportedChip { .. }))
    ));
    assert!(matches!(
        Led::new(GpioStorage::new(), "LED"),
        Err(HandlerError::Gpio(GpioError::InvalidIdentifier(ParseError::BadPrefix)))
    ));
}
