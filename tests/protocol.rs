use gpio_bridge::handlers::handler::{Handler, HandlerError};
use gpio_bridge::handlers::led::{decode_command, LedCommand, LedState, HANDSHAKE, LED_OFF, LED_ON};
use gpio_bridge::protocol::{reply_for, serve_byte, serve_bytes, ACK, EOT, NAK};

/// An LED whose line is a list of written values.
struct FakeLed {
    state: LedState,
    writes: Vec<u8>,
    fail_writes: bool,
}

impl FakeLed {
    fn new() -> FakeLed {
        FakeLed { state: LedState::Off, writes: Vec::new(), fail_writes: false }
    }

    fn drive(&mut self, state: LedState, value: u8) -> Result<(), HandlerError> {
        if self.fail_writes {
            return Err(HandlerError::UnknownCommand(value));
        }
        self.writes.push(value);
        self.state = state;
        Ok(())
    }
}

impl Handler for FakeLed {
    fn inv(&self) -> bool {
        true
    }

    fn at_rest(&self) -> bool {
        self.state == LedState::Off
    }

    fn handled(_pre: &Self, _post: &Self, _byte: u8, _r: Result<(), HandlerError>) -> bool {
        true
    }

    fn rejects(&self, byte: u8) -> bool {
        decode_command(byte).is_none()
    }

    fn ignores(&self, byte: u8) -> bool {
        decode_command(byte) == Some(LedCommand::Ping)
    }

    fn init_default(&mut self) -> Result<(), HandlerError> {
        self.drive(LedState::Off, 0)
    }

    fn handle(&mut self, byte: u8) -> Result<(), HandlerError> {
        match decode_command(byte) {
            Some(LedCommand::TurnOn) => self.drive(LedState::On, 1),
            Some(LedCommand::TurnOff) => self.drive(LedState::Off, 0),
            Some(LedCommand::Ping) => Ok(()),
            None => Err(HandlerError::UnknownCommand(byte)),
        }
    }
}

#[test]
fn reply_codes() {
    assert_eq!(ACK, 0x06);
    assert_eq!(NAK, 0x15);
    assert_eq!(EOT, 0x04);
    assert_eq!(reply_for(&Ok(())), ACK);
    assert_eq!(reply_for(&Err(HandlerError::UnknownCommand(0x99))), NAK);
}

#[test]
fn decode_led_commands() {
    assert_eq!(decode_command(LED_ON), Some(LedCommand::TurnOn));
    assert_eq!(decode_command(LED_OFF), Some(LedCommand::TurnOff));
    assert_eq!(decode_command(HANDSHAKE), Some(LedCommand::Ping));
    assert_eq!(decode_command(0x31), Some(LedCommand::TurnOn));
    assert_eq!(decode_command(0x30), Some(LedCommand::TurnOff));
    assert_eq!(decode_command(0x05), Some(LedCommand::Ping));
    assert_eq!(decode_command(0x99), None);
    assert_eq!(decode_command(EOT), None);
}

#[test]
fn led_session_on_off_ping_end() {
    let mut led = FakeLed::new();
    led.init_default().unwrap();
    assert_eq!(led.state, LedState::Off);
    let replies = serve_bytes(&mut led, &[0x31, 0x30, 0x05, 0x04]);
    assert_eq!(replies, vec![ACK, ACK, ACK]);
    assert_eq!(led.state, LedState::Off);
    assert_eq!(led.writes, vec![0, 1, 0]);
}

#[test]
fn unknown_byte_gets_one_nak_and_changes_nothing() {
    let mut led = FakeLed::new();
    assert_eq!(serve_byte(&mut led, LED_ON), Some(ACK));
    assert_eq!(serve_byte(&mut led, 0x99), Some(NAK));
    assert_eq!(led.state, LedState::On);
    assert_eq!(led.writes, vec![1]);
    assert_eq!(serve_bytes(&mut led, &[0x99]), vec![NAK]);
    assert_eq!(led.state, LedState::On);
}

#[test]
fn end_byte_gets_no_reply_and_stops_the_session() {
    let mut led = FakeLed::new();
    assert_eq!(serve_byte(&mut led, EOT), None);
    assert_eq!(serve_bytes(&mut led, &[0x31, 0x04, 0x30, 0x99]), vec![ACK]);
    assert_eq!(led.state, LedState::On);
    assert_eq!(serve_bytes(&mut led, &[0x04]), Vec::<u8>::new());
    assert_eq!(serve_bytes(&mut led, &[]), Vec::<u8>::new());
}

#[test]
fn failed_write_gets_nak_and_session_goes_on() {
    let mut led = FakeLed::new();
    led.fail_writes = true;
    assert_eq!(serve_bytes(&mut led, &[0x31, 0x05, 0x99]), vec![NAK, ACK, NAK]);
    assert_eq!(led.state, LedState::Off);
}
