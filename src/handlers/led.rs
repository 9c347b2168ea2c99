use crate::gpio::{get_or_create_spec, lemma_drive, lemma_unique_ids, GpioError, GpioStorage};
use crate::handlers::handler::{Handler, HandlerError};
use crate::protocol::{session, ACK, NAK};
use vstd::prelude::*;

verus! {

/// Command byte that turns the LED off.
pub const LED_OFF: u8 = 0x30;

/// Command byte that turns the LED on.
pub const LED_ON: u8 = 0x31;

/// Command byte that only checks that the peer is heard.
pub const HANDSHAKE: u8 = 0x05;

/// What the LED shows.
#[derive(Clone, Copy, Debug, PartialEq, Eq, Structural)]
pub enum LedState {
    Off,
    On,
    Blink { ms: i32 },
}

/// A command byte of the LED, decoded.
#[derive(Clone, Copy, Debug, PartialEq, Eq, Structural)]
pub enum LedCommand {
    TurnOn,
    TurnOff,
    Ping,
}

pub open spec fn command_of(byte: u8) -> Option<LedCommand> {
    if byte == LED_ON {
        Some(LedCommand::TurnOn)
    } else if byte == LED_OFF {
        Some(LedCommand::TurnOff)
    } else if byte == HANDSHAKE {
        Some(LedCommand::Ping)
    } else {
        None
    }
}

/// The command that `byte` stands for, if any.
pub fn decode_command(byte: u8) -> (r: Option<LedCommand>)
    ensures
        r == command_of(byte),
{
    if byte == LED_ON {
        Some(LedCommand::TurnOn)
    } else if byte == LED_OFF {
        Some(LedCommand::TurnOff)
    } else if byte == HANDSHAKE {
        Some(LedCommand::Ping)
    } else {
        None
    }
}

/// The line value that shows `state`: 1 for on, 0 otherwise.
pub open spec fn led_value(state: LedState) -> u8 {
    if state == LedState::On {
        1
    } else {
        0
    }
}

/// An LED on one output line, switched on and off by command bytes.
pub struct Led {
    state: LedState,
    storage: GpioStorage,
    line: usize,
    gpio_id: String,
    value_on: u8,
    value_off: u8,
}

/// What driving the LED to `state` from `pre` does: on success the state is
/// recorded and its value is driven onto the LED's line; on failure, which
/// can only be a failed line write, nothing changes.
pub open spec fn set_post(pre: Led, post: Led, state: LedState, r: Result<(), HandlerError>) -> bool {
    &&& post.id_spec() == pre.id_spec()
    &&& post.line_spec() == pre.line_spec()
    &&& r is Ok ==> post.state_spec() == state && post.storage_spec() == pre.storage_spec().drive_spec(
        pre.line_spec(),
        led_value(state),
    )
    &&& r is Err ==> post == pre && (r->Err_0 matches HandlerError::Gpio(GpioError::LineAccessFailed { .. }))
}

/// What handling `byte` does to an LED: on and off drive the line, the
/// handshake changes nothing, any other byte is refused.
pub open spec fn led_handled(pre: Led, post: Led, byte: u8, r: Result<(), HandlerError>) -> bool {
    match command_of(byte) {
        None => post == pre && (r matches Err(HandlerError::UnknownCommand(b)) && b == byte),
        Some(LedCommand::Ping) => post == pre && r is Ok,
        Some(LedCommand::TurnOn) => set_post(pre, post, LedState::On, r),
        Some(LedCommand::TurnOff) => set_post(pre, post, LedState::Off, r),
    }
}

impl Led {
    /// The state last driven onto the line.
    pub closed spec fn state_spec(&self) -> LedState {
        self.state
    }

    /// The storage that holds the LED's line.
    pub closed spec fn storage_spec(&self) -> GpioStorage {
        self.storage
    }

    /// Index of the LED's line in its storage.
    pub closed spec fn line_spec(&self) -> int {
        self.line as int
    }

    /// Identifier of the LED's line.
    pub closed spec fn id_spec(&self) -> Seq<char> {
        self.gpio_id@
    }

    /// The storage is well formed and holds the LED's line under its
    /// identifier; on is 1, off is 0, and the LED never blinks.
    pub closed spec fn wf(&self) -> bool {
        &&& self.storage.wf()
        &&& self.line < self.storage.ids().len()
        &&& self.storage.ids()[self.line as int] == self.gpio_id@
        &&& self.value_on == 1
        &&& self.value_off == 0
        &&& !(self.state is Blink)
    }

    /// An LED on the line `gpio_id` of `gpio_storage`, recorded as off; the
    /// line is requested unless the storage holds it already, and every
    /// error is that of the request.
    pub fn new(gpio_storage: GpioStorage, gpio_id: &str) -> (r: Result<Led, HandlerError>)
        requires
            gpio_storage.wf(),
        ensures
            r is Ok ==> r->Ok_0.wf() && r->Ok_0.state_spec() == LedState::Off && r->Ok_0.id_spec() == gpio_id@
                && r->Ok_0.storage_spec().ids()[r->Ok_0.line_spec()] == gpio_id@
                && get_or_create_spec(
                gpio_storage,
                r->Ok_0.storage_spec(),
                gpio_id@,
                Ok(r->Ok_0.line_spec() as usize),
            ),
            r is Err ==> (r matches Err(HandlerError::Gpio(e)) && exists|post: GpioStorage|
                get_or_create_spec(gpio_storage, post, gpio_id@, Err(e))),
            gpio_storage.ids().contains(gpio_id@) ==> r is Ok && r->Ok_0.storage_spec() == gpio_storage,
    {
        let mut storage = gpio_storage;
        let line = match storage.get_or_create(gpio_id) {
            Ok(l) => l,
            Err(e) => {
                assert(get_or_create_spec(gpio_storage, storage, gpio_id@, Err(e)));
                return Err(HandlerError::Gpio(e));
            },
        };
        Ok(Led { state: LedState::Off, storage, line, gpio_id: gpio_id.to_owned(), value_on: 1, value_off: 0 })
    }

    /// The state last driven onto the line.
    pub fn state(&self) -> (r: LedState)
        ensures
            r == self.state_spec(),
    {
        self.state
    }

    /// The line value that shows `state`.
    pub fn drive_value(&self, state: LedState) -> (v: u8)
        requires
            self.wf(),
        ensures
            v == led_value(state),
    {
        match state {
            LedState::On => self.value_on,
            _ => self.value_off,
        }
    }

    /// Drives the line to the value of `state` and records it once the
    /// write has succeeded.
    fn set_gpio_state(&mut self, state: LedState) -> (r: Result<(), HandlerError>)
        requires
            old(self).wf(),
            !(state is Blink),
        ensures
            final(self).wf(),
            set_post(*old(self), *final(self), state, r),
    {
        let value = self.drive_value(state);
        proof {
            lemma_drive(self.storage, self.line as int, value);
        }
        match self.storage.set_value(self.line, value) {
            Ok(()) => {
                self.state = state;
                Ok(())
            },
            Err(e) => Err(HandlerError::Gpio(e)),
        }
    }

    /// Carries out one command byte: on and off drive the line, the
    /// handshake changes nothing, any other byte is refused.
    pub fn handle_byte(&mut self, byte: u8) -> (r: Result<(), HandlerError>)
        requires
            old(self).wf(),
        ensures
            final(self).wf(),
            led_handled(*old(self), *final(self), byte, r),
    {
        match decode_command(byte) {
            Some(LedCommand::TurnOn) => self.set_gpio_state(LedState::On),
            Some(LedCommand::TurnOff) => self.set_gpio_state(LedState::Off),
            Some(LedCommand::Ping) => Ok(()),
            None => Err(HandlerError::UnknownCommand(byte)),
        }
    }
}

impl Handler for Led {
    open spec fn inv(&self) -> bool {
        self.wf()
    }

    open spec fn at_rest(&self) -> bool {
        self.state_spec() == LedState::Off
    }

    open spec fn rejects(&self, byte: u8) -> bool {
        command_of(byte) is None
    }

    open spec fn ignores(&self, byte: u8) -> bool {
        command_of(byte) == Some(LedCommand::Ping)
    }

    open spec fn handled(pre: &Self, post: &Self, byte: u8, r: Result<(), HandlerError>) -> bool {
        led_handled(*pre, *post, byte, r)
    }

    fn init_default(&mut self) -> (r: Result<(), HandlerError>) {
        self.set_gpio_state(LedState::Off)
    }

    fn handle(&mut self, byte: u8) -> (r: Result<(), HandlerError>) {
        self.handle_byte(byte)
    }
}


/// Turning the LED on twice leaves it as turning it on once: on, with the
/// on value driven onto its line.
pub proof fn lemma_led_on_twice(s0: Led, s1: Led, s2: Led)
    requires
        s0.wf(),
        led_handled(s0, s1, LED_ON, Ok(())),
        led_handled(s1, s2, LED_ON, Ok(())),
    ensures
        s1.state_spec() == LedState::On,
        s2.state_spec() == s1.state_spec(),
        s2.storage_spec().driven() == s1.storage_spec().driven(),
        s2.storage_spec().driven()[s0.line_spec()] == 1,
{
    let l = s0.line_spec();
    lemma_unique_ids(s0.storage_spec());
    lemma_drive(s0.storage_spec(), l, 1);
    lemma_drive(s1.storage_spec(), l, 1);
    assert(s2.storage_spec().driven() =~= s1.storage_spec().driven());
}

/// A session of on, off, handshake and end on an LED that is off: once
/// both line writes succeed (the first two replies are ACK), the handshake
/// is acknowledged too, and the LED ends off with 0 driven onto its line.
pub proof fn lemma_led_session(s0: Led, s3: Led, replies: Seq<u8>, states: Seq<Led>)
    requires
        s0.wf(),
        s0.state_spec() == LedState::Off,
        session(s0, s3, seq![LED_ON, LED_OFF, HANDSHAKE, 0x04u8], replies, states),
        replies.len() == 3,
        replies[0] == ACK,
        replies[1] == ACK,
    ensures
        replies[2] == ACK,
        s3.state_spec() == LedState::Off,
        s3.line_spec() == s0.line_spec(),
        s3.storage_spec().driven()[s0.line_spec()] == 0,
{
    let bytes = seq![LED_ON, LED_OFF, HANDSHAKE, 0x04u8];
    let l = s0.line_spec();
    assert(bytes[0] == LED_ON && bytes[1] == LED_OFF && bytes[2] == HANDSHAKE);
    assert(replies[0] == ACK && replies[1] == ACK && replies[2] == replies[2]);
    assert(crate::protocol::served(states[0], states[1], bytes[0], replies[0]));
    assert(crate::protocol::served(states[1], states[2], bytes[1], replies[1]));
    assert(crate::protocol::served(states[2], states[3], bytes[2], replies[2]));
    lemma_unique_ids(s0.storage_spec());
    let o1 = choose|o: Result<(), HandlerError>| #[trigger] Led::handled(&states[0], &states[1], LED_ON, o)
        && replies[0] == crate::protocol::reply_spec(o is Ok);
    let o2 = choose|o: Result<(), HandlerError>| #[trigger] Led::handled(&states[1], &states[2], LED_OFF, o)
        && replies[1] == crate::protocol::reply_spec(o is Ok);
    assert(o1 is Ok);
    assert(o2 is Ok);
    lemma_drive(s0.storage_spec(), l, 1);
    lemma_drive(states[1].storage_spec(), l, 0);
}

} // verus!
