use crate::gpio::GpioError;
use vstd::prelude::*;

verus! {

/// Why a command byte was not carried out.
#[derive(Debug)]
pub enum HandlerError {
    /// Resolving, requesting, reading or driving a line failed.
    Gpio(GpioError),
    /// The byte is no command of this handler.
    UnknownCommand(u8),
    /// No line is bound to this signal.
    UnknownSignal(u8),
}

/// A unit that consumes command bytes one at a time.
pub trait Handler: Sized {
    /// What the handler keeps true between commands.
    spec fn inv(&self) -> bool;

    /// The safe state that `init_default` establishes.
    spec fn at_rest(&self) -> bool;

    /// Bytes that the handler refuses, changing nothing.
    spec fn rejects(&self, byte: u8) -> bool;

    /// Bytes that the handler accepts, changing nothing.
    spec fn ignores(&self, byte: u8) -> bool;

    /// What handling `byte` does: from `pre` it leaves `post` and returns `r`.
    spec fn handled(pre: &Self, post: &Self, byte: u8, r: Result<(), HandlerError>) -> bool;

    /// Puts the hardware into its safe starting state.
    fn init_default(&mut self) -> (r: Result<(), HandlerError>)
        requires
            old(self).inv(),
        ensures
            final(self).inv(),
            r is Ok ==> final(self).at_rest(),
            r is Err ==> *final(self) == *old(self),
    ;

    /// Carries out the command `byte`.
    fn handle(&mut self, byte: u8) -> (r: Result<(), HandlerError>)
        requires
            old(self).inv(),
        ensures
            final(self).inv(),
            Self::handled(old(self), final(self), byte, r),
            old(self).rejects(byte) ==> r is Err && *final(self) == *old(self),
            old(self).ignores(byte) ==> r is Ok && *final(self) == *old(self),
    ;
}

} // verus!
