use crate::gpio::{
    index_of_id, lemma_drive, lemma_index_of_id, lemma_unique_ids, resolve_spec, unique_ids, GpioError,
    GpioStorage,
    GPIO_CHIPS_N,
};
use crate::handlers::handler::HandlerError;
use std::collections::HashMap;
use vstd::prelude::*;

verus! {

broadcast use vstd::std_specs::hash::group_hash_axioms;

/// What a signal does to the current value of its line.
#[derive(Clone, Copy, Debug, PartialEq, Eq, Structural)]
pub enum Action {
    On,
    Off,
    Toggle,
    Status,
    Null,
}

/// The value a line holds after `a` is applied to its value `v`.
pub open spec fn action_value(a: Action, v: u8) -> u8 {
    match a {
        Action::On => 1,
        Action::Off => 0,
        Action::Toggle => if v == 1 {
            0
        } else {
            1
        },
        Action::Status => v,
        Action::Null => v,
    }
}

/// What applying `a` to the value `v` reports: the value itself for a
/// status query, nothing otherwise.
pub open spec fn action_reply(a: Action, v: u8) -> Option<u8> {
    match a {
        Action::Status => Some(v),
        _ => None,
    }
}

impl Action {
    /// Applies the action to a line value in place.
    pub fn apply(&self, value: &mut u8) -> (r: Option<u8>)
        ensures
            *final(value) == action_value(*self, *old(value)),
            r == action_reply(*self, *old(value)),
    {
        match self {
            Action::On => {
                *value = 1;
                None
            },
            Action::Off => {
                *value = 0;
                None
            },
            Action::Toggle => {
                *value = if *value == 1 {
                    0
                } else {
                    1
                };
                None
            },
            Action::Status => Some(*value),
            Action::Null => None,
        }
    }
}

/// A signal's binding: the line it acts on and what it does to it.
struct Signal {
    id: String,
    action: Action,
}

/// A dispatch table from signal bytes to actions on named lines.
pub struct Handler {
    signals: HashMap<u8, Signal>,
    storage: GpioStorage,
}

impl Handler {
    /// The bound signals: each one's line identifier and action.
    pub closed spec fn bindings(&self) -> Map<u8, (Seq<char>, Action)> {
        self.signals@.map_values(|s: Signal| (s.id@, s.action))
    }

    /// The storage that holds the handler's lines.
    pub closed spec fn storage_spec(&self) -> GpioStorage {
        self.storage
    }

    /// The storage is well formed and holds the line of every bound signal.
    pub closed spec fn wf(&self) -> bool {
        &&& self.storage.wf()
        &&& forall|s: u8| #[trigger] self.signals@.contains_key(s) ==> self.storage.ids().contains(
            self.signals@[s].id@,
        )
    }

    /// An empty table over the lines of `gpio_storage`.
    pub fn new(gpio_storage: GpioStorage) -> (r: Handler)
        requires
            gpio_storage.wf(),
        ensures
            r.wf(),
            r.bindings() == Map::<u8, (Seq<char>, Action)>::empty(),
            r.storage_spec() == gpio_storage,
    {
        let r = Handler { signals: HashMap::new(), storage: gpio_storage };
        assert(r.bindings() =~= Map::<u8, (Seq<char>, Action)>::empty());
        r
    }

    /// Binds `signal` to `action` on the line `id`: the line is requested if
    /// it was not yet, the action is applied once to its current value, and
    /// the binding replaces any earlier one of the same signal.
    pub fn add_gpio_handler(&mut self, signal: u8, id: &str, action: Action) -> (r: Result<(), HandlerError>)
        requires
            old(self).wf(),
        ensures
            final(self).wf(),
            r is Ok ==> final(self).bindings() == old(self).bindings().insert(signal, (id@, action)),
            r is Err ==> final(self).bindings() == old(self).bindings(),
            r is Err ==> r->Err_0 is Gpio,
            r is Ok ==> final(self).storage_spec().ids().contains(id@) && exists|v: u8| #[trigger]
                final(self).storage_spec().driven()[index_of_id(final(self).storage_spec().ids(), id@)]
                == action_value(action, v),
            old(self).storage_spec().ids().contains(id@) ==> applied(
                old(self).storage_spec(),
                final(self).storage_spec(),
                id@,
                action,
                r,
            ),
            !old(self).storage_spec().ids().contains(id@) ==> match resolve_spec(id@) {
                Err(e) => r == Err::<(), HandlerError>(HandlerError::Gpio(GpioError::InvalidIdentifier(e))),
                Ok((chip, _)) => chip >= GPIO_CHIPS_N ==> r matches Err(
                    HandlerError::Gpio(GpioError::UnsupportedChip { .. }),
                ),
            },
    {
        if let Err(e) = self.storage.get_or_create(id) {
            return Err(HandlerError::Gpio(e));
        }
        let ghost mid = self.storage;
        let ghost before = self.signals@;
        let outcome = self.apply_action(id, &action);
        match outcome {
            Ok(_) => {},
            Err(e) => {
                return Err(e);
            },
        }
        proof {
            lemma_unique_ids(self.storage);
        }
        self.signals.insert(signal, Signal { id: id.to_owned(), action });
        assert(self.bindings() =~= old(self).bindings().insert(signal, (id@, action)));
        Ok(())
    }

    /// Applies the action bound to `signal` to the current value of its
    /// line; a status query reports the value read.
    pub fn send(&mut self, signal: u8) -> (r: Result<Option<u8>, HandlerError>)
        requires
            old(self).wf(),
        ensures
            final(self).wf(),
            final(self).bindings() == old(self).bindings(),
            !old(self).bindings().contains_key(signal) ==> *final(self) == *old(self) && (r matches Err(
                HandlerError::UnknownSignal(s),
            ) && s == signal),
            old(self).bindings().contains_key(signal) ==> old(self).storage_spec().ids().contains(
                old(self).bindings()[signal].0,
            ) && applied_with_reply(
                old(self).storage_spec(),
                final(self).storage_spec(),
                old(self).bindings()[signal].0,
                old(self).bindings()[signal].1,
                r,
            ),
    {
        let (id, action) = match self.signals.get(&signal) {
            Some(s) => (s.id.clone(), s.action),
            None => {
                return Err(HandlerError::UnknownSignal(signal));
            },
        };
        assert(self.signals@.contains_key(signal));
        self.apply_action(id.as_str(), &action)
    }

    /// The current value of the line `id`, if it was requested and can be read.
    pub fn _status(&self, id: &str) -> (r: Option<u8>)
        requires
            self.wf(),
        ensures
            !self.storage_spec().ids().contains(id@) ==> r is None,
    {
        match self.storage.lookup(id) {
            Some(line) => match self.storage.get_value(line) {
                Ok(v) => Some(v),
                Err(_) => None,
            },
            None => None,
        }
    }

    /// Drives the line `id` to 1 for `true`, 0 for `false`.
    fn set_value(&mut self, id: &str, state: bool) -> (r: Result<(), HandlerError>)
        requires
            old(self).wf(),
        ensures
            final(self).wf(),
            final(self).signals@ == old(self).signals@,
            r is Err ==> r->Err_0 is Gpio,
            old(self).storage.ids().contains(id@) ==> final(self).storage.ids() == old(self).storage.ids(),
            old(self).storage.ids().contains(id@) && r is Ok ==> final(self).storage == old(self).storage.drive_spec(
                index_of_id(old(self).storage.ids(), id@),
                if state { 1u8 } else { 0u8 },
            ),
            old(self).storage.ids().contains(id@) && r is Err ==> final(self).storage == old(self).storage
                && (r->Err_0 matches HandlerError::Gpio(GpioError::LineAccessFailed { .. })),
    {
        let line = match self.storage.get_or_create(id) {
            Ok(l) => l,
            Err(e) => {
                return Err(HandlerError::Gpio(e));
            },
        };
        proof {
            lemma_unique_ids(self.storage);
            lemma_index_of_id(self.storage.ids(), id@, line as int);
            lemma_drive(self.storage, line as int, if state { 1u8 } else { 0u8 });
        }
        let value: u8 = if state {
            1
        } else {
            0
        };
        match self.storage.set_value(line, value) {
            Ok(()) => Ok(()),
            Err(e) => Err(HandlerError::Gpio(e)),
        }
    }

    /// Reads the line `id`, applies `action` to its value and writes the
    /// result back.
    fn apply_action(&mut self, id: &str, action: &Action) -> (r: Result<Option<u8>, HandlerError>)
        requires
            old(self).wf(),
        ensures
            final(self).wf(),
            final(self).signals@ == old(self).signals@,
            r is Err ==> r->Err_0 is Gpio,
            r is Ok ==> final(self).storage.ids().contains(id@) && exists|v: u8| #[trigger]
                final(self).storage.driven()[index_of_id(final(self).storage.ids(), id@)] == action_value(*action, v)
                && r->Ok_0 == action_reply(*action, v),
            old(self).storage.ids().contains(id@) ==> applied_with_reply(old(self).storage, final(self).storage, id@, *action, r),
    {
        let line = match self.storage.get_or_create(id) {
            Ok(l) => l,
            Err(e) => {
                return Err(HandlerError::Gpio(e));
            },
        };
        proof {
            lemma_unique_ids(self.storage);
            lemma_index_of_id(self.storage.ids(), id@, line as int);
        }
        let ghost mid = self.storage;
        let mut value = match self.storage.get_value(line) {
            Ok(v) => v,
            Err(e) => {
                return Err(HandlerError::Gpio(e));
            },
        };
        let ghost read = value;
        let reply = action.apply(&mut value);
        proof {
            lemma_drive(self.storage, line as int, value);
        }
        match self.storage.set_value(line, value) {
            Ok(()) => {
                assert(self.storage.driven()[line as int] == action_value(*action, read));
                Ok(reply)
            },
            Err(e) => Err(HandlerError::Gpio(e)),
        }
    }
}

/// Applying `action` to the held line `id` of `pre`, returning `r`, leaves
/// `post`: on success the line was driven to what the action makes of some
/// value read, and the reply is what the action reports of it; on failure,
/// which is a failed line access, nothing changed.
pub open spec fn applied_with_reply(
    pre: GpioStorage,
    post: GpioStorage,
    id: Seq<char>,
    action: Action,
    r: Result<Option<u8>, HandlerError>,
) -> bool {
    &&& r is Ok ==> exists|v: u8| #[trigger] action_reply(action, v) == r->Ok_0
        && post == pre.drive_spec(index_of_id(pre.ids(), id), action_value(action, v))
    &&& r is Err ==> post == pre && (r->Err_0 matches HandlerError::Gpio(GpioError::LineAccessFailed { .. }))
}

/// As `applied_with_reply`, for a caller that keeps no reply.
pub open spec fn applied(pre: GpioStorage, post: GpioStorage, id: Seq<char>, action: Action, r: Result<(), HandlerError>) -> bool {
    &&& r is Ok ==> exists|v: u8| post == #[trigger] pre.drive_spec(index_of_id(pre.ids(), id), action_value(action, v))
    &&& r is Err ==> post == pre && (r->Err_0 matches HandlerError::Gpio(GpioError::LineAccessFailed { .. }))
}

/// Binding another signal to a line that is already held requests nothing:
/// the storage keeps the same identifiers, each once, with the same handles.
pub proof fn lemma_rebinding_keeps_lines(
    pre: GpioStorage,
    post: GpioStorage,
    id: Seq<char>,
    action: Action,
    r: Result<(), HandlerError>,
)
    requires
        pre.wf(),
        pre.ids().contains(id),
        applied(pre, post, id, action, r),
    ensures
        post.ids() == pre.ids(),
        post.handles() == pre.handles(),
        unique_ids(post.ids()),
{
    lemma_unique_ids(pre);
    let k = choose|k: int| 0 <= k < pre.ids().len() && pre.ids()[k] == id;
    lemma_index_of_id(pre.ids(), id, k);
    if r is Ok {
        let v = choose|v: u8| post == #[trigger] pre.drive_spec(index_of_id(pre.ids(), id), action_value(action, v));
        lemma_drive(pre, k, action_value(action, v));
    }
}

} // verus!
