use crate::handlers::handler::{Handler, HandlerError};
use vstd::prelude::*;

verus! {

/// Reply to a command that was carried out.
pub const ACK: u8 = 0x06;

/// Reply to a command that was refused or failed.
pub const NAK: u8 = 0x15;

/// Byte that ends a session; it gets no reply.
pub const EOT: u8 = 0x04;

pub open spec fn reply_spec(ok: bool) -> u8 {
    if ok {
        ACK
    } else {
        NAK
    }
}

/// Number of command bytes before the first end-of-transmission byte.
pub open spec fn command_count(bytes: Seq<u8>) -> nat
    decreases bytes.len(),
{
    if bytes.len() == 0 || bytes[0] == EOT {
        0
    } else {
        1 + command_count(bytes.drop_first())
    }
}

proof fn lemma_command_count(bytes: Seq<u8>, i: int)
    requires
        0 <= i <= bytes.len(),
        forall|j: int| 0 <= j < i ==> bytes[j] != EOT,
        i < bytes.len() ==> bytes[i] == EOT,
    ensures
        command_count(bytes) == i,
    decreases bytes.len(),
{
    if i > 0 {
        let t = bytes.drop_first();
        assert forall|j: int| 0 <= j < i - 1 implies t[j] != EOT by {
            assert(t[j] == bytes[j + 1]);
        }
        lemma_command_count(t, i - 1);
    }
}

/// The reply that a handler's outcome earns.
pub fn reply_for(outcome: &Result<(), HandlerError>) -> (r: u8)
    ensures
        r == reply_spec(outcome is Ok),
{
    match outcome {
        Ok(()) => ACK,
        Err(_) => NAK,
    }
}

/// Serving the command `byte` took the handler from `pre` to `post` and
/// earned `reply`: the reply follows the outcome of that very command, a
/// refused byte gets NAK and an ignored one ACK, both changing nothing.
pub open spec fn served<H: Handler>(pre: H, post: H, byte: u8, reply: u8) -> bool {
    &&& exists|o: Result<(), HandlerError>| #[trigger] H::handled(&pre, &post, byte, o) && reply == reply_spec(o is Ok)
    &&& pre.rejects(byte) ==> reply == NAK && post == pre
    &&& pre.ignores(byte) ==> reply == ACK && post == pre
}

/// `states` are the handler's states along a session over `bytes`: from
/// `pre` to `post`, one command, and one reply, at a time.
pub open spec fn session<H: Handler>(pre: H, post: H, bytes: Seq<u8>, replies: Seq<u8>, states: Seq<H>) -> bool {
    &&& states.len() == replies.len() + 1
    &&& states[0] == pre
    &&& states[replies.len() as int] == post
    &&& forall|i: int|
        #![trigger replies[i]]
        0 <= i < replies.len() ==> served(states[i], states[i + 1], bytes[i], replies[i])
}

/// Serves one byte of a session: `None` where the byte ends the session,
/// else the reply to the command that the handler carried out or refused.
pub fn serve_byte<H: Handler>(handler: &mut H, byte: u8) -> (r: Option<u8>)
    requires
        old(handler).inv(),
    ensures
        final(handler).inv(),
        byte == EOT ==> r is None && *final(handler) == *old(handler),
        byte != EOT ==> r is Some && served(*old(handler), *final(handler), byte, r->0),
{
    if byte == EOT {
        return None;
    }
    let outcome = handler.handle(byte);
    let reply = reply_for(&outcome);
    assert(H::handled(old(handler), handler, byte, outcome) && reply == reply_spec(outcome is Ok));
    Some(reply)
}

/// Serves the bytes of a session in order, up to the first
/// end-of-transmission byte: one reply per command, none for the end, each
/// reply earned by its own command.
pub fn serve_bytes<H: Handler>(handler: &mut H, bytes: &[u8]) -> (r: Vec<u8>)
    requires
        old(handler).inv(),
    ensures
        final(handler).inv(),
        r.len() == command_count(bytes@),
        exists|states: Seq<H>| #[trigger] session(*old(handler), *final(handler), bytes@, r@, states),
{
    let mut replies: Vec<u8> = Vec::new();
    let ghost mut states: Seq<H> = seq![*handler];
    let mut i: usize = 0;
    while i < bytes.len() && bytes[i] != EOT
        invariant
            i <= bytes.len(),
            replies.len() == i,
            handler.inv(),
            forall|j: int| 0 <= j < i ==> bytes[j] != EOT,
            session(*old(handler), *handler, bytes@, replies@, states),
        decreases bytes.len() - i,
    {
        let ghost pre = *handler;
        let reply = serve_byte(handler, bytes[i]);
        let reply = match reply {
            Some(c) => c,
            None => NAK,
        };
        proof {
            let prev = states;
            states = states.push(*handler);
            assert forall|j: int| 0 <= j < replies.len() + 1 implies served(
                states[j],
                states[j + 1],
                bytes@[j],
                #[trigger] replies@.push(reply)[j],
            ) by {
                if j < replies.len() {
                    assert(served(prev[j], prev[j + 1], bytes@[j], replies@[j]));
                    assert(states[j] == prev[j] && states[j + 1] == prev[j + 1]);
                }
            }
        }
        replies.push(reply);
        i = i + 1;
    }
    proof {
        lemma_command_count(bytes@, i as int);
    }
    replies
}

} // verus!
