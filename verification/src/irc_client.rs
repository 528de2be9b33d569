//! The bookkeeping of an IRC client: session identities, the numbering of event sources, the
//! answer to a server's PING, and the lines that open a session.

use vstd::prelude::*;
use crate::framework::pkg_info::{CRATE_HOMEPAGE, CRATE_VERSION};
use crate::util::text::{push_str_chars, string_from_chars};

verus! {

/// The identity of an IRC session within a client: its index among the client's sessions.
#[derive(Clone, Copy, Debug, PartialEq, Eq, Structural)]
pub struct SessionId {
    /// The session's index among the client's sessions.
    pub index: usize,
}

/// What a message handler is told about the message it handles.
#[derive(Debug)]
pub struct MessageContext {
    /// The session on which the message arrived.
    pub session_id: SessionId,
}

impl MessageContext {
    /// The session on which the message arrived.
    pub fn session_id(&self) -> (r: SessionId)
        ensures
            r == self.session_id,
    {
        self.session_id
    }
}

/// The source of an event that the client waits for: its queue of actions from other threads,
/// or one of its sessions.
#[derive(Clone, Copy, Debug, PartialEq, Eq, Structural)]
pub enum EventContextId {
    /// The queue through which other threads hand the client actions.
    MpscQueue,
    /// A session.
    Session(SessionId),
}

/// The number of the event token that stands for an event source: 0 for the queue, and one more
/// than its index for a session.
pub open spec fn token_number(e: EventContextId) -> int {
    match e {
        EventContextId::MpscQueue => 0,
        EventContextId::Session(id) => id.index + 1,
    }
}

/// The event source for which an event token's number stands.
pub open spec fn event_context_of(n: usize) -> EventContextId {
    if n == 0 {
        EventContextId::MpscQueue
    } else {
        EventContextId::Session(SessionId { index: (n - 1) as usize })
    }
}

impl EventContextId {
    /// The number of the event token that stands for this event source (see [`token_number`]).
    pub fn to_token_number(&self) -> (r: usize)
        requires
            self matches EventContextId::Session(id) ==> id.index < usize::MAX,
        ensures
            r == token_number(*self),
    {
        match self {
            EventContextId::MpscQueue => 0,
            EventContextId::Session(id) => id.index + 1,
        }
    }

    /// The event source for which an event token's number stands (see [`event_context_of`]).
    pub fn from_token_number(n: usize) -> (r: EventContextId)
        ensures
            r == event_context_of(n),
    {
        if n == 0 {
            EventContextId::MpscQueue
        } else {
            EventContextId::Session(SessionId { index: n - 1 })
        }
    }
}

/// Numbering event sources by tokens is a bijection: every token number stands for the source
/// that it numbers back to, and every source (but a session at the largest index, which has no
/// number) is what its number stands for.
pub proof fn lemma_event_token_roundtrip(n: usize, e: EventContextId)
    ensures
        token_number(event_context_of(n)) == n,
        (e matches EventContextId::Session(id) ==> id.index < usize::MAX) ==> event_context_of(
            token_number(e) as usize,
        ) == e,
{
}

/// The answer to a PING message: the same bytes with the second turned into `O`, so that the
/// command `PING` becomes `PONG`.
pub fn pong_from_ping(msg: &[u8]) -> (r: Vec<u8>)
    requires
        msg@.len() >= 2,
    ensures
        r@ == msg@.update(1, 79u8),
{
    let mut v: Vec<u8> = Vec::new();
    let mut i: usize = 0;
    while i < msg.len()
        invariant
            i <= msg@.len(),
            v@ == msg@.take(i as int),
        decreases msg@.len() - i,
    {
        v.push(msg[i]);
        assert(msg@.take(i + 1) =~= msg@.take(i as int).push(msg@[i as int]));
        i += 1;
    }
    assert(msg@.take(msg@.len() as int) =~= msg@);
    v.set(1, 79u8);
    v
}

/// Whether a message's command is `PING`.
pub fn is_ping(command: &[u8]) -> (r: bool)
    ensures
        r == (command@ == seq![80u8, 73u8, 78u8, 71u8]),
{
    if command.len() != 4 {
        return false;
    }
    assert(command@ =~= seq![command@[0], command@[1], command@[2], command@[3]]);
    command[0] == 80u8 && command[1] == 73u8 && command[2] == 78u8 && command[3] == 71u8
}

/// The real name given where none is: `Connected with <URL> vVERSION`.
pub open spec fn default_realname() -> Seq<char> {
    "Connected with <"@ + CRATE_HOMEPAGE@ + "> v"@ + CRATE_VERSION@
}

/// The two lines that open a session: `NICK nickname` and `USER username 8 * :realname`, the
/// username defaulting to the nickname and the real name to [`default_realname`].
pub fn session_start_lines(nickname: &str, username: Option<String>, realname: Option<String>) -> (r: (String, String))
    ensures
        r.0@ == "NICK "@ + nickname@,
        r.1@ == "USER "@ + (match username {
            Some(u) => u@,
            None => nickname@,
        }) + " 8 * :"@ + (match realname {
            Some(n) => n@,
            None => default_realname(),
        }),
{
    let mut nick_line: Vec<char> = Vec::new();
    push_str_chars(&mut nick_line, "NICK ");
    push_str_chars(&mut nick_line, nickname);
    let mut user_line: Vec<char> = Vec::new();
    push_str_chars(&mut user_line, "USER ");
    match &username {
        Some(u) => push_str_chars(&mut user_line, u.as_str()),
        None => push_str_chars(&mut user_line, nickname),
    }
    push_str_chars(&mut user_line, " 8 * :");
    match &realname {
        Some(n) => push_str_chars(&mut user_line, n.as_str()),
        None => {
            push_str_chars(&mut user_line, "Connected with <");
            push_str_chars(&mut user_line, CRATE_HOMEPAGE);
            push_str_chars(&mut user_line, "> v");
            push_str_chars(&mut user_line, CRATE_VERSION);
        },
    }
    proof {
        let u = match username {
            Some(u) => u@,
            None => nickname@,
        };
        let n = match realname {
            Some(n) => n@,
            None => default_realname(),
        };
        assert(user_line@ =~= "USER "@ + u + " 8 * :"@ + n);
    }
    (string_from_chars(nick_line.as_slice()), string_from_chars(user_line.as_slice()))
}

} // verus!
