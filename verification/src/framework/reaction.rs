//! What handlers and the framework do in response to messages and errors.

use vstd::prelude::*;

verus! {

/// A reaction of a command or trigger handler.
#[derive(Debug)]
pub enum Reaction {
    /// Do nothing.
    Nothing,
    /// Send a message to the channel or user whence the request came.
    Msg(String),
    /// Send several messages, in order.
    Msgs(Vec<String>),
    /// Reply to the requesting user, addressing them by nickname.
    Reply(String),
    /// Send several replies, in order.
    Replies(Vec<String>),
    /// Send a raw IRC protocol message.
    RawMsg(String),
    /// Run a bot command line.
    BotCmd(String),
    /// Quit, with an optional quit message.
    Quit(Option<String>),
}

/// What to do after an error.
#[derive(Debug)]
pub enum ErrorReaction {
    /// Carry on.
    Proceed,
    /// Quit, with an optional quit message.
    Quit(Option<String>),
}

/// A reaction at the level of IRC messages.
#[derive(Debug)]
pub enum LibReaction<Msg> {
    /// No reaction.
    Nothing,
    /// React by sending an IRC message. No line-wrapping or other formatting will be performed
    /// on the message, except that the message-terminating CR-LF sequence will be appended.
    RawMsg(Msg),
    /// Return multiple reactions, which will be processed in the order given.
    Multi(Vec<LibReaction<Msg>>),
}

/// The messages that a reaction sends, in the order in which they are sent: a `Multi` sends
/// those of its reactions one after another, in the order given.
pub open spec fn reaction_msgs<Msg>(r: LibReaction<Msg>) -> Seq<Msg>
    decreases r, 0nat,
{
    match r {
        LibReaction::Nothing => seq![],
        LibReaction::RawMsg(m) => seq![m],
        LibReaction::Multi(v) => reactions_msgs(v@, 0),
    }
}

/// The messages that the reactions `rs` from the `from`-th on send, in order.
pub open spec fn reactions_msgs<Msg>(rs: Seq<LibReaction<Msg>>, from: nat) -> Seq<Msg>
    decreases rs, rs.len() - from + 1,
{
    if from >= rs.len() {
        seq![]
    } else {
        reaction_msgs(rs[from as int]) + reactions_msgs(rs, from + 1)
    }
}

/// Lists the messages that a reaction sends, in the order in which they are to be sent.
pub fn flatten_reaction<Msg>(r: LibReaction<Msg>) -> (out: Vec<Msg>)
    ensures
        out@ == reaction_msgs(r),
    decreases r,
{
    let ghost r0 = r;
    match r {
        LibReaction::Nothing => Vec::new(),
        LibReaction::RawMsg(m) => {
            let mut v = Vec::new();
            v.push(m);
            v
        },
        LibReaction::Multi(rs) => {
            let ghost all = rs@;
            let mut rest = rs;
            let mut out: Vec<Msg> = Vec::new();
            let ghost mut k: nat = 0;
            while rest.len() > 0
                invariant
                    r0 == r,
                    r0 == LibReaction::Multi(rs),
                    all == rs@,
                    k <= all.len(),
                    rest@ == all.subrange(k as int, all.len() as int),
                    reaction_msgs(r0) == out@ + reactions_msgs(all, k),
                decreases rest@.len(),
            {
                let x = rest.remove(0);
                assert(x == all[k as int]);
                proof {
                    assert(decreases_to!(r0 => all[k as int]));
                }
                let mut sub = flatten_reaction(x);
                let ghost before = out@;
                out.append(&mut sub);
                assert(out@ + reactions_msgs(all, (k + 1) as nat) =~= before + (reaction_msgs(all[k as int]) + reactions_msgs(all, (k + 1) as nat)));
                proof {
                    k = k + 1;
                }
            }
            assert(reactions_msgs(all, k) =~= seq![]);
            assert(out@ + seq![] =~= out@);
            out
        },
    }
}

} // verus!
