//! A sink for outgoing messages from before the connection is ready.

use vstd::prelude::*;
use super::err::FrameworkError;
use super::irc_comm::OutMsg;

verus! {

/// A sink that discards every message handed to it, for use before the connection is ready.
#[derive(Clone, Copy, Debug)]
pub struct NullSink;

impl NullSink {
    /// Takes a message and discards it; always succeeds.
    pub fn start_send(&mut self, item: OutMsg) -> (r: Result<(), FrameworkError>)
        ensures
            r is Ok,
    {
        Ok(())
    }

    /// Whether everything handed over so far has been dealt with: always so.
    pub fn poll_complete(&mut self) -> (r: Result<(), FrameworkError>)
        ensures
            r is Ok,
    {
        Ok(())
    }
}

} // verus!
