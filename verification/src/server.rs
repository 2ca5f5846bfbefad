//! The server as an application installs it.

use vstd::prelude::*;
use crate::dispatch::{CycleState, Dispatcher};
use crate::routing::Delivery;
use crate::event::NetworkEventView;

verus! {

/// The message-routing server. It carries no state of its own: `build` makes
/// the routing state that a fresh server starts from, and the host keeps that
/// state between cycles.
#[derive(Debug, Clone, Copy, PartialEq, Eq, Structural)]
pub struct WebSocketServer {}

impl Default for WebSocketServer {
    fn default() -> (r: Self)
        ensures
            r == (WebSocketServer {}),
    {
        WebSocketServer {  }
    }
}

impl WebSocketServer {
    /// The routing state of a server that has seen no event yet: no buffer,
    /// no connection notice, no cycle under way.
    pub fn build(&self) -> (r: Dispatcher)
        ensures
            forall|tag: Seq<char>| #[trigger] r.pending(tag) == Seq::<Delivery>::empty(),
            r.lifecycle() == Seq::<NetworkEventView>::empty(),
            r.cycle_state() == CycleState::Idle,
    {
        Dispatcher::new()
    }
}

} // verus!
