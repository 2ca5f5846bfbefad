//! What the transport reports: a frame received on a connection, or a
//! connection that opened or closed.

use vstd::prelude::*;

verus! {

/// Identifies one live connection. The router never looks inside.
#[derive(Debug, Clone, Copy, PartialEq, Eq, Hash, Structural)]
pub struct ConnectionHandle {
    pub id: u64,
}

/// One item of the transport's event stream.
#[derive(Debug, PartialEq, Eq)]
pub enum NetworkEvent {
    /// A raw frame arrived on a connection.
    Message(ConnectionHandle, Vec<u8>),
    /// A connection opened.
    Connected(ConnectionHandle),
    /// A connection closed.
    Disconnected(ConnectionHandle),
}

/// An event with its frame taken as a byte sequence.
pub enum NetworkEventView {
    Message(ConnectionHandle, Seq<u8>),
    Connected(ConnectionHandle),
    Disconnected(ConnectionHandle),
}

impl View for NetworkEvent {
    type V = NetworkEventView;

    open spec fn view(&self) -> NetworkEventView {
        match *self {
            NetworkEvent::Message(handle, frame) => NetworkEventView::Message(handle, frame@),
            NetworkEvent::Connected(handle) => NetworkEventView::Connected(handle),
            NetworkEvent::Disconnected(handle) => NetworkEventView::Disconnected(handle),
        }
    }
}

impl Clone for NetworkEvent {
    fn clone(&self) -> (r: Self)
        ensures
            r@ == self@,
    {
        match self {
            NetworkEvent::Message(handle, frame) => {
                let copy = frame.clone();
                assert(copy@ == frame@);
                NetworkEvent::Message(*handle, copy)
            },
            NetworkEvent::Connected(handle) => NetworkEvent::Connected(*handle),
            NetworkEvent::Disconnected(handle) => NetworkEvent::Disconnected(*handle),
        }
    }
}

/// The events of a sequence, each by its view.
pub open spec fn events_view(events: Seq<NetworkEvent>) -> Seq<NetworkEventView> {
    Seq::new(events.len(), |i: int| events[i]@)
}

impl NetworkEvent {
    /// The connection that the event is about.
    pub fn handle(&self) -> (r: ConnectionHandle)
        ensures
            r == match self@ {
                NetworkEventView::Message(handle, _) => handle,
                NetworkEventView::Connected(handle) => handle,
                NetworkEventView::Disconnected(handle) => handle,
            },
    {
        match self {
            NetworkEvent::Message(handle, _) => *handle,
            NetworkEvent::Connected(handle) => *handle,
            NetworkEvent::Disconnected(handle) => *handle,
        }
    }

    /// Whether the event reports a connection opening or closing.
    pub fn is_lifecycle(&self) -> (r: bool)
        ensures
            r == !(self@ is Message),
    {
        match self {
            NetworkEvent::Message(_, _) => false,
            _ => true,
        }
    }
}

} // verus!
