//! What routing means: which buffer an event goes to, and what a run of
//! events adds to each buffer, to the lifecycle queue and to the dropped
//! frames. The dispatcher's contracts are written in these functions.

use vstd::prelude::*;
use crate::envelope::{wire_decode, DecodeError, EnvelopeView};
use crate::event::{ConnectionHandle, NetworkEventView};

verus! {

/// A buffered message: the envelope and the connection it came from.
pub struct Delivery {
    pub handle: ConnectionHandle,
    pub envelope: EnvelopeView,
}

/// What became of one event.
#[derive(Debug, Clone, Copy, PartialEq, Eq, Structural)]
pub enum Routing {
    /// A frame that decoded: it went to the buffer of its tag.
    Buffered,
    /// A connection notice: it went to the lifecycle queue.
    Noted,
    /// A frame that did not decode: it went nowhere.
    Dropped,
}

/// What a frame from `handle` adds to the buffer of `tag`, given how it
/// decoded: itself where it decoded and bears that tag, nothing otherwise.
pub open spec fn delivered_of(
    handle: ConnectionHandle,
    decoded: Result<EnvelopeView, DecodeError>,
    tag: Seq<char>,
) -> Seq<Delivery> {
    match decoded {
        Ok(envelope) => if envelope.message_type == tag {
            seq![Delivery { handle, envelope }]
        } else {
            Seq::empty()
        },
        Err(_) => Seq::empty(),
    }
}

/// What one event adds to the buffer of `tag`.
pub open spec fn delivered(event: NetworkEventView, tag: Seq<char>) -> Seq<Delivery> {
    match event {
        NetworkEventView::Message(handle, frame) => delivered_of(handle, wire_decode(frame), tag),
        _ => Seq::empty(),
    }
}

/// What one event adds to the lifecycle queue: itself, unless it is a frame.
pub open spec fn notice(event: NetworkEventView) -> Seq<NetworkEventView> {
    match event {
        NetworkEventView::Message(_, _) => Seq::empty(),
        _ => seq![event],
    }
}

/// Whose frame one event drops: the sender's, where the frame does not decode.
pub open spec fn rejected(event: NetworkEventView) -> Seq<ConnectionHandle> {
    match event {
        NetworkEventView::Message(handle, frame) => if wire_decode(frame) is Err {
            seq![handle]
        } else {
            Seq::empty()
        },
        _ => Seq::empty(),
    }
}

/// What becomes of one event.
pub open spec fn routing_of(event: NetworkEventView) -> Routing {
    match event {
        NetworkEventView::Message(_, frame) => if wire_decode(frame) is Ok {
            Routing::Buffered
        } else {
            Routing::Dropped
        },
        _ => Routing::Noted,
    }
}

/// What a run of events adds to the buffer of `tag`: the frames among them
/// that decode and bear the tag, in arrival order.
pub open spec fn deliveries(events: Seq<NetworkEventView>, tag: Seq<char>) -> Seq<Delivery>
    decreases events.len(),
{
    if events.len() == 0 {
        Seq::empty()
    } else {
        deliveries(events.drop_last(), tag) + delivered(events.last(), tag)
    }
}

/// What a run of events adds to the lifecycle queue: the connection notices
/// among them, in arrival order.
pub open spec fn notices(events: Seq<NetworkEventView>) -> Seq<NetworkEventView>
    decreases events.len(),
{
    if events.len() == 0 {
        Seq::empty()
    } else {
        notices(events.drop_last()) + notice(events.last())
    }
}

/// The senders of the frames in a run of events that do not decode, in
/// arrival order.
pub open spec fn rejections(events: Seq<NetworkEventView>) -> Seq<ConnectionHandle>
    decreases events.len(),
{
    if events.len() == 0 {
        Seq::empty()
    } else {
        rejections(events.drop_last()) + rejected(events.last())
    }
}

/// Buffered messages as a consumer of payloads sees them: the sender and the
/// payload bytes of each.
pub open spec fn payloads(pending: Seq<Delivery>) -> Seq<(ConnectionHandle, Seq<u8>)> {
    Seq::new(pending.len(), |i: int| (pending[i].handle, pending[i].envelope.payload))
}

} // verus!
