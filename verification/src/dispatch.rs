//! The dispatcher: one buffer per type tag and one queue of connection
//! notices, filled from the transport's events cycle by cycle and emptied by
//! consumers.

use vstd::prelude::*;
use crate::envelope::{decode, decoded_view, DecodeError, Envelope};
use crate::event::{events_view, ConnectionHandle, NetworkEvent, NetworkEventView};
use crate::registry::TypeRegistry;
use crate::routing::{
    delivered, delivered_of, deliveries, notice, notices, payloads, rejections, routing_of,
    Delivery, Routing,
};

verus! {

/// Whether a cycle is under way.
#[derive(Debug, Clone, Copy, PartialEq, Eq, Structural)]
pub enum CycleState {
    /// Between cycles: waiting for the driver.
    Idle,
    /// In a cycle: taking events for as long as the transport has any.
    Draining,
}

/// A decoded payload and the connection it came from.
pub type TypedMessage<T> = (ConnectionHandle, T);

/// The messages of one tag, oldest first.
#[derive(Debug)]
struct TagQueue {
    tag: String,
    entries: Vec<(ConnectionHandle, Envelope)>,
}

/// The routing state. It lives as long as the process and is only ever
/// appended to and drained.
#[derive(Debug)]
pub struct Dispatcher {
    queues: Vec<TagQueue>,
    lifecycle: Vec<NetworkEvent>,
    state: CycleState,
}

/// A buffered entry as consumers see it.
pub open spec fn entry_view(entry: (ConnectionHandle, Envelope)) -> Delivery {
    Delivery { handle: entry.0, envelope: entry.1@ }
}

/// Buffered entries as consumers see them.
pub open spec fn entries_view(entries: Seq<(ConnectionHandle, Envelope)>) -> Seq<Delivery> {
    Seq::new(entries.len(), |i: int| entry_view(entries[i]))
}

/// Drained messages, the payload of each taken as a byte sequence.
pub open spec fn messages_view(messages: Seq<(ConnectionHandle, Vec<u8>)>) -> Seq<
    (ConnectionHandle, Seq<u8>),
> {
    Seq::new(messages.len(), |i: int| (messages[i].0, messages[i].1@))
}

/// Whether `outcome` is something that `decoder` may return for a payload.
pub open spec fn payload_decodes<T, F: Fn(&[u8]) -> Option<T>>(
    decoder: F,
    payload: Seq<u8>,
    outcome: Option<T>,
) -> bool {
    exists|bytes: &[u8]| bytes@ == payload && #[trigger] call_ensures(decoder, (bytes,), outcome)
}

/// Whether `typed` is what `decoder` makes of the buffered messages: each
/// message that it decodes, with its sender, in the order buffered, and no
/// message that it refuses.
pub open spec fn decoded_as<T, F: Fn(&[u8]) -> Option<T>>(
    decoder: F,
    pending: Seq<Delivery>,
    typed: Seq<(ConnectionHandle, T)>,
) -> bool
    decreases pending.len(),
{
    if pending.len() == 0 {
        typed.len() == 0
    } else {
        let last = pending.last();
        ||| payload_decodes(decoder, last.envelope.payload, None::<T>) && decoded_as(
            decoder,
            pending.drop_last(),
            typed,
        )
        ||| typed.len() > 0 && typed.last().0 == last.handle && payload_decodes(
            decoder,
            last.envelope.payload,
            Some(typed.last().1),
        ) && decoded_as(decoder, pending.drop_last(), typed.drop_last())
    }
}

spec fn holds_tag(queues: Seq<TagQueue>, tag: Seq<char>) -> bool {
    exists|i: int| 0 <= i < queues.len() && #[trigger] queues[i].tag@ == tag
}

spec fn position(queues: Seq<TagQueue>, tag: Seq<char>) -> int {
    choose|i: int| 0 <= i < queues.len() && #[trigger] queues[i].tag@ == tag
}

spec fn lookup(queues: Seq<TagQueue>, tag: Seq<char>) -> Seq<Delivery> {
    if holds_tag(queues, tag) {
        entries_view(queues[position(queues, tag)].entries@)
    } else {
        Seq::empty()
    }
}

spec fn distinct_tags(queues: Seq<TagQueue>) -> bool {
    forall|i: int, j: int|
        0 <= i < j < queues.len() ==> #[trigger] queues[i].tag@ != #[trigger] queues[j].tag@
}

spec fn bears_own_tag(queue: TagQueue) -> bool {
    forall|k: int|
        0 <= k < queue.entries@.len() ==> (#[trigger] queue.entries@[k]).1@.message_type
            == queue.tag@
}

spec fn only_notices(lifecycle: Seq<NetworkEvent>) -> bool {
    forall|k: int| 0 <= k < lifecycle.len() ==> !((#[trigger] lifecycle[k])@ is Message)
}

proof fn lemma_lookup_at(queues: Seq<TagQueue>, i: int)
    requires
        distinct_tags(queues),
        0 <= i < queues.len(),
    ensures
        lookup(queues, queues[i].tag@) == entries_view(queues[i].entries@),
{
    let tag = queues[i].tag@;
    assert(holds_tag(queues, tag));
    let j = position(queues, tag);
    assert(queues[j].tag@ == tag);
    assert(i == j);
}

proof fn lemma_lookup_without(queues: Seq<TagQueue>, i: int)
    requires
        distinct_tags(queues),
        0 <= i < queues.len(),
    ensures
        distinct_tags(queues.remove(i)),
        !holds_tag(queues.remove(i), queues[i].tag@),
        forall|tag: Seq<char>|
            tag != queues[i].tag@ ==> #[trigger] lookup(queues.remove(i), tag) == lookup(
                queues,
                tag,
            ),
{
    let rest = queues.remove(i);
    assert forall|k: int| 0 <= k < rest.len() implies (#[trigger] rest[k]) == queues[if k < i {
        k
    } else {
        k + 1
    }] by {}
    assert forall|a: int, b: int| 0 <= a < b < rest.len() implies #[trigger] rest[a].tag@
        != #[trigger] rest[b].tag@ by {
        let a0 = if a < i { a } else { a + 1 };
        let b0 = if b < i { b } else { b + 1 };
        assert(rest[a] == queues[a0] && rest[b] == queues[b0]);
    }
    assert(!holds_tag(rest, queues[i].tag@)) by {
        if holds_tag(rest, queues[i].tag@) {
            let k = position(rest, queues[i].tag@);
            let k0 = if k < i { k } else { k + 1 };
            assert(rest[k] == queues[k0]);
            assert(queues[k0].tag@ == queues[i].tag@);
        }
    }
    assert forall|tag: Seq<char>| tag != queues[i].tag@ implies #[trigger] lookup(rest, tag)
        == lookup(queues, tag) by {
        if holds_tag(rest, tag) {
            let k = position(rest, tag);
            let k0 = if k < i { k } else { k + 1 };
            assert(rest[k] == queues[k0]);
            assert(queues[k0].tag@ == tag);
            assert(holds_tag(queues, tag));
            let p = position(queues, tag);
            assert(p == k0);
        } else if holds_tag(queues, tag) {
            let p = position(queues, tag);
            let k = if p < i { p } else { p - 1 };
            assert(rest[k] == queues[p]);
            assert(rest[k].tag@ == tag);
        }
    }
}

proof fn lemma_lookup_with(queues: Seq<TagQueue>, queue: TagQueue)
    requires
        distinct_tags(queues),
        !holds_tag(queues, queue.tag@),
    ensures
        distinct_tags(queues.push(queue)),
        lookup(queues.push(queue), queue.tag@) == entries_view(queue.entries@),
        forall|tag: Seq<char>|
            tag != queue.tag@ ==> #[trigger] lookup(queues.push(queue), tag) == lookup(queues, tag),
{
    let grown = queues.push(queue);
    let last = queues.len() as int;
    assert forall|k: int| 0 <= k < queues.len() implies (#[trigger] queues[k]).tag@
        != queue.tag@ by {}
    assert forall|a: int, b: int| 0 <= a < b < grown.len() implies #[trigger] grown[a].tag@
        != #[trigger] grown[b].tag@ by {
        assert(grown[a] == queues[a]);
        if b < last {
            assert(grown[b] == queues[b]);
            assert(queues[a].tag@ != queues[b].tag@);
        } else {
            assert(grown[b] == queue);
            assert(queues[a].tag@ != queue.tag@);
        }
    }
    assert(grown[last].tag@ == queue.tag@);
    lemma_lookup_at(grown, last);
    assert forall|tag: Seq<char>| tag != queue.tag@ implies #[trigger] lookup(grown, tag)
        == lookup(queues, tag) by {
        if holds_tag(grown, tag) {
            let k = position(grown, tag);
            assert(k != last);
            assert(grown[k] == queues[k]);
            assert(queues[k].tag@ == tag);
            let p = position(queues, tag);
            assert(grown[p] == queues[p]);
            assert(p == k);
        } else if holds_tag(queues, tag) {
            let p = position(queues, tag);
            assert(grown[p] == queues[p]);
            assert(grown[p].tag@ == tag);
        }
    }
}

spec fn well_queued(queues: Seq<TagQueue>) -> bool {
    &&& distinct_tags(queues)
    &&& forall|i: int| 0 <= i < queues.len() ==> bears_own_tag(#[trigger] queues[i])
}

fn find(queues: &Vec<TagQueue>, tag: &String) -> (r: Option<usize>)
    ensures
        match r {
            Some(i) => i < queues@.len() && queues@[i as int].tag@ == tag@,
            None => !holds_tag(queues@, tag@),
        },
{
    let mut i: usize = 0;
    while i < queues.len()
        invariant
            i <= queues@.len(),
            forall|k: int| 0 <= k < i ==> (#[trigger] queues@[k]).tag@ != tag@,
        decreases queues@.len() - i,
    {
        if queues[i].tag == *tag {
            return Some(i);
        }
        i += 1;
    }
    None
}

fn append(queues: &mut Vec<TagQueue>, handle: ConnectionHandle, envelope: Envelope)
    requires
        well_queued(old(queues)@),
    ensures
        well_queued(final(queues)@),
        forall|tag: Seq<char>| #[trigger]
            lookup(final(queues)@, tag) == lookup(old(queues)@, tag) + delivered_of(
                handle,
                Ok(envelope@),
                tag,
            ),
{
    let key = envelope.message_type().to_owned();
    let found = find(queues, &key);
    let ghost before = queues@;
    let ghost entry = Delivery { handle, envelope: envelope@ };
    proof {
        if let Some(i) = found {
            lemma_lookup_without(before, i as int);
            lemma_lookup_at(before, i as int);
        }
    }
    let mut queue = match found {
        Some(i) => queues.remove(i),
        None => TagQueue { tag: key, entries: Vec::new() },
    };
    let ghost rest = queues@;
    let ghost earlier = queue.entries@;
    queue.entries.push((handle, envelope));
    proof {
        lemma_lookup_with(rest, queue);
        assert(entries_view(queue.entries@) == entries_view(earlier).push(entry));
        assert(bears_own_tag(queue));
    }
    queues.push(queue);
    proof {
        assert forall|i: int| 0 <= i < queues@.len() implies bears_own_tag(
            #[trigger] queues@[i],
        ) by {
            if i < rest.len() {
                assert(queues@[i] == rest[i]);
                if let Some(at) = found {
                    assert(rest[i] == before[if i < at { i } else { i + 1 }]);
                }
            }
        }
        assert forall|tag: Seq<char>| #[trigger]
            lookup(queues@, tag) == lookup(before, tag) + delivered_of(
                handle,
                Ok(entry.envelope),
                tag,
            ) by {
            if tag == key@ {
                assert(lookup(before, tag) == entries_view(earlier));
            }
        }
    }
}

fn take(queues: &mut Vec<TagQueue>, tag: &String) -> (r: Vec<(ConnectionHandle, Envelope)>)
    requires
        well_queued(old(queues)@),
    ensures
        well_queued(final(queues)@),
        entries_view(r@) == lookup(old(queues)@, tag@),
        forall|k: int| 0 <= k < r@.len() ==> (#[trigger] r@[k]).1@.message_type == tag@,
        lookup(final(queues)@, tag@) == Seq::<Delivery>::empty(),
        forall|other: Seq<char>|
            other != tag@ ==> #[trigger] lookup(final(queues)@, other) == lookup(
                old(queues)@,
                other,
            ),
{
    match find(queues, tag) {
        Some(i) => {
            proof {
                lemma_lookup_without(queues@, i as int);
                lemma_lookup_at(queues@, i as int);
            }
            let ghost before = queues@;
            let queue = queues.remove(i);
            proof {
                assert forall|k: int| 0 <= k < queues@.len() implies bears_own_tag(
                    #[trigger] queues@[k],
                ) by {
                    assert(queues@[k] == before[if k < i { k } else { k + 1 }]);
                }
            }
            queue.entries
        },
        None => Vec::new(),
    }
}

impl Dispatcher {
    #[verifier::type_invariant]
    spec fn consistent(&self) -> bool {
        &&& well_queued(self.queues@)
        &&& only_notices(self.lifecycle@)
    }

    /// The messages buffered under `tag`, oldest first; empty where the tag
    /// has no buffer.
    pub closed spec fn pending(&self, tag: Seq<char>) -> Seq<Delivery> {
        lookup(self.queues@, tag)
    }

    /// The connection notices not yet drained, oldest first.
    pub closed spec fn lifecycle(&self) -> Seq<NetworkEventView> {
        events_view(self.lifecycle@)
    }

    /// Whether a cycle is under way.
    pub closed spec fn cycle_state(&self) -> CycleState {
        self.state
    }

    /// A dispatcher with nothing buffered, between cycles.
    pub fn new() -> (r: Dispatcher)
        ensures
            forall|tag: Seq<char>| #[trigger] r.pending(tag) == Seq::<Delivery>::empty(),
            r.lifecycle() == Seq::<NetworkEventView>::empty(),
            r.cycle_state() == CycleState::Idle,
    {
        Dispatcher { queues: Vec::new(), lifecycle: Vec::new(), state: CycleState::Idle }
    }

    /// Whether a cycle is under way.
    pub fn state(&self) -> (r: CycleState)
        ensures
            r == self.cycle_state(),
    {
        self.state
    }

    /// Appends an envelope to the buffer of its tag, making the buffer where
    /// the tag has none.
    fn buffer(&mut self, handle: ConnectionHandle, envelope: Envelope)
        ensures
            forall|tag: Seq<char>| #[trigger]
                final(self).pending(tag) == old(self).pending(tag) + delivered_of(
                    handle,
                    Ok(envelope@),
                    tag,
                ),
            final(self).lifecycle() == old(self).lifecycle(),
            final(self).cycle_state() == old(self).cycle_state(),
    {
        proof {
            use_type_invariant(&*self);
        }
        let mut queues: Vec<TagQueue> = Vec::new();
        std::mem::swap(&mut self.queues, &mut queues);
        append(&mut queues, handle, envelope);
        self.queues = queues;
    }

    /// Routes a frame from `handle`, given how it decoded: an envelope goes to
    /// the buffer of its tag, a failure drops the frame and changes nothing.
    pub fn route_decoded(
        &mut self,
        handle: ConnectionHandle,
        decoded: Result<Envelope, DecodeError>,
    ) -> (r: Routing)
        ensures
            forall|tag: Seq<char>| #[trigger]
                final(self).pending(tag) == old(self).pending(tag) + delivered_of(
                    handle,
                    decoded_view(decoded),
                    tag,
                ),
            final(self).lifecycle() == old(self).lifecycle(),
            final(self).cycle_state() == old(self).cycle_state(),
            r == if decoded is Ok {
                Routing::Buffered
            } else {
                Routing::Dropped
            },
    {
        match decoded {
            Ok(envelope) => {
                self.buffer(handle, envelope);
                Routing::Buffered
            },
            Err(_) => Routing::Dropped,
        }
    }

    /// Appends a connection notice to the lifecycle queue.
    fn note(&mut self, event: NetworkEvent)
        requires
            !(event@ is Message),
        ensures
            forall|tag: Seq<char>| #[trigger] final(self).pending(tag) == old(self).pending(tag),
            final(self).lifecycle() == old(self).lifecycle().push(event@),
            final(self).cycle_state() == old(self).cycle_state(),
    {
        proof {
            use_type_invariant(&*self);
        }
        let mut lifecycle: Vec<NetworkEvent> = Vec::new();
        std::mem::swap(&mut self.lifecycle, &mut lifecycle);
        lifecycle.push(event);
        self.lifecycle = lifecycle;
    }

    /// Routes one event: a frame is decoded and, where it decodes, appended to
    /// the buffer of its tag; a frame that does not decode is dropped; a
    /// connection notice is appended to the lifecycle queue.
    pub fn route(&mut self, event: NetworkEvent) -> (r: Routing)
        ensures
            forall|tag: Seq<char>| #[trigger]
                final(self).pending(tag) == old(self).pending(tag) + delivered(event@, tag),
            final(self).lifecycle() == old(self).lifecycle() + notice(event@),
            final(self).cycle_state() == old(self).cycle_state(),
            r == routing_of(event@),
    {
        match event {
            NetworkEvent::Message(handle, frame) => {
                let decoded = decode(frame.as_slice());
                self.route_decoded(handle, decoded)
            },
            NetworkEvent::Connected(handle) => {
                self.note(NetworkEvent::Connected(handle));
                Routing::Noted
            },
            NetworkEvent::Disconnected(handle) => {
                self.note(NetworkEvent::Disconnected(handle));
                Routing::Noted
            },
        }
    }

    /// One step of a cycle, given what the transport handed out when polled.
    /// An event is routed and the cycle goes on; `None` says that the
    /// transport has nothing more, and ends the cycle.
    pub fn step(&mut self, polled: Option<NetworkEvent>) -> (r: Option<Routing>)
        ensures
            match polled {
                Some(event) => {
                    &&& forall|tag: Seq<char>| #[trigger]
                        final(self).pending(tag) == old(self).pending(tag) + delivered(
                            event@,
                            tag,
                        )
                    &&& final(self).lifecycle() == old(self).lifecycle() + notice(event@)
                    &&& final(self).cycle_state() == CycleState::Draining
                    &&& r == Some(routing_of(event@))
                },
                None => {
                    &&& forall|tag: Seq<char>| #[trigger]
                        final(self).pending(tag) == old(self).pending(tag)
                    &&& final(self).lifecycle() == old(self).lifecycle()
                    &&& final(self).cycle_state() == CycleState::Idle
                    &&& r is None
                },
            },
    {
        proof {
            use_type_invariant(&*self);
        }
        match polled {
            Some(event) => {
                self.state = CycleState::Draining;
                Some(self.route(event))
            },
            None => {
                self.state = CycleState::Idle;
                None
            },
        }
    }

    /// Runs one cycle over the events that the transport has pending, in the
    /// order it handed them out, and returns the senders of the frames that
    /// were dropped. The buffers and the lifecycle queue keep what they held
    /// and gain what the events add.
    pub fn run_cycle(&mut self, events: Vec<NetworkEvent>) -> (dropped: Vec<ConnectionHandle>)
        ensures
            forall|tag: Seq<char>| #[trigger]
                final(self).pending(tag) == old(self).pending(tag) + deliveries(
                    events_view(events@),
                    tag,
                ),
            final(self).lifecycle() == old(self).lifecycle() + notices(events_view(events@)),
            final(self).cycle_state() == CycleState::Idle,
            dropped@ == rejections(events_view(events@)),
    {
        let ghost all = events_view(events@);
        let ghost start = *self;
        let mut dropped: Vec<ConnectionHandle> = Vec::new();
        for event in iter: events.into_iter()
            invariant
                iter.seq() == events@,
                all == events_view(events@),
                forall|tag: Seq<char>| #[trigger]
                    self.pending(tag) == start.pending(tag) + deliveries(
                        all.take(iter.index() as int),
                        tag,
                    ),
                self.lifecycle() == start.lifecycle() + notices(all.take(iter.index() as int)),
                dropped@ == rejections(all.take(iter.index() as int)),
        {
            let ghost done = all.take(iter.index() as int);
            let ghost next = all.take(iter.index() + 1);
            proof {
                assert(next.drop_last() == done);
                assert(next.last() == event@);
            }
            let sender = event.handle();
            if let Some(Routing::Dropped) = self.step(Some(event)) {
                dropped.push(sender);
            }
        }
        proof {
            assert(all.take(events@.len() as int) == all);
        }
        self.step(None);
        dropped
    }
    /// Removes the buffer of `tag` and hands its envelopes to the caller,
    /// oldest first; each of them bears the tag. Other buffers and the
    /// lifecycle queue stay as they are.
    pub fn drain_envelopes(&mut self, tag: &str) -> (r: Vec<(ConnectionHandle, Envelope)>)
        ensures
            entries_view(r@) == old(self).pending(tag@),
            forall|k: int| 0 <= k < r@.len() ==> (#[trigger] r@[k]).1@.message_type == tag@,
            final(self).pending(tag@) == Seq::<Delivery>::empty(),
            forall|other: Seq<char>|
                other != tag@ ==> #[trigger] final(self).pending(other) == old(self).pending(
                    other,
                ),
            final(self).lifecycle() == old(self).lifecycle(),
            final(self).cycle_state() == old(self).cycle_state(),
    {
        proof {
            use_type_invariant(&*self);
        }
        let key = tag.to_owned();
        let mut queues: Vec<TagQueue> = Vec::new();
        std::mem::swap(&mut self.queues, &mut queues);
        let entries = take(&mut queues, &key);
        self.queues = queues;
        entries
    }

    /// Removes the buffer of `tag` and hands the caller, oldest first, each
    /// message's sender and payload bytes. Other buffers and the lifecycle
    /// queue stay as they are.
    pub fn drain_messages(&mut self, tag: &str) -> (r: Vec<(ConnectionHandle, Vec<u8>)>)
        ensures
            messages_view(r@) == payloads(old(self).pending(tag@)),
            final(self).pending(tag@) == Seq::<Delivery>::empty(),
            forall|other: Seq<char>|
                other != tag@ ==> #[trigger] final(self).pending(other) == old(self).pending(
                    other,
                ),
            final(self).lifecycle() == old(self).lifecycle(),
            final(self).cycle_state() == old(self).cycle_state(),
    {
        let entries = self.drain_envelopes(tag);
        let ghost drained = entries_view(entries@);
        let mut messages: Vec<(ConnectionHandle, Vec<u8>)> = Vec::new();
        for entry in iter: entries.into_iter()
            invariant
                iter.seq() == entries@,
                drained == entries_view(entries@),
                messages_view(messages@) == payloads(drained.take(iter.index() as int)),
        {
            let ghost done = drained.take(iter.index() as int);
            let ghost next = drained.take(iter.index() + 1);
            let ghost earlier = messages@;
            proof {
                assert(next.drop_last() == done);
                assert(next.last() == entry_view(entry));
            }
            let (handle, envelope) = entry;
            messages.push((handle, envelope.into_payload()));
            proof {
                assert(messages_view(messages@) == messages_view(earlier).push(
                    (next.last().handle, next.last().envelope.payload),
                ));
                assert(payloads(next) == payloads(done).push(
                    (next.last().handle, next.last().envelope.payload),
                ));
            }
        }
        proof {
            assert(drained.take(entries@.len() as int) == drained);
        }
        messages
    }

    /// Empties the lifecycle queue and hands its notices to the caller, oldest
    /// first. The buffers stay as they are.
    pub fn drain_lifecycle(&mut self) -> (r: Vec<NetworkEvent>)
        ensures
            events_view(r@) == old(self).lifecycle(),
            forall|i: int| 0 <= i < r@.len() ==> !((#[trigger] r@[i])@ is Message),
            final(self).lifecycle() == Seq::<NetworkEventView>::empty(),
            forall|tag: Seq<char>| #[trigger] final(self).pending(tag) == old(self).pending(tag),
            final(self).cycle_state() == old(self).cycle_state(),
    {
        proof {
            use_type_invariant(&*self);
        }
        let mut lifecycle: Vec<NetworkEvent> = Vec::new();
        std::mem::swap(&mut self.lifecycle, &mut lifecycle);
        lifecycle
    }
    /// Removes the buffer of `tag` and hands the caller, oldest first, each
    /// message that the decoder registered for the tag decodes, with its
    /// sender; messages that the decoder refuses are skipped. Where no
    /// decoder is registered for the tag, nothing is removed and the call
    /// fails with `UnknownTag`.
    pub fn drain_typed<T, F>(&mut self, registry: &TypeRegistry<F>, tag: &str) -> (r: Result<
        Vec<TypedMessage<T>>,
        DecodeError,
    >) where F: Fn(&[u8]) -> Option<T>
        requires
            registry.bound().contains_key(tag@) ==> forall|bytes: &[u8]|
                call_requires(registry.bound()[tag@], (bytes,)),
        ensures
            match r {
                Ok(typed) => {
                    &&& registry.bound().contains_key(tag@)
                    &&& decoded_as(registry.bound()[tag@], old(self).pending(tag@), typed@)
                    &&& final(self).pending(tag@) == Seq::<Delivery>::empty()
                },
                Err(e) => {
                    &&& e == DecodeError::UnknownTag
                    &&& !registry.bound().contains_key(tag@)
                    &&& final(self).pending(tag@) == old(self).pending(tag@)
                },
            },
            forall|other: Seq<char>|
                other != tag@ ==> #[trigger] final(self).pending(other) == old(self).pending(
                    other,
                ),
            final(self).lifecycle() == old(self).lifecycle(),
            final(self).cycle_state() == old(self).cycle_state(),
    {
        if !registry.is_registered(tag) {
            return Err(DecodeError::UnknownTag);
        }
        let entries = self.drain_envelopes(tag);
        let ghost drained = entries_view(entries@);
        let ghost decoder = registry.bound()[tag@];
        let mut typed: Vec<TypedMessage<T>> = Vec::new();
        for entry in iter: entries.into_iter()
            invariant
                iter.seq() == entries@,
                drained == entries_view(entries@),
                registry.bound().contains_key(tag@),
                decoder == registry.bound()[tag@],
                forall|bytes: &[u8]| call_requires(decoder, (bytes,)),
                decoded_as(decoder, drained.take(iter.index() as int), typed@),
        {
            let ghost done = drained.take(iter.index() as int);
            let ghost next = drained.take(iter.index() + 1);
            let ghost earlier = typed@;
            proof {
                assert(next.drop_last() == done);
                assert(next.last() == entry_view(entry));
            }
            let (handle, envelope) = entry;
            match registry.decode_payload(tag, envelope.payload()) {
                Ok(payload) => {
                    typed.push((handle, payload));
                    proof {
                        assert(typed@.drop_last() == earlier);
                        assert(payload_decodes(decoder, next.last().envelope.payload, Some(payload)));
                    }
                },
                Err(_) => {
                    proof {
                        assert(payload_decodes(decoder, next.last().envelope.payload, None::<T>));
                    }
                },
            }
        }
        proof {
            assert(drained.take(entries@.len() as int) == drained);
        }
        Ok(typed)
    }
}

} // verus!
