//! What the router guarantees, stated over the functions that the contracts
//! of the dispatcher and the registry are written in, and proved.

use vstd::prelude::*;
use crate::envelope::{wire_decode, DecodeError, EnvelopeView};
use crate::event::{ConnectionHandle, NetworkEventView};
use crate::registry::{registered, RegistryError};
use crate::routing::{delivered, deliveries, notices, payloads, rejections, Delivery};

verus! {

/// Whether `event` is a frame from the sender of `sent` that decodes to the
/// envelope of `sent`.
pub open spec fn carries(event: NetworkEventView, sent: Delivery) -> bool {
    match event {
        NetworkEventView::Message(handle, frame) => handle == sent.handle && wire_decode(frame)
            == Ok::<EnvelopeView, DecodeError>(sent.envelope),
        _ => false,
    }
}

/// Whether `event` is a frame that does not decode.
pub open spec fn malformed(event: NetworkEventView) -> bool {
    match event {
        NetworkEventView::Message(_, frame) => wire_decode(frame) is Err,
        _ => false,
    }
}

/// What two runs of events add to a buffer, one after the other, is what the
/// two runs joined add to it. The same holds of the lifecycle queue and of
/// the dropped frames.
pub proof fn lemma_runs_join(
    first: Seq<NetworkEventView>,
    second: Seq<NetworkEventView>,
    tag: Seq<char>,
)
    ensures
        deliveries(first + second, tag) == deliveries(first, tag) + deliveries(second, tag),
        notices(first + second) == notices(first) + notices(second),
        rejections(first + second) == rejections(first) + rejections(second),
    decreases second.len(),
{
    if second.len() == 0 {
        assert(first + second == first);
    } else {
        assert((first + second).drop_last() == first + second.drop_last());
        assert((first + second).last() == second.last());
        lemma_runs_join(first, second.drop_last(), tag);
    }
}

/// Frames that all decode and all bear one tag come out of that tag's buffer
/// in the order they were sent, each with the connection it came from: after
/// a cycle over them the buffer holds what it held, then exactly them, and a
/// drain hands out their payloads in that order.
pub proof fn theorem_arrival_order_kept(
    pending: Seq<Delivery>,
    events: Seq<NetworkEventView>,
    sent: Seq<Delivery>,
    tag: Seq<char>,
)
    requires
        events.len() == sent.len(),
        forall|i: int| 0 <= i < events.len() ==> carries(#[trigger] events[i], sent[i]),
        forall|i: int| 0 <= i < sent.len() ==> (#[trigger] sent[i]).envelope.message_type == tag,
    ensures
        deliveries(events, tag) == sent,
        payloads(pending + deliveries(events, tag)) == payloads(pending) + payloads(sent),
    decreases events.len(),
{
    if events.len() > 0 {
        theorem_arrival_order_kept(pending, events.drop_last(), sent.drop_last(), tag);
        assert(carries(events.last(), sent.last()));
        assert(sent.last().envelope.message_type == tag);
        assert(delivered(events.last(), tag) == seq![sent.last()]);
        assert(sent == sent.drop_last() + seq![sent.last()]);
    }
    assert(deliveries(events, tag) == sent);
    assert(payloads(pending + sent) == payloads(pending) + payloads(sent));
}

/// A frame that does not decode leaves no trace in any buffer: whatever
/// arrives before it and after it is buffered as if it had not been there,
/// in the same order and with nothing lost. Its sender is reported among the
/// dropped, between those of the frames around it.
pub proof fn theorem_malformed_frame_isolated(
    before: Seq<NetworkEventView>,
    bad: NetworkEventView,
    after: Seq<NetworkEventView>,
    tag: Seq<char>,
)
    requires
        malformed(bad),
    ensures
        deliveries(before + seq![bad] + after, tag) == deliveries(before + after, tag),
        deliveries(before + seq![bad] + after, tag) == deliveries(before, tag) + deliveries(
            after,
            tag,
        ),
        notices(before + seq![bad] + after) == notices(before + after),
        rejections(before + seq![bad] + after) == rejections(before) + seq![
            bad->Message_0,
        ] + rejections(after),
{
    let alone = seq![bad];
    assert(alone.drop_last() == Seq::<NetworkEventView>::empty());
    assert(alone.last() == bad);
    assert(deliveries(alone.drop_last(), tag) == Seq::<Delivery>::empty());
    assert(deliveries(alone, tag) == Seq::<Delivery>::empty());
    assert(notices(alone.drop_last()) == Seq::<NetworkEventView>::empty());
    assert(notices(alone) == Seq::<NetworkEventView>::empty());
    assert(rejections(alone.drop_last()) == Seq::<ConnectionHandle>::empty());
    assert(rejections(alone) == seq![bad->Message_0]);
    lemma_runs_join(before, alone, tag);
    lemma_runs_join(before + alone, after, tag);
    lemma_runs_join(before, after, tag);
}

/// Whatever the events, the buffer of a tag gains only frames that bear the
/// tag.
pub proof fn lemma_only_own_tag(events: Seq<NetworkEventView>, tag: Seq<char>)
    ensures
        forall|k: int|
            0 <= k < deliveries(events, tag).len() ==> (#[trigger] deliveries(
                events,
                tag,
            )[k]).envelope.message_type == tag,
    decreases events.len(),
{
    if events.len() > 0 {
        lemma_only_own_tag(events.drop_last(), tag);
        let earlier = deliveries(events.drop_last(), tag);
        let latest = delivered(events.last(), tag);
        assert forall|k: int| 0 <= k < deliveries(events, tag).len() implies (#[trigger] deliveries(
            events,
            tag,
        )[k]).envelope.message_type == tag by {
            if k < earlier.len() {
                assert(deliveries(events, tag)[k] == earlier[k]);
            } else {
                assert(deliveries(events, tag)[k] == latest[k - earlier.len()]);
            }
        }
    }
}

/// Frames of several tags, interleaved in any way, are parted by tag: the
/// buffer of a tag gains exactly the frames that bear it, in arrival order,
/// and so holds no frame of another tag.
pub proof fn theorem_buffers_parted_by_tag(
    events: Seq<NetworkEventView>,
    sent: Seq<Delivery>,
    tag: Seq<char>,
)
    requires
        events.len() == sent.len(),
        forall|i: int| 0 <= i < events.len() ==> carries(#[trigger] events[i], sent[i]),
    ensures
        deliveries(events, tag) == sent.filter(|d: Delivery| d.envelope.message_type == tag),
        forall|k: int|
            0 <= k < deliveries(events, tag).len() ==> (#[trigger] deliveries(
                events,
                tag,
            )[k]).envelope.message_type == tag,
    decreases events.len(),
{
    let bears = |d: Delivery| d.envelope.message_type == tag;
    reveal(Seq::filter);
    if events.len() > 0 {
        theorem_buffers_parted_by_tag(events.drop_last(), sent.drop_last(), tag);
        assert(carries(events.last(), sent.last()));
        if bears(sent.last()) {
            assert(delivered(events.last(), tag) == seq![sent.last()]);
        } else {
            assert(delivered(events.last(), tag) == Seq::<Delivery>::empty());
        }
    }
    assert(deliveries(events, tag) == sent.filter(bears));
    lemma_only_own_tag(events, tag);
}

/// A buffer that is not drained between two cycles holds, after the second,
/// what it held before the first, then what the first cycle added, then what
/// the second added: the messages of both cycles, in arrival order.
pub proof fn theorem_undrained_buffer_accumulates(
    pending: Seq<Delivery>,
    first: Seq<NetworkEventView>,
    second: Seq<NetworkEventView>,
    tag: Seq<char>,
)
    ensures
        (pending + deliveries(first, tag)) + deliveries(second, tag) == pending + deliveries(
            first + second,
            tag,
        ),
        payloads((pending + deliveries(first, tag)) + deliveries(second, tag)) == payloads(pending)
            + payloads(deliveries(first, tag)) + payloads(deliveries(second, tag)),
{
    lemma_runs_join(first, second, tag);
    let a = pending;
    let b = deliveries(first, tag);
    let c = deliveries(second, tag);
    assert((a + b) + c == a + (b + c));
    assert(payloads((a + b) + c) == payloads(a) + payloads(b) + payloads(c));
}

/// Registering a tag a second time, with whatever decoder, is refused with
/// `DuplicateTag`, and the tag keeps the decoder it had: the one of the first
/// registration, or the one bound before that.
pub proof fn theorem_second_registration_refused<F>(
    bound: Map<Seq<char>, F>,
    tag: Seq<char>,
    first: F,
    second: F,
)
    ensures
        ({
            let once = registered(bound, tag, first);
            let twice = registered(once.0, tag, second);
            &&& twice.1 == Err::<(), _>(RegistryError::DuplicateTag)
            &&& twice.0 == once.0
            &&& twice.0.contains_key(tag)
            &&& twice.0[tag] == if bound.contains_key(tag) {
                bound[tag]
            } else {
                first
            }
        }),
{
}

} // verus!
