//! What instances can rely on, of one of them over time and between two.

use vstd::prelude::*;
use vstd::utf8::encode_utf8;

use crate::instances::coordinator::{
    message_frame, mode_of, ConnectionMode, CoordinatorError, CoordinatorView, IncomingControl,
    Outgoing, ReaderAction, ReaderEvent,
};
use crate::instances::discovery::{
    entry_views, found_peers, is_found, peer_of_entry, peer_views, DiscoveryPlan, FoundPeer,
    SocketEntry,
};
use crate::instances::peers::PeerHandle;
use crate::instances::protocol::{
    addr_bytes, default_chain, forward_bytes, frame, from_big_endian, law_forward_fd_round_trip,
    law_forward_round_trip, law_frame_announces_payload, law_message_round_trip,
    law_sent_messages_are_recognized, message_bytes, parse_forward, parse_forward_fd, parse_message,
    valid_hashes, Addr, ForwardMeta, Message,
    MAX_FRAME_SIZE, MODE_CONTROL, MODE_FORWARD_TCP, MODE_FORWARD_TCP_FD,
};
use crate::instances::routing::{is_routed, with_routes, RouteView};
use crate::instances::sockets::{instance_id_text, law_instance_ids_are_distinct, socket_name};
use crate::instances::wire::{lemma_hash_run, varint};
use crate::instances::{InstanceCoordinator, InstanceId};
use crate::text::text_views;

verus! {

// ---------------------------------------------------------------------------
// One instance over time
// ---------------------------------------------------------------------------

/// Every route leads to the instance itself or to one that is connected.
pub open spec fn routes_lead_somewhere<S, H>(v: CoordinatorView<S, H>) -> bool {
    forall|p: RouteView| #[trigger]
        v.routes.contains(p) ==> p.1 == v.instance_id || v.peers.dom().contains(p.1)
}

/// Routes lead to the instance itself or to connected ones from the start, and
/// whatever happens: torrents come and go, instances connect and leave, and
/// those that are connected say what they say.
pub proof fn law_routes_lead_somewhere<S, H>(
    v: CoordinatorView<S, H>,
    info_hash: Seq<u8>,
    peer_id: Seq<char>,
    handle: PeerHandle<S>,
    m: Message,
)
    requires
        routes_lead_somewhere(v),
    ensures
        routes_lead_somewhere(CoordinatorView::<S, H>::started(v.instance_id, v.socket_dir)),
        routes_lead_somewhere(v.announced(info_hash)),
        routes_lead_somewhere(v.unannounced(info_hash)),
        routes_lead_somewhere(v.connected(peer_id, handle)),
        routes_lead_somewhere(v.disconnected(peer_id)),
        v.peers.dom().contains(peer_id) ==> routes_lead_somewhere(v.received(peer_id, m)),
{
    assert forall|p: RouteView| #[trigger] v.announced(info_hash).routes.contains(p) implies p.1
        == v.instance_id || v.peers.dom().contains(p.1) by {
        assert(p == (info_hash, v.instance_id) || v.routes.contains(p));
    }
    assert forall|p: RouteView| #[trigger] v.unannounced(info_hash).routes.contains(p) implies p.1
        == v.instance_id || v.peers.dom().contains(p.1) by {
        assert(v.routes.contains(p));
    }
    assert forall|p: RouteView| #[trigger]
        v.connected(peer_id, handle).routes.contains(p) implies p.1 == v.instance_id || v.connected(
        peer_id,
        handle,
    ).peers.dom().contains(p.1) by {
        assert(v.routes.contains(p));
    }
    lemma_disconnected_leads_somewhere(v, peer_id);
    if v.peers.dom().contains(peer_id) && m !is Goodbye {
        let after = v.received(peer_id, m);
        assert forall|p: RouteView| #[trigger] after.routes.contains(p) implies p.1
            == v.instance_id || after.peers.dom().contains(p.1) by {
            assert(v.routes.contains(p) || p.1 == peer_id);
        }
    }
}

/// Routes still lead somewhere when an instance has left.
proof fn lemma_disconnected_leads_somewhere<S, H>(v: CoordinatorView<S, H>, peer_id: Seq<char>)
    requires
        routes_lead_somewhere(v),
    ensures
        routes_lead_somewhere(v.disconnected(peer_id)),
{
    let after = v.disconnected(peer_id);
    assert forall|p: RouteView| #[trigger] after.routes.contains(p) implies p.1 == v.instance_id
        || after.peers.dom().contains(p.1) by {
        assert(v.routes.contains(p));
    }
}

/// The routes to the instance itself are those of its torrents.
pub open spec fn own_routes_are_local<S, H>(v: CoordinatorView<S, H>) -> bool {
    forall|h: Seq<u8>| #[trigger]
        v.routes.contains((h, v.instance_id)) <==> v.local_torrents.contains(h)
}

/// The routes to the instance itself are those of its torrents from the start,
/// and whatever happens between it and instances of other names.
pub proof fn law_own_routes_are_local<S, H>(
    v: CoordinatorView<S, H>,
    info_hash: Seq<u8>,
    peer_id: Seq<char>,
    handle: PeerHandle<S>,
    m: Message,
)
    requires
        own_routes_are_local(v),
        peer_id != v.instance_id,
    ensures
        own_routes_are_local(CoordinatorView::<S, H>::started(v.instance_id, v.socket_dir)),
        own_routes_are_local(v.announced(info_hash)),
        own_routes_are_local(v.unannounced(info_hash)),
        own_routes_are_local(v.connected(peer_id, handle)),
        own_routes_are_local(v.disconnected(peer_id)),
        own_routes_are_local(v.received(peer_id, m)),
{
    let own = v.instance_id;
    let announced = v.announced(info_hash);
    assert forall|h: Seq<u8>| #[trigger]
        announced.routes.contains((h, own)) <==> announced.local_torrents.contains(h) by {
        lemma_push_contains(v.local_torrents, info_hash, h);
        assert(v.routes.contains((h, own)) <==> v.local_torrents.contains(h));
    }
    let unannounced = v.unannounced(info_hash);
    assert forall|h: Seq<u8>| #[trigger]
        unannounced.routes.contains((h, own)) <==> unannounced.local_torrents.contains(h) by {
        lemma_filter_contains(v.local_torrents, info_hash, h);
        assert(v.routes.contains((h, own)) <==> v.local_torrents.contains(h));
    }
    let disconnected = v.disconnected(peer_id);
    assert forall|h: Seq<u8>| #[trigger]
        disconnected.routes.contains((h, own)) <==> disconnected.local_torrents.contains(h) by {
        assert(v.routes.contains((h, own)) <==> v.local_torrents.contains(h));
    }
    let received = v.received(peer_id, m);
    assert forall|h: Seq<u8>| #[trigger]
        received.routes.contains((h, own)) <==> received.local_torrents.contains(h) by {
        assert(v.routes.contains((h, own)) <==> v.local_torrents.contains(h));
    }
}

/// What a list with one more value at its end contains.
proof fn lemma_push_contains<T>(s: Seq<T>, last: T, t: T)
    ensures
        s.push(last).contains(t) <==> s.contains(t) || t == last,
{
    if s.contains(t) {
        let i = choose|i: int| 0 <= i < s.len() && s[i] == t;
        assert(s.push(last)[i] == t);
    }
    assert(s.push(last)[s.len() as int] == last);
}

/// What a list without some value contains.
proof fn lemma_filter_contains<T>(s: Seq<T>, gone: T, t: T)
    ensures
        s.filter(|u: T| u != gone).contains(t) <==> s.contains(t) && t != gone,
    decreases s.len(),
{
    reveal(Seq::filter);
    if s.len() > 0 {
        let keeps = |u: T| u != gone;
        lemma_filter_contains(s.drop_last(), gone, t);
        assert(s == s.drop_last().push(s.last()));
        lemma_push_contains(s.drop_last(), s.last(), t);
        lemma_push_contains(s.drop_last().filter(keeps), s.last(), t);
    }
}

/// An instance that has withdrawn a torrent no longer has it, nor a route to
/// itself for it, however often it was announced. Its other torrents and the
/// routes to others are what they were.
pub proof fn law_unannounced_is_gone<S, H>(v: CoordinatorView<S, H>, info_hash: Seq<u8>, h: Seq<u8>)
    ensures
        !v.unannounced(info_hash).local_torrents.contains(info_hash),
        !v.unannounced(info_hash).answers(Message::WhoHas { info_hash }),
        !v.unannounced(info_hash).routes.contains((info_hash, v.instance_id)),
        h != info_hash ==> v.unannounced(info_hash).local_torrents.contains(h)
            == v.local_torrents.contains(h),
        forall|p: RouteView|
            p.1 != v.instance_id ==> v.unannounced(info_hash).routes.contains(p)
                == #[trigger] v.routes.contains(p),
{
    lemma_filter_contains(v.local_torrents, info_hash, info_hash);
    lemma_filter_contains(v.local_torrents, info_hash, h);
}

/// Withdrawing a torrent that was new when it was announced leaves the
/// instance as it was.
pub proof fn law_unannounce_undoes_announce<S, H>(v: CoordinatorView<S, H>, info_hash: Seq<u8>)
    requires
        !v.local_torrents.contains(info_hash),
        !v.routes.contains((info_hash, v.instance_id)),
    ensures
        v.announced(info_hash).unannounced(info_hash) == v,
{
    let after = v.announced(info_hash).unannounced(info_hash);
    let longer = v.local_torrents.push(info_hash);
    reveal(Seq::filter);
    assert(longer.drop_last() == v.local_torrents);
    lemma_filter_keeps_all(v.local_torrents, info_hash);
    assert(after.local_torrents == v.local_torrents);
    assert(after.routes =~= v.routes);
}

/// Taking a value out of a list that does not contain it leaves the list.
proof fn lemma_filter_keeps_all<T>(s: Seq<T>, absent: T)
    requires
        !s.contains(absent),
    ensures
        s.filter(|u: T| u != absent) == s,
    decreases s.len(),
{
    reveal(Seq::filter);
    if s.len() > 0 {
        assert(s == s.drop_last().push(s.last()));
        lemma_push_contains(s.drop_last(), s.last(), absent);
        lemma_filter_keeps_all(s.drop_last(), absent);
    } else {
        assert(s.filter(|u: T| u != absent) == s);
    }
}

/// When a connected instance leaves, with or without a Goodbye, it is no
/// longer connected and nothing leads to it; everything else stays.
pub proof fn law_departed_is_forgotten<S, H>(v: CoordinatorView<S, H>, peer_id: Seq<char>)
    requires
        v.peers.dom().contains(peer_id),
    ensures
        v.received(peer_id, Message::Goodbye) == v.disconnected(peer_id),
        !v.disconnected(peer_id).peers.dom().contains(peer_id),
        forall|h: Seq<u8>| !#[trigger] v.disconnected(peer_id).routes.contains((h, peer_id)),
        forall|p: RouteView|
            p.1 != peer_id ==> v.disconnected(peer_id).routes.contains(p)
                == #[trigger] v.routes.contains(p),
        forall|id: Seq<char>|
            id != peer_id ==> v.disconnected(peer_id).peers.dom().contains(id)
                == #[trigger] v.peers.dom().contains(id),
        v.disconnected(peer_id).local_torrents == v.local_torrents,
{
}

/// An instance that connects again takes the place of its former connection.
pub proof fn law_reconnecting_replaces<S, H>(
    v: CoordinatorView<S, H>,
    peer_id: Seq<char>,
    former: PeerHandle<S>,
    handle: PeerHandle<S>,
)
    ensures
        v.connected(peer_id, former).connected(peer_id, handle) == v.connected(peer_id, handle),
{
    assert(v.peers.insert(peer_id, former).insert(peer_id, handle) =~= v.peers.insert(
        peer_id,
        handle,
    ));
}

/// An instance that connects and leaves without a word changes nothing.
pub proof fn law_disconnecting_undoes_connecting<S, H>(
    v: CoordinatorView<S, H>,
    peer_id: Seq<char>,
    handle: PeerHandle<S>,
)
    requires
        !v.peers.dom().contains(peer_id),
        forall|h: Seq<u8>| !#[trigger] v.routes.contains((h, peer_id)),
    ensures
        v.connected(peer_id, handle).disconnected(peer_id) == v,
{
    let after = v.connected(peer_id, handle).disconnected(peer_id);
    assert(after.peers =~= v.peers);
    assert forall|p: RouteView| after.routes.contains(p) == v.routes.contains(p) by {
        if v.routes.contains(p) {
            assert(p == (p.0, p.1));
            assert(p.1 != peer_id);
        }
    }
    assert(after.routes =~= v.routes);
}

/// A torrent that only others have is found, and at one of those.
pub proof fn law_lookup_finds_others<S, H>(
    v: CoordinatorView<S, H>,
    info_hash: Seq<u8>,
    id: Seq<char>,
    r: Option<InstanceId>,
)
    requires
        v.routes.contains((info_hash, id)),
        !v.routes.contains((info_hash, v.instance_id)),
        v.is_found(info_hash, r),
    ensures
        r matches Some(found) && found@ != v.instance_id && v.routes.contains((info_hash, found@)),
{
    assert(is_routed(v.routes, info_hash));
}

/// An instance that says it has torrents is found for each of them, until it
/// says that it has them no longer.
pub proof fn law_told_is_found<S, H>(
    v: CoordinatorView<S, H>,
    peer_id: Seq<char>,
    info_hashes: Seq<Seq<u8>>,
    h: Seq<u8>,
)
    requires
        peer_id != v.instance_id,
        info_hashes.contains(h),
    ensures
        v.received(peer_id, Message::TorrentsAdded { info_hashes }).has_elsewhere(h, peer_id),
        v.received(peer_id, Message::IHas { info_hash: h }).has_elsewhere(h, peer_id),
        !v.received(peer_id, Message::TorrentsRemoved { info_hashes }).has_elsewhere(h, peer_id),
{
}

// ---------------------------------------------------------------------------
// Between two instances
// ---------------------------------------------------------------------------

/// How many digits a number below 2097152 has.
proof fn lemma_varint_len(n: nat)
    ensures
        varint(n).len() >= 1,
        n < 2_097_152 ==> varint(n).len() <= 3,
        n < 128 ==> varint(n).len() == 1,
{
    reveal_with_fuel(varint, 3);
}

/// A message that names 52428 torrents is short enough to be taken; one that
/// names more is not.
pub proof fn law_torrent_lists_that_fit(info_hashes: Seq<Seq<u8>>)
    requires
        valid_hashes(info_hashes),
    ensures
        message_bytes(Message::TorrentsAdded { info_hashes }).len() <= MAX_FRAME_SIZE
            <==> info_hashes.len() <= 52_428,
        message_bytes(Message::TorrentsRemoved { info_hashes }).len() <= MAX_FRAME_SIZE
            <==> info_hashes.len() <= 52_428,
{
    lemma_varint_len(1);
    lemma_varint_len(2);
    lemma_varint_len(info_hashes.len());
    lemma_hash_run(info_hashes);
}

/// The other messages are always short enough, but for a Hello with a name of
/// more than a megabyte.
pub proof fn law_short_messages_fit(info_hash: Seq<u8>, instance_id: Seq<char>)
    requires
        info_hash.len() == 20,
        encode_utf8(instance_id).len() <= 1_048_572,
    ensures
        message_bytes(Message::WhoHas { info_hash }).len() <= MAX_FRAME_SIZE,
        message_bytes(Message::IHas { info_hash }).len() <= MAX_FRAME_SIZE,
        message_bytes(Message::Goodbye).len() <= MAX_FRAME_SIZE,
        message_bytes(Message::Hello { instance_id }).len() <= MAX_FRAME_SIZE,
{
    lemma_varint_len(0);
    lemma_varint_len(3);
    lemma_varint_len(4);
    lemma_varint_len(5);
    lemma_varint_len(encode_utf8(instance_id).len());
}

/// No message is empty.
proof fn lemma_message_not_empty(m: Message)
    ensures
        message_bytes(m).len() > 0,
{
    lemma_varint_len(0);
    lemma_varint_len(1);
    lemma_varint_len(2);
    lemma_varint_len(3);
    lemma_varint_len(4);
    lemma_varint_len(5);
}

/// A message that is not too long is taken at the other end for what it is:
/// its header leads to its payload, and the payload to the state in which the
/// message has been taken in, with the answer that is owed.
pub proof fn law_sent_message_is_taken<S, H>(
    v: CoordinatorView<S, H>,
    peer_id: Seq<char>,
    m: Message,
    header: (ReaderEvent, ReaderAction, CoordinatorView<S, H>),
    body: (ReaderEvent, ReaderAction, CoordinatorView<S, H>),
)
    requires
        m.valid(),
        message_bytes(m).len() <= MAX_FRAME_SIZE,
        header.0 matches ReaderEvent::Header(len_buf) && len_buf@ == message_frame(m).take(4),
        body.0 matches ReaderEvent::Body(payload) && payload@ == message_frame(m).skip(4),
        v.is_reader_step(peer_id, default_chain()[0], header.0, header.1, header.2),
        header.2.is_reader_step(peer_id, default_chain()[0], body.0, body.1, body.2),
    ensures
        header.1 == ReaderAction::ReadBody(body.0->Body_0.len()),
        body.2 == v.received(peer_id, m),
        body.1 matches ReaderAction::ReadHeader(answer) && v.is_answer(peer_id, m, answer),
{
    law_frame_announces_payload(message_bytes(m));
    lemma_message_not_empty(m);
    law_sent_messages_are_recognized(m);
}

/// The length that the first frame announces.
pub open spec fn first_len(bytes: Seq<u8>) -> int {
    from_big_endian(bytes.take(4)) as int
}

/// The payload of the first frame.
pub open spec fn first_payload(bytes: Seq<u8>) -> Seq<u8> {
    bytes.subrange(4, 4 + first_len(bytes))
}

/// What follows the first frame.
pub open spec fn after_first(bytes: Seq<u8>) -> Seq<u8> {
    bytes.skip(4 + first_len(bytes))
}

/// The frames of the messages, one behind the other.
pub open spec fn frames_of(messages: Seq<Message>) -> Seq<u8>
    decreases messages.len(),
{
    if messages.len() == 0 {
        seq![]
    } else {
        message_frame(messages[0]) + frames_of(messages.skip(1))
    }
}

/// The messages that a connection which brought `bytes` has brought in full, up
/// to the first frame that is not taken.
pub open spec fn messages_in(bytes: Seq<u8>) -> Seq<Message>
    decreases bytes.len(),
{
    if bytes.len() < 4 || first_len(bytes) == 0 || first_len(bytes) > MAX_FRAME_SIZE || bytes.len()
        < 4 + first_len(bytes) {
        seq![]
    } else {
        match parse_message(first_payload(bytes)) {
            Some(m) => seq![m] + messages_in(after_first(bytes)),
            None => seq![],
        }
    }
}

/// Whether a connection which brought `bytes` has brought a frame that is not
/// taken.
pub open spec fn refused_in(bytes: Seq<u8>) -> bool
    decreases bytes.len(),
{
    if bytes.len() < 4 {
        false
    } else if first_len(bytes) == 0 || first_len(bytes) > MAX_FRAME_SIZE {
        true
    } else if bytes.len() < 4 + first_len(bytes) {
        false
    } else {
        parse_message(first_payload(bytes)) is None || refused_in(after_first(bytes))
    }
}

/// Messages arrive as they were sent, all of them and in order, as long as
/// none is too long.
pub proof fn law_messages_arrive_in_order(messages: Seq<Message>)
    requires
        forall|i: int|
            0 <= i < messages.len() ==> (#[trigger] messages[i]).valid() && message_bytes(
                messages[i],
            ).len() <= MAX_FRAME_SIZE,
    ensures
        messages_in(frames_of(messages)) == messages,
        !refused_in(frames_of(messages)),
    decreases messages.len(),
{
    let bytes = frames_of(messages);
    if messages.len() > 0 {
        let m = messages[0];
        let rest = messages.skip(1);
        let payload = message_bytes(m);
        assert forall|i: int| 0 <= i < rest.len() implies (#[trigger] rest[i]).valid()
            && message_bytes(rest[i]).len() <= MAX_FRAME_SIZE by {
            assert(rest[i] == messages[i + 1]);
        }
        law_messages_arrive_in_order(rest);
        lemma_message_not_empty(m);
        law_frame_announces_payload(payload);
        law_message_round_trip(m, seq![]);
        assert(payload + seq![] =~= payload);
        assert(bytes.take(4) =~= message_frame(m).take(4));
        assert(first_payload(bytes) =~= payload);
        assert(after_first(bytes) =~= frames_of(rest));
        assert(messages =~= seq![m] + rest);
    } else {
        assert(messages =~= seq![]);
    }
}

/// What happened on a control connection, what it led to, and the state then.
pub type ReaderStep<S, H> = (ReaderEvent, ReaderAction, CoordinatorView<S, H>);

/// `steps` are those of a connection with `peer_id`, in the format that comes
/// first, that has brought `bytes`: the header of each frame that has arrived
/// and then its payload, until a frame has not arrived in full or the
/// connection is no longer read. They lead from `v` to `after`.
pub open spec fn is_reader_run<S, H>(
    v: CoordinatorView<S, H>,
    peer_id: Seq<char>,
    bytes: Seq<u8>,
    steps: Seq<ReaderStep<S, H>>,
    after: CoordinatorView<S, H>,
) -> bool
    decreases bytes.len(),
{
    if bytes.len() < 4 {
        steps.len() == 0 && after == v
    } else {
        let header = steps[0];
        &&& steps.len() >= 1
        &&& header.0 matches ReaderEvent::Header(len_buf) && len_buf@ == bytes.take(4)
        &&& v.is_reader_step(peer_id, default_chain()[0], header.0, header.1, header.2)
        &&& match header.1 {
            ReaderAction::ReadBody(n) => if bytes.len() < 4 + n {
                steps.len() == 1 && after == header.2
            } else {
                let body = steps[1];
                &&& steps.len() >= 2
                &&& body.0 matches ReaderEvent::Body(payload) && payload@ == bytes.subrange(
                    4,
                    4 + n,
                )
                &&& header.2.is_reader_step(peer_id, default_chain()[0], body.0, body.1, body.2)
                &&& match body.1 {
                    ReaderAction::ReadBody(_) => false,
                    ReaderAction::ReadHeader(_) => is_reader_run(
                        body.2,
                        peer_id,
                        bytes.skip(4 + n),
                        steps.skip(2),
                        after,
                    ),
                    ReaderAction::Stop(_) => steps.len() == 2 && after == body.2,
                }
            },
            ReaderAction::ReadHeader(_) => false,
            ReaderAction::Stop(_) => steps.len() == 1 && after == header.2,
        }
    }
}

/// The messages from `peer_id` have been taken in, one after the other.
pub open spec fn received_all<S, H>(
    v: CoordinatorView<S, H>,
    peer_id: Seq<char>,
    messages: Seq<Message>,
) -> CoordinatorView<S, H>
    decreases messages.len(),
{
    if messages.len() == 0 {
        v
    } else {
        received_all(v.received(peer_id, messages[0]), peer_id, messages.skip(1))
    }
}

/// The step in which message `i` was taken in had the answer that was owed in
/// the state to which the messages before it had led.
pub open spec fn is_answered<S, H>(
    v: CoordinatorView<S, H>,
    peer_id: Seq<char>,
    messages: Seq<Message>,
    steps: Seq<ReaderStep<S, H>>,
    i: int,
) -> bool {
    &&& 2 * i + 1 < steps.len()
    &&& steps[2 * i + 1].1 matches ReaderAction::ReadHeader(answer) && received_all(
        v,
        peer_id,
        messages.take(i),
    ).is_answer(peer_id, messages[i], answer)
}

/// Reading what a connection brings takes in exactly the messages in it, in
/// order, each with the answer that is owed at that point. A frame that is not
/// taken ends the connection.
pub proof fn law_reading_takes_messages_in<S, H>(
    v: CoordinatorView<S, H>,
    peer_id: Seq<char>,
    bytes: Seq<u8>,
    steps: Seq<ReaderStep<S, H>>,
    after: CoordinatorView<S, H>,
)
    requires
        is_reader_run(v, peer_id, bytes, steps, after),
    ensures
        ({
            let taken = received_all(v, peer_id, messages_in(bytes));
            after == if refused_in(bytes) {
                taken.disconnected(peer_id)
            } else {
                taken
            }
        }),
        forall|i: int|
            0 <= i < messages_in(bytes).len() ==> #[trigger] is_answered(
                v,
                peer_id,
                messages_in(bytes),
                steps,
                i,
            ),
    decreases bytes.len(),
{
    let messages = messages_in(bytes);
    if bytes.len() >= 4 && 0 < first_len(bytes) <= MAX_FRAME_SIZE && bytes.len() >= 4 + first_len(
        bytes,
    ) {
        let header = steps[0];
        let body = steps[1];
        let n = header.1->ReadBody_0;
        assert(n == first_len(bytes));
        if let Some(m) = parse_message(first_payload(bytes)) {
            let rest = after_first(bytes);
            let later = messages_in(rest);
            assert(messages =~= seq![m] + later);
            assert(messages.skip(1) =~= later);
            assert(body.2 == v.received(peer_id, m));
            law_reading_takes_messages_in(body.2, peer_id, rest, steps.skip(2), after);
            assert forall|i: int| 0 <= i < messages.len() implies #[trigger] is_answered(
                v,
                peer_id,
                messages,
                steps,
                i,
            ) by {
                if i == 0 {
                    assert(received_all(v, peer_id, messages.take(0)) == v);
                } else {
                    assert(is_answered(body.2, peer_id, later, steps.skip(2), i - 1));
                    assert(messages[i] == later[i - 1]);
                    assert(messages.take(i)[0] == m);
                    assert(messages.take(i).skip(1) =~= later.take(i - 1));
                    assert(steps.skip(2)[2 * (i - 1) + 1] == steps[2 * i + 1]);
                }
            }
        }
    }
}

/// What a greeting says.
pub open spec fn greeting_messages<S, H>(v: CoordinatorView<S, H>) -> Seq<Message> {
    let hello = Message::Hello { instance_id: v.instance_id };
    if v.local_torrents.len() == 0 {
        seq![hello]
    } else {
        seq![hello, Message::TorrentsAdded { info_hashes: v.local_torrents }]
    }
}

/// The first frame of a greeting is a Hello, and what follows it is the frame
/// that names the instance's torrents, if it has any.
pub proof fn law_greeting_opens_with_hello<S, H>(v: CoordinatorView<S, H>)
    requires
        message_bytes(Message::Hello { instance_id: v.instance_id }).len() <= MAX_FRAME_SIZE,
    ensures
        0 < first_len(v.greeting()) <= MAX_FRAME_SIZE,
        first_payload(v.greeting()) == message_bytes(
            Message::Hello { instance_id: v.instance_id },
        ),
        after_first(v.greeting()) == if v.local_torrents.len() == 0 {
            seq![]
        } else {
            message_frame(Message::TorrentsAdded { info_hashes: v.local_torrents })
        },
{
    let m = Message::Hello { instance_id: v.instance_id };
    let payload = message_bytes(m);
    let hello = message_frame(m);
    lemma_message_not_empty(m);
    law_frame_announces_payload(payload);
    let rest = if v.local_torrents.len() == 0 {
        seq![]
    } else {
        message_frame(Message::TorrentsAdded { info_hashes: v.local_torrents })
    };
    assert(v.greeting() =~= hello + rest);
    assert(v.greeting().take(4) =~= hello.take(4));
    assert(first_payload(v.greeting()) =~= hello.skip(4));
    assert(after_first(v.greeting()) =~= rest);
}

/// What an instance writes on a control connection that it opened is accepted
/// at the other end: the connection is taken for a control connection, and the
/// first frame for a Hello of that instance, in the format that comes first.
pub proof fn law_greeting_is_accepted<S, H>(
    v: CoordinatorView<S, H>,
    other: CoordinatorView<S, H>,
    bytes: Seq<u8>,
    r: Result<IncomingControl, CoordinatorError>,
)
    requires
        message_bytes(Message::Hello { instance_id: v.instance_id }).len() <= MAX_FRAME_SIZE,
        bytes == seq![MODE_CONTROL] + v.greeting(),
        other.is_incoming_control(first_payload(bytes.skip(1)), r),
    ensures
        mode_of(bytes[0]) == ConnectionMode::Control,
        0 < first_len(bytes.skip(1)) <= MAX_FRAME_SIZE,
        r matches Ok(incoming) && incoming.peer_id@ == v.instance_id && incoming.codec_idx == 0
            && incoming.reply@ == other.greeting(),
{
    let m = Message::Hello { instance_id: v.instance_id };
    assert(bytes.skip(1) =~= v.greeting());
    law_greeting_opens_with_hello(v);
    law_sent_messages_are_recognized(m);
}

/// `v`, which knows what `peer_id` has.
pub open spec fn knowing<S, H>(
    v: CoordinatorView<S, H>,
    peer_id: Seq<char>,
    info_hashes: Seq<Seq<u8>>,
) -> CoordinatorView<S, H> {
    CoordinatorView { routes: with_routes(v.routes, info_hashes, peer_id), ..v }
}

/// Once the Hello of a greeting is taken, the rest of it leads to knowing the
/// torrents of the instance.
proof fn lemma_greeting_taken<S, H>(
    c: InstanceCoordinator<S, H>,
    v: CoordinatorView<S, H>,
    whole: bool,
    steps: Seq<ReaderStep<S, H>>,
    after: CoordinatorView<S, H>,
)
    requires
        encode_utf8(c@.instance_id).len() <= 1_048_572,
        c@.local_torrents.len() <= 52_428,
        is_reader_run(
            v,
            c@.instance_id,
            if whole {
                c@.greeting()
            } else {
                after_first(c@.greeting())
            },
            steps,
            after,
        ),
    ensures
        after == knowing(v, c@.instance_id, c@.local_torrents),
{
    let id = c@.instance_id;
    let hello = Message::Hello { instance_id: id };
    let added = Message::TorrentsAdded { info_hashes: c@.local_torrents };
    lemma_varint_len(0);
    lemma_varint_len(encode_utf8(id).len());
    c.lemma_local_torrents_valid();
    law_torrent_lists_that_fit(c@.local_torrents);
    lemma_greeting_frames(c@);
    let messages = if whole {
        greeting_messages(c@)
    } else {
        greeting_messages(c@).skip(1)
    };
    assert forall|i: int| 0 <= i < messages.len() implies (#[trigger] messages[i]).valid()
        && message_bytes(messages[i]).len() <= MAX_FRAME_SIZE by {
        assert(messages[i] == hello || messages[i] == added);
    }
    law_messages_arrive_in_order(messages);
    law_reading_takes_messages_in(v, id, frames_of(messages), steps, after);
    lemma_greeting_received(c@, v);
}

/// A greeting is the frames of what it says, and what follows its first frame
/// those of the rest of it.
proof fn lemma_greeting_frames<S, H>(v: CoordinatorView<S, H>)
    requires
        message_bytes(Message::Hello { instance_id: v.instance_id }).len() <= MAX_FRAME_SIZE,
    ensures
        frames_of(greeting_messages(v)) == v.greeting(),
        frames_of(greeting_messages(v).skip(1)) == after_first(v.greeting()),
{
    law_greeting_opens_with_hello(v);
    let messages = greeting_messages(v);
    let rest = messages.skip(1);
    if v.local_torrents.len() == 0 {
        assert(rest =~= seq![]);
        assert(frames_of(rest) =~= seq![]);
    } else {
        let added = Message::TorrentsAdded { info_hashes: v.local_torrents };
        assert(rest =~= seq![added]);
        assert(rest.skip(1) =~= seq![]);
        assert(frames_of(rest.skip(1)) =~= seq![]);
        assert(frames_of(rest) =~= message_frame(added));
    }
    let hello = message_frame(Message::Hello { instance_id: v.instance_id });
    assert(frames_of(messages) == hello + frames_of(rest));
    assert(v.greeting() =~= hello + after_first(v.greeting()));
}

/// Whoever has taken a greeting in, with or without the Hello, knows the
/// torrents that it names.
proof fn lemma_greeting_received<S, H>(g: CoordinatorView<S, H>, v: CoordinatorView<S, H>)
    ensures
        received_all(v, g.instance_id, greeting_messages(g)) == knowing(
            v,
            g.instance_id,
            g.local_torrents,
        ),
        received_all(v, g.instance_id, greeting_messages(g).skip(1)) == knowing(
            v,
            g.instance_id,
            g.local_torrents,
        ),
{
    let messages = greeting_messages(g);
    let rest = messages.skip(1);
    let known = knowing(v, g.instance_id, g.local_torrents);
    if g.local_torrents.len() == 0 {
        assert(rest =~= seq![]);
        assert(known.routes =~= v.routes);
        assert(known == v);
    } else {
        assert(rest =~= seq![Message::TorrentsAdded { info_hashes: g.local_torrents }]);
        assert(rest.skip(1) =~= seq![]);
        let told = v.received(g.instance_id, rest[0]);
        assert(received_all(told, g.instance_id, rest.skip(1)) == told);
    }
}

/// An instance that connects is accepted, and the other end then knows where
/// its torrents are: what it wrote is taken for a control connection, its
/// first frame for a Hello, and once all of it has been read the instance is
/// connected, a route to it has been added for each of its torrents, and
/// nothing else has changed.
pub proof fn law_connecting_shares_torrents<S, H>(
    a: InstanceCoordinator<S, H>,
    b: CoordinatorView<S, H>,
    bytes: Seq<u8>,
    r: Result<IncomingControl, CoordinatorError>,
    handle: PeerHandle<S>,
    steps: Seq<ReaderStep<S, H>>,
    after: CoordinatorView<S, H>,
)
    requires
        encode_utf8(a@.instance_id).len() <= 1_048_572,
        a@.local_torrents.len() <= 52_428,
        bytes == seq![MODE_CONTROL] + a@.greeting(),
        b.is_incoming_control(first_payload(bytes.skip(1)), r),
        is_reader_run(
            b.connected(a@.instance_id, handle),
            a@.instance_id,
            after_first(bytes.skip(1)),
            steps,
            after,
        ),
    ensures
        mode_of(bytes[0]) == ConnectionMode::Control,
        0 < first_len(bytes.skip(1)) <= MAX_FRAME_SIZE,
        r matches Ok(incoming) && incoming.peer_id@ == a@.instance_id && incoming.codec_idx == 0
            && incoming.reply@ == b.greeting(),
        after == knowing(
            b.connected(a@.instance_id, handle),
            a@.instance_id,
            a@.local_torrents,
        ),
{
    lemma_varint_len(0);
    lemma_varint_len(encode_utf8(a@.instance_id).len());
    law_greeting_is_accepted(a@, b, bytes, r);
    assert(bytes.skip(1) =~= a@.greeting());
    lemma_greeting_taken(a, b.connected(a@.instance_id, handle), false, steps, after);
}

/// The instance that connected then knows where the torrents of the other end
/// are: once it has read the reply, a route has been added for each of them,
/// and nothing else has changed.
pub proof fn law_reply_shares_torrents<S, H>(
    a: CoordinatorView<S, H>,
    b: InstanceCoordinator<S, H>,
    steps: Seq<ReaderStep<S, H>>,
    after: CoordinatorView<S, H>,
)
    requires
        encode_utf8(b@.instance_id).len() <= 1_048_572,
        b@.local_torrents.len() <= 52_428,
        is_reader_run(a, b@.instance_id, b@.greeting(), steps, after),
    ensures
        after == knowing(a, b@.instance_id, b@.local_torrents),
{
    lemma_greeting_taken(b, a, true, steps, after);
}

/// The name that an instance starts under is short enough for its Hello to be
/// taken.
pub proof fn law_started_instances_are_heard(pid: u32, random: u64)
    ensures
        message_bytes(Message::Hello { instance_id: instance_id_text(pid, random) }).len()
            <= MAX_FRAME_SIZE,
{
    let id = instance_id_text(pid, random);
    law_instance_ids_are_distinct(pid, random, pid, random);
    lemma_encoded_len(id);
    lemma_varint_len(0);
    lemma_varint_len(encode_utf8(id).len());
}

/// No character takes more than four bytes.
proof fn lemma_encoded_len(text: Seq<char>)
    ensures
        encode_utf8(text).len() <= 4 * text.len(),
    decreases text.len(),
{
    if text.len() > 0 {
        lemma_encoded_len(text.drop_first());
    }
}

/// What asks for a torrent, and what says that it is there.
pub proof fn law_question_and_answer(info_hash: Seq<u8>)
    requires
        info_hash.len() == 20,
    ensures
        message_frame(Message::WhoHas { info_hash }) == seq![0u8, 0, 0, 21, 3] + info_hash,
        message_frame(Message::IHas { info_hash }) == seq![0u8, 0, 0, 21, 4] + info_hash,
{
    assert(message_frame(Message::WhoHas { info_hash }) =~= seq![0u8, 0, 0, 21, 3] + info_hash);
    assert(message_frame(Message::IHas { info_hash }) =~= seq![0u8, 0, 0, 21, 4] + info_hash);
}

/// An instance that is asked for a torrent it has answers the asker, once,
/// that it has it; the asker then knows where to find it. One that does not
/// have it answers nothing.
pub proof fn law_who_has_is_answered<S, H>(
    asker: CoordinatorView<S, H>,
    owner: CoordinatorView<S, H>,
    info_hash: Seq<u8>,
    r: Result<Option<Outgoing>, CoordinatorError>,
)
    requires
        asker.instance_id != owner.instance_id,
        owner.peers.dom().contains(asker.instance_id),
        owner.is_answer(asker.instance_id, Message::WhoHas { info_hash }, r),
    ensures
        !owner.local_torrents.contains(info_hash) ==> r == Ok::<
            Option<Outgoing>,
            CoordinatorError,
        >(None),
        owner.local_torrents.contains(info_hash) ==> (r matches Ok(Some(out)) && out.peer_id@
            == asker.instance_id && out.frame@ == message_frame(Message::IHas { info_hash })),
        asker.received(owner.instance_id, Message::IHas { info_hash }).has_elsewhere(
            info_hash,
            owner.instance_id,
        ),
{
}

/// What an instance writes to forward a stream is accepted at the other end,
/// whichever way of forwarding that end prefers: the connection is taken for a
/// forwarded stream, and the metadata is what was sent, but for the flow label
/// and the scope of a V6 address.
pub proof fn law_forwarded_stream_is_accepted(meta: ForwardMeta, bytes: Seq<u8>)
    requires
        meta.peer_addr.valid(),
        forward_bytes(meta).len() <= MAX_FRAME_SIZE,
        bytes == seq![MODE_FORWARD_TCP] + frame(forward_bytes(meta)),
    ensures
        mode_of(bytes[0]) == ConnectionMode::ForwardTcp,
        from_big_endian(bytes.subrange(1, 5)) <= MAX_FRAME_SIZE,
        5 + from_big_endian(bytes.subrange(1, 5)) == bytes.len(),
        parse_forward(bytes.skip(5)) == Some(
            ForwardMeta {
                peer_addr: meta.peer_addr.received(),
                handshake: meta.handshake,
                extra: meta.extra,
            },
        ),
{
    let payload = forward_bytes(meta);
    law_frame_announces_payload(payload);
    law_forward_round_trip(meta, seq![]);
    assert(payload + seq![] =~= payload);
    assert(bytes.subrange(1, 5) =~= frame(payload).take(4));
    assert(bytes.skip(5) =~= payload);
}

/// What an instance writes to hand a socket over is accepted at the other end,
/// whichever way of forwarding that end prefers: the connection is taken for a
/// socket that is handed over, and the address is what was sent, but for the
/// flow label and the scope of a V6 address.
pub proof fn law_handed_over_socket_is_accepted(addr: Addr, bytes: Seq<u8>)
    requires
        addr.valid(),
        bytes == seq![MODE_FORWARD_TCP_FD] + frame(addr_bytes(addr)),
    ensures
        mode_of(bytes[0]) == ConnectionMode::ForwardTcpFd,
        from_big_endian(bytes.subrange(1, 5)) <= MAX_FRAME_SIZE,
        5 + from_big_endian(bytes.subrange(1, 5)) == bytes.len(),
        parse_forward_fd(bytes.skip(5)) == Some(addr.received()),
{
    let payload = addr_bytes(addr);
    lemma_varint_len(0);
    lemma_varint_len(1);
    match addr {
        Addr::V4 { octets, port } => {
            lemma_varint_len(port);
        },
        Addr::V6 { octets, port, flowinfo, scope_id } => {
            lemma_varint_len(port);
        },
    }
    law_frame_announces_payload(payload);
    law_forward_fd_round_trip(addr, seq![]);
    assert(payload + seq![] =~= payload);
    assert(bytes.subrange(1, 5) =~= frame(payload).take(4));
    assert(bytes.skip(5) =~= payload);
}

// ---------------------------------------------------------------------------
// Discovery
// ---------------------------------------------------------------------------

/// An instance is found exactly where its socket is among the entries, and
/// never finds itself.
pub proof fn law_found_by_its_socket(
    entries: Seq<(Option<Seq<char>>, Seq<char>)>,
    own: Seq<char>,
    id: Seq<char>,
)
    ensures
        is_found(found_peers(entries, own), id) <==> id != own && exists|i: int|
            0 <= i < entries.len() && (#[trigger] entries[i]).0 == Some(socket_name(id)),
    decreases entries.len(),
{
    let found = found_peers(entries, own);
    if entries.len() > 0 {
        let shorter = entries.drop_last();
        let before = found_peers(shorter, own);
        law_found_by_its_socket(shorter, own, id);
        lemma_peer_of_entry(entries.last(), own, id);
        if is_found(before, id) {
            let i = choose|i: int| 0 <= i < before.len() && (#[trigger] before[i]).0 == id;
            assert(found[i] == before[i]);
        }
        if peer_of_entry(entries.last(), own) == Some(id) {
            assert(found[before.len() as int].0 == id);
        }
        if is_found(found, id) {
            let i = choose|i: int| 0 <= i < found.len() && (#[trigger] found[i]).0 == id;
            if i < before.len() {
                assert(before[i].0 == id);
            }
        }
        if exists|i: int| 0 <= i < shorter.len() && (#[trigger] shorter[i]).0 == Some(
            socket_name(id),
        ) {
            let i = choose|i: int|
                0 <= i < shorter.len() && (#[trigger] shorter[i]).0 == Some(socket_name(id));
            assert(entries[i].0 == Some(socket_name(id)));
        }
        if exists|i: int| 0 <= i < entries.len() && (#[trigger] entries[i]).0 == Some(
            socket_name(id),
        ) {
            let i = choose|i: int|
                0 <= i < entries.len() && (#[trigger] entries[i]).0 == Some(socket_name(id));
            if i < shorter.len() {
                assert(shorter[i].0 == Some(socket_name(id)));
            }
        }
    }
}

/// An entry tells of an instance exactly where it is that instance's socket.
proof fn lemma_peer_of_entry(entry: (Option<Seq<char>>, Seq<char>), own: Seq<char>, id: Seq<char>)
    ensures
        peer_of_entry(entry, own) == Some(id) <==> id != own && entry.0 == Some(socket_name(id)),
{
    reveal_strlit(".sock");
    if let Some(name) = entry.0 {
        if name.len() >= 5 {
            assert(name == name.take(name.len() - 5) + name.skip(name.len() - 5));
        }
        if name == socket_name(id) {
            assert(name.take(name.len() - 5) == id);
            assert(name.skip(name.len() - 5) == ".sock"@);
        }
    }
}

/// Whoever carries a plan out is then connected with the instances whose
/// sockets were found, and with nobody else.
pub proof fn law_plan_tracks_sockets(
    plan: DiscoveryPlan,
    entries: Seq<(Option<Seq<char>>, Seq<char>)>,
    own: Seq<char>,
    connected: Set<Seq<char>>,
    id: Seq<char>,
)
    requires
        plan.is_for(entries, own, connected),
    ensures
        is_found(found_peers(entries, own), id) <==> is_found(peer_views(plan.connect@), id) || (
        connected.contains(id) && !text_views(plan.gone@).contains(id)),
{
    lemma_filter_finds(found_peers(entries, own), connected, id);
}

/// The found instances that are not connected.
proof fn lemma_filter_finds(
    found: Seq<(Seq<char>, Seq<char>)>,
    connected: Set<Seq<char>>,
    id: Seq<char>,
)
    ensures
        is_found(found.filter(|p: (Seq<char>, Seq<char>)| !connected.contains(p.0)), id)
            <==> is_found(found, id) && !connected.contains(id),
    decreases found.len(),
{
    reveal(Seq::filter);
    let wanted = |p: (Seq<char>, Seq<char>)| !connected.contains(p.0);
    if found.len() > 0 {
        lemma_filter_finds(found.drop_last(), connected, id);
        assert(found == found.drop_last().push(found.last()));
        lemma_push_finds(found.drop_last(), found.last(), id);
        lemma_push_finds(found.drop_last().filter(wanted), found.last(), id);
    }
}

/// Who is found with one more instance at the end.
proof fn lemma_push_finds(
    found: Seq<(Seq<char>, Seq<char>)>,
    last: (Seq<char>, Seq<char>),
    id: Seq<char>,
)
    ensures
        is_found(found.push(last), id) <==> is_found(found, id) || last.0 == id,
{
    let longer = found.push(last);
    if is_found(found, id) {
        let i = choose|i: int| 0 <= i < found.len() && (#[trigger] found[i]).0 == id;
        assert(longer[i].0 == id);
    }
    assert(longer[found.len() as int] == last);
    if is_found(longer, id) {
        let i = choose|i: int| 0 <= i < longer.len() && (#[trigger] longer[i]).0 == id;
        if i < found.len() {
            assert(found[i].0 == id);
        }
    }
}

/// Sockets are found in the order of their entries, each with the path of its
/// own entry: one entry more adds the instance whose socket it is, with that
/// path, behind those found before, and any other entry adds nothing.
pub proof fn law_found_in_order_with_their_paths(
    entries: Seq<(Option<Seq<char>>, Seq<char>)>,
    entry: (Option<Seq<char>>, Seq<char>),
    own: Seq<char>,
)
    ensures
        found_peers(seq![], own) == Seq::<(Seq<char>, Seq<char>)>::empty(),
        forall|id: Seq<char>|
            id != own && entry.0 == Some(#[trigger] socket_name(id)) ==> found_peers(
                entries.push(entry),
                own,
            ) == found_peers(entries, own).push((id, entry.1)),
        (forall|id: Seq<char>| id != own ==> entry.0 != Some(#[trigger] socket_name(id)))
            ==> found_peers(entries.push(entry), own) == found_peers(entries, own),
{
    let longer = entries.push(entry);
    assert(longer.drop_last() =~= entries);
    assert(longer.last() == entry);
    assert forall|id: Seq<char>| id != own && entry.0 == Some(#[trigger] socket_name(id)) implies
        found_peers(longer, own) == found_peers(entries, own).push((id, entry.1)) by {
        lemma_peer_of_entry(entry, own, id);
    }
    if forall|id: Seq<char>| id != own ==> entry.0 != Some(#[trigger] socket_name(id)) {
        if peer_of_entry(entry, own) is Some {
            let id = peer_of_entry(entry, own)->0;
            lemma_peer_of_entry(entry, own, id);
            assert(entry.0 == Some(socket_name(id)));
        }
    }
}

/// Whoever is found is found by an entry that has the name of its socket, and
/// at the path of that entry.
pub proof fn law_found_at_their_own_sockets(
    entries: Seq<(Option<Seq<char>>, Seq<char>)>,
    own: Seq<char>,
    k: int,
)
    requires
        0 <= k < found_peers(entries, own).len(),
    ensures
        found_peers(entries, own)[k].0 != own,
        exists|i: int|
            0 <= i < entries.len() && #[trigger] entries[i] == (
                Some(socket_name(found_peers(entries, own)[k].0)),
                found_peers(entries, own)[k].1,
            ),
    decreases entries.len(),
{
    if entries.len() > 0 {
        let shorter = entries.drop_last();
        let before = found_peers(shorter, own);
        let found = found_peers(entries, own);
        if k < before.len() {
            law_found_at_their_own_sockets(shorter, own, k);
            let i = choose|i: int|
                0 <= i < shorter.len() && #[trigger] shorter[i] == (
                    Some(socket_name(before[k].0)),
                    before[k].1,
                );
            assert(found[k] == before[k]);
            assert(entries[i] == shorter[i]);
        } else {
            let last = entries[entries.len() - 1];
            lemma_peer_of_entry(last, own, found[k].0);
            assert(last == (Some(socket_name(found[k].0)), found[k].1));
        }
    }
}

/// A plan connects to instances by their own sockets: whom it connects to is
/// not this instance and not connected, and an entry has the name of its socket
/// and the path that is connected to. Nobody of whom that holds is left out,
/// and they stand in the order of their entries. Gone are those that are
/// connected and have no socket any more, each once.
pub proof fn law_plan_connects_by_socket(
    plan: DiscoveryPlan,
    entries: Seq<(Option<Seq<char>>, Seq<char>)>,
    own: Seq<char>,
    connected: Set<Seq<char>>,
)
    requires
        plan.is_for(entries, own, connected),
    ensures
        forall|k: int|
            #![trigger plan.connect[k]]
            0 <= k < plan.connect.len() ==> {
                let p = plan.connect[k];
                &&& p.instance_id@ != own
                &&& !connected.contains(p.instance_id@)
                &&& exists|i: int|
                    0 <= i < entries.len() && #[trigger] entries[i] == (
                        Some(socket_name(p.instance_id@)),
                        p.socket_path@,
                    )
            },
        forall|i: int, id: Seq<char>|
            #![trigger entries[i], socket_name(id)]
            0 <= i < entries.len() && entries[i].0 == Some(socket_name(id)) && id != own
                && !connected.contains(id) ==> exists|k: int|
                0 <= k < plan.connect.len() && (#[trigger] plan.connect[k]).instance_id@ == id
                    && plan.connect[k].socket_path@ == entries[i].1,
        peer_views(plan.connect@) == found_peers(entries, own).filter(
            |p: (Seq<char>, Seq<char>)| !connected.contains(p.0),
        ),
        text_views(plan.gone@).no_duplicates(),
        forall|id: Seq<char>|
            #![trigger connected.contains(id)]
            (exists|k: int| 0 <= k < plan.gone.len() && (#[trigger] plan.gone[k])@ == id)
                <==> connected.contains(id) && (id == own || forall|i: int|
                0 <= i < entries.len() ==> (#[trigger] entries[i]).0 != Some(socket_name(id))),
{
    let found = found_peers(entries, own);
    let wanted = |p: (Seq<char>, Seq<char>)| !connected.contains(p.0);
    let connect = peer_views(plan.connect@);
    assert forall|k: int|
        #![trigger plan.connect[k]]
        0 <= k < plan.connect.len() implies {
        let p = plan.connect[k];
        &&& p.instance_id@ != own
        &&& !connected.contains(p.instance_id@)
        &&& exists|i: int|
            0 <= i < entries.len() && #[trigger] entries[i] == (
                Some(socket_name(p.instance_id@)),
                p.socket_path@,
            )
    } by {
        assert(connect[k] == plan.connect[k]@);
        lemma_filter_members(found, wanted, connect[k]);
        assert(connect.contains(connect[k]));
        let j = choose|j: int| 0 <= j < found.len() && found[j] == connect[k];
        law_found_at_their_own_sockets(entries, own, j);
    }
    assert forall|i: int, id: Seq<char>|
        #![trigger entries[i], socket_name(id)]
        0 <= i < entries.len() && entries[i].0 == Some(socket_name(id)) && id != own
            && !connected.contains(id) implies exists|k: int|
        0 <= k < plan.connect.len() && (#[trigger] plan.connect[k]).instance_id@ == id
            && plan.connect[k].socket_path@ == entries[i].1 by {
        lemma_entry_is_found(entries, own, i, id);
        lemma_filter_members(found, wanted, (id, entries[i].1));
        assert(connect.contains((id, entries[i].1)));
        let k = choose|k: int| 0 <= k < connect.len() && connect[k] == (id, entries[i].1);
        assert(connect[k] == plan.connect[k]@);
    }
    assert forall|id: Seq<char>|
        #![trigger connected.contains(id)]
        (exists|k: int| 0 <= k < plan.gone.len() && (#[trigger] plan.gone[k])@ == id)
            <==> connected.contains(id) && (id == own || forall|i: int|
            0 <= i < entries.len() ==> (#[trigger] entries[i]).0 != Some(socket_name(id))) by {
        let gone = text_views(plan.gone@);
        law_found_by_its_socket(entries, own, id);
        assert(gone.contains(id) <==> connected.contains(id) && !is_found(found, id));
        if exists|k: int| 0 <= k < plan.gone.len() && (#[trigger] plan.gone[k])@ == id {
            let k = choose|k: int| 0 <= k < plan.gone.len() && (#[trigger] plan.gone[k])@ == id;
            assert(gone[k] == id);
        }
        if gone.contains(id) {
            let k = choose|k: int| 0 <= k < gone.len() && gone[k] == id;
            assert(plan.gone[k]@ == id);
        }
    }
}

/// The members of a filtered list.
proof fn lemma_filter_members<T>(s: Seq<T>, keeps: spec_fn(T) -> bool, t: T)
    ensures
        s.filter(keeps).contains(t) <==> s.contains(t) && keeps(t),
    decreases s.len(),
{
    reveal(Seq::filter);
    if s.len() > 0 {
        lemma_filter_members(s.drop_last(), keeps, t);
        assert(s == s.drop_last().push(s.last()));
        lemma_push_contains(s.drop_last(), s.last(), t);
        lemma_push_contains(s.drop_last().filter(keeps), s.last(), t);
    }
}

/// The socket of another instance leads to it at its path.
proof fn lemma_entry_is_found(
    entries: Seq<(Option<Seq<char>>, Seq<char>)>,
    own: Seq<char>,
    i: int,
    id: Seq<char>,
)
    requires
        0 <= i < entries.len(),
        entries[i].0 == Some(socket_name(id)),
        id != own,
    ensures
        found_peers(entries, own).contains((id, entries[i].1)),
    decreases entries.len(),
{
    let shorter = entries.drop_last();
    let before = found_peers(shorter, own);
    let found = found_peers(entries, own);
    if i < shorter.len() {
        assert(shorter[i] == entries[i]);
        lemma_entry_is_found(shorter, own, i, id);
        let k = choose|k: int| 0 <= k < before.len() && before[k] == (id, entries[i].1);
        assert(found[k] == (id, entries[i].1));
    } else {
        lemma_peer_of_entry(entries[i], own, id);
        assert(found[before.len() as int] == (id, entries[i].1));
    }
}

/// Entries and found instances say what they hold, one by one.
pub proof fn law_entries_say_what_they_hold(
    entries: Seq<SocketEntry>,
    found: Seq<FoundPeer>,
    i: int,
)
    ensures
        entry_views(entries).len() == entries.len(),
        0 <= i < entries.len() ==> entry_views(entries)[i].1 == entries[i].path@ && (
        entries[i].file_name matches Some(name) ==> entry_views(entries)[i].0 == Some(name@)) && (
        entries[i].file_name is None ==> entry_views(entries)[i].0 is None),
        peer_views(found).len() == found.len(),
        0 <= i < found.len() ==> peer_views(found)[i] == (
            found[i].instance_id@,
            found[i].socket_path@,
        ),
{
}

} // verus!
