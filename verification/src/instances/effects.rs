//! What each thing that happens to an instance changes, and what it leaves as
//! it was.

use vstd::prelude::*;

use crate::instances::coordinator::{
    is_broadcast, message_frame, mode_of, outgoing_views, receivers, ConnectionMode,
    CoordinatorError, CoordinatorView, IncomingControl, Outgoing, ReaderAction, ReaderEvent,
    StopReason,
};
use crate::instances::peers::PeerHandle;
use crate::instances::protocol::{
    default_chain, frame, from_big_endian, message_bytes, parse_message, recognizing_codec,
    CodecError, FrameError, InboundCodec, Message, ProbeError, WireCodec,
};
use crate::instances::routing::{
    is_routed, same_instances, with_routes, without_instance, without_routes, RouteView,
};
use crate::instances::sockets::socket_path_in;
use crate::instances::{ForwardMode, InstanceCoordinator, InstanceId};
use crate::text::text_views;

verus! {

// ---------------------------------------------------------------------------
// Routes
// ---------------------------------------------------------------------------

/// What is in a set of routes once an instance has gained or lost torrents, or
/// is forgotten, route by route.
pub proof fn law_routes_one_by_one(
    routes: Set<RouteView>,
    hashes: Seq<Seq<u8>>,
    id: Seq<char>,
    p: RouteView,
)
    ensures
        with_routes(routes, hashes, id).contains(p) <==> routes.contains(p) || (p.1 == id
            && hashes.contains(p.0)),
        without_routes(routes, hashes, id).contains(p) <==> routes.contains(p) && !(p.1 == id
            && hashes.contains(p.0)),
        without_instance(routes, id).contains(p) <==> routes.contains(p) && p.1 != id,
        routes.contains(p) ==> is_routed(routes, p.0),
        is_routed(routes, p.0) ==> exists|holder: Seq<char>| routes.contains((p.0, holder)),
        same_instances(routes, routes, p.0),
        same_instances(routes, routes.remove(p), p.0) <==> !routes.contains(p),
{
    if routes.contains(p) {
        assert(routes.contains((p.0, p.1)));
    }
    let fewer = routes.remove(p);
    if same_instances(routes, fewer, p.0) {
        assert(routes.contains((p.0, p.1)) == fewer.contains((p.0, p.1)));
    }
    if !routes.contains(p) {
        assert(fewer =~= routes);
    }
}

// ---------------------------------------------------------------------------
// Messages
// ---------------------------------------------------------------------------

/// An instance that names torrents it has adds a route to itself for each of
/// them, and changes no other.
pub proof fn law_added_torrents_are_routed<S, H>(
    v: CoordinatorView<S, H>,
    peer_id: Seq<char>,
    info_hashes: Seq<Seq<u8>>,
)
    ensures
        forall|h: Seq<u8>, id: Seq<char>| #[trigger]
            v.received(peer_id, Message::TorrentsAdded { info_hashes }).routes.contains((h, id))
                <==> v.routes.contains((h, id)) || (id == peer_id && info_hashes.contains(h)),
{
}

/// An instance that names torrents it no longer has loses its routes for them.
/// The routes to every other instance, and its own for torrents that were not
/// named, are there exactly if they were before.
pub proof fn law_removed_torrents_are_not_routed<S, H>(
    v: CoordinatorView<S, H>,
    peer_id: Seq<char>,
    info_hashes: Seq<Seq<u8>>,
)
    ensures
        forall|h: Seq<u8>, id: Seq<char>| #[trigger]
            v.received(peer_id, Message::TorrentsRemoved { info_hashes }).routes.contains((h, id))
                <==> v.routes.contains((h, id)) && !(id == peer_id && info_hashes.contains(h)),
{
}

/// An instance that says it has a torrent gains that one route; every other
/// route is there exactly if it was before.
pub proof fn law_i_have_adds_one_route<S, H>(
    v: CoordinatorView<S, H>,
    peer_id: Seq<char>,
    info_hash: Seq<u8>,
)
    ensures
        v.received(peer_id, Message::IHas { info_hash }).routes.contains((info_hash, peer_id)),
        forall|p: RouteView|
            p != (info_hash, peer_id) ==> (#[trigger] v.received(
                peer_id,
                Message::IHas { info_hash },
            ).routes.contains(p) <==> v.routes.contains(p)),
{
}

/// What was added can be taken away again: an instance that names torrents and
/// then withdraws the same ones is left with its other routes, whatever it had
/// said of those torrents before.
pub proof fn law_withdrawing_undoes_announcing<S, H>(
    v: CoordinatorView<S, H>,
    peer_id: Seq<char>,
    info_hashes: Seq<Seq<u8>>,
)
    ensures
        forall|p: RouteView| #[trigger]
            v.received(peer_id, Message::TorrentsAdded { info_hashes }).received(
                peer_id,
                Message::TorrentsRemoved { info_hashes },
            ).routes.contains(p) <==> v.routes.contains(p) && !(p.1 == peer_id
                && info_hashes.contains(p.0)),
{
}

/// A greeting or a question changes nothing. No message but a Goodbye changes
/// who is connected, and none changes what this instance is, what it has, who
/// takes forwarded connections, how it forwards or whether it has shut down.
pub proof fn law_messages_leave_the_rest<S, H>(
    v: CoordinatorView<S, H>,
    peer_id: Seq<char>,
    m: Message,
)
    ensures
        m is Hello || m is WhoHas ==> v.received(peer_id, m) == v,
        m !is Goodbye ==> v.received(peer_id, m).peers == v.peers,
        v.received(peer_id, m).instance_id == v.instance_id,
        v.received(peer_id, m).socket_path == v.socket_path,
        v.received(peer_id, m).socket_dir == v.socket_dir,
        v.received(peer_id, m).local_torrents == v.local_torrents,
        v.received(peer_id, m).forward_handler == v.forward_handler,
        v.received(peer_id, m).forward_mode == v.forward_mode,
        v.received(peer_id, m).cancelled == v.cancelled,
{
}

/// A Goodbye of a connected instance ends the connection with it and all
/// routes to it, and changes nothing of the others. One of an instance that is
/// not connected changes nothing at all.
pub proof fn law_goodbye_ends_one_connection<S, H>(v: CoordinatorView<S, H>, peer_id: Seq<char>)
    ensures
        v.peers.dom().contains(peer_id) ==> {
            let after = v.received(peer_id, Message::Goodbye);
            &&& after.peers == v.peers.remove(peer_id)
            &&& forall|h: Seq<u8>, id: Seq<char>| #[trigger]
                after.routes.contains((h, id)) <==> v.routes.contains((h, id)) && id != peer_id
        },
        !v.peers.dom().contains(peer_id) ==> v.received(peer_id, Message::Goodbye) == v,
{
}

// ---------------------------------------------------------------------------
// Connections
// ---------------------------------------------------------------------------

/// A new connection is the one with that instance; everything else stays.
pub proof fn law_connecting_adds_one_connection<S, H>(
    v: CoordinatorView<S, H>,
    peer_id: Seq<char>,
    handle: PeerHandle<S>,
)
    ensures
        ({
            let after = v.connected(peer_id, handle);
            &&& after.peers.dom().contains(peer_id)
            &&& after.peers[peer_id] == handle
            &&& forall|id: Seq<char>|
                id != peer_id ==> (#[trigger] after.peers.dom().contains(id)
                    <==> v.peers.dom().contains(id)) && (v.peers.dom().contains(id)
                    ==> after.peers[id] == v.peers[id])
            &&& after.routes == v.routes
            &&& after.instance_id == v.instance_id
            &&& after.socket_path == v.socket_path
            &&& after.socket_dir == v.socket_dir
            &&& after.local_torrents == v.local_torrents
            &&& after.forward_handler == v.forward_handler
            &&& after.forward_mode == v.forward_mode
            &&& after.cancelled == v.cancelled
        }),
{
}

/// An instance that leaves takes its connection and its routes with it, and
/// nothing else. One that is not connected takes nothing.
pub proof fn law_leaving_ends_one_connection<S, H>(v: CoordinatorView<S, H>, peer_id: Seq<char>)
    ensures
        !v.peers.dom().contains(peer_id) ==> v.disconnected(peer_id) == v,
        v.peers.dom().contains(peer_id) ==> {
            let after = v.disconnected(peer_id);
            &&& forall|id: Seq<char>| #[trigger]
                after.peers.dom().contains(id) <==> v.peers.dom().contains(id) && id != peer_id
            &&& forall|id: Seq<char>|
                id != peer_id && v.peers.dom().contains(id) ==> #[trigger] after.peers[id]
                    == v.peers[id]
            &&& forall|h: Seq<u8>, id: Seq<char>| #[trigger]
                after.routes.contains((h, id)) <==> v.routes.contains((h, id)) && id != peer_id
        },
        v.disconnected(peer_id).instance_id == v.instance_id,
        v.disconnected(peer_id).socket_path == v.socket_path,
        v.disconnected(peer_id).socket_dir == v.socket_dir,
        v.disconnected(peer_id).local_torrents == v.local_torrents,
        v.disconnected(peer_id).forward_handler == v.forward_handler,
        v.disconnected(peer_id).forward_mode == v.forward_mode,
        v.disconnected(peer_id).cancelled == v.cancelled,
{
}

// ---------------------------------------------------------------------------
// This instance
// ---------------------------------------------------------------------------

/// An instance starts alone: it knows nobody, has nothing, takes nothing, and
/// hands sockets over where it has the choice. Its socket is in the directory
/// of all of them, under its name.
pub proof fn law_instances_start_alone<S, H>(instance_id: Seq<char>, socket_dir: Seq<char>)
    ensures
        ({
            let v = CoordinatorView::<S, H>::started(instance_id, socket_dir);
            &&& v.instance_id == instance_id
            &&& v.socket_dir == socket_dir
            &&& v.socket_path == socket_path_in(socket_dir, instance_id)
            &&& forall|p: RouteView| !#[trigger] v.routes.contains(p)
            &&& forall|id: Seq<char>| !#[trigger] v.peers.dom().contains(id)
            &&& v.forward_handler is None
            &&& !v.cancelled
            &&& v.local_torrents.len() == 0
            &&& v.forward_mode == ForwardMode::FdPass
        }),
{
}

/// A torrent that is announced comes behind those before it and is routed to
/// this instance; no other route and nothing else changes.
pub proof fn law_announcing_adds_one_torrent<S, H>(v: CoordinatorView<S, H>, info_hash: Seq<u8>)
    ensures
        ({
            let after = v.announced(info_hash);
            &&& after.local_torrents.len() == v.local_torrents.len() + 1
            &&& after.local_torrents.last() == info_hash
            &&& after.local_torrents.drop_last() == v.local_torrents
            &&& forall|h: Seq<u8>, id: Seq<char>| #[trigger]
                after.routes.contains((h, id)) <==> v.routes.contains((h, id)) || (h == info_hash
                    && id == v.instance_id)
            &&& after.peers == v.peers
            &&& after.instance_id == v.instance_id
            &&& after.socket_path == v.socket_path
            &&& after.socket_dir == v.socket_dir
            &&& after.forward_handler == v.forward_handler
            &&& after.forward_mode == v.forward_mode
            &&& after.cancelled == v.cancelled
        }),
{
    assert(v.announced(info_hash).local_torrents.drop_last() =~= v.local_torrents);
}

/// A torrent that is withdrawn leaves the list wherever it stands in it, and
/// the others stay in their order: without torrents there is nothing to do, and
/// the last torrent of a list stays behind what is left of those before it,
/// unless it is the one withdrawn. No other route and nothing else changes.
pub proof fn law_withdrawing_removes_one_torrent<S, H>(
    v: CoordinatorView<S, H>,
    shorter: CoordinatorView<S, H>,
    info_hash: Seq<u8>,
)
    requires
        v.local_torrents.len() > 0,
        shorter.local_torrents == v.local_torrents.drop_last(),
    ensures
        ({
            let after = v.unannounced(info_hash);
            let last = v.local_torrents.last();
            &&& last == info_hash ==> after.local_torrents == shorter.unannounced(
                info_hash,
            ).local_torrents
            &&& last != info_hash ==> after.local_torrents == shorter.unannounced(
                info_hash,
            ).local_torrents.push(last)
            &&& shorter.local_torrents.len() == 0 ==> shorter.unannounced(
                info_hash,
            ).local_torrents.len() == 0
            &&& forall|h: Seq<u8>, id: Seq<char>| #[trigger]
                after.routes.contains((h, id)) <==> v.routes.contains((h, id)) && !(h == info_hash
                    && id == v.instance_id)
            &&& after.peers == v.peers
            &&& after.instance_id == v.instance_id
            &&& after.socket_path == v.socket_path
            &&& after.socket_dir == v.socket_dir
            &&& after.forward_handler == v.forward_handler
            &&& after.forward_mode == v.forward_mode
            &&& after.cancelled == v.cancelled
        }),
{
    reveal(Seq::filter);
}

/// Whoever is named for a torrent is another instance that has it. Nobody is
/// named only where nobody is known to have it, or this instance has it too.
pub proof fn law_found_instances_have_the_torrent<S, H>(
    v: CoordinatorView<S, H>,
    info_hash: Seq<u8>,
    r: Option<InstanceId>,
    id: Seq<char>,
)
    requires
        v.is_found(info_hash, r),
    ensures
        r matches Some(found) ==> v.routes.contains((info_hash, found@)) && found@
            != v.instance_id,
        r is None && v.routes.contains((info_hash, id)) ==> v.routes.contains(
            (info_hash, v.instance_id),
        ),
        v.has_elsewhere(info_hash, id) <==> v.routes.contains((info_hash, id)) && id
            != v.instance_id,
{
    if v.routes.contains((info_hash, id)) {
        assert(is_routed(v.routes, info_hash));
    }
}

/// A lookup of a torrent names whom it named before, as long as the instances
/// that have that torrent stay the same, whatever else has changed.
pub proof fn law_lookups_are_stable<S, H>(
    before: InstanceCoordinator<S, H>,
    after: InstanceCoordinator<S, H>,
    info_hash: Seq<u8>,
)
    requires
        after.finds_as(before),
        forall|id: Seq<char>| #[trigger]
            before@.routes.contains((info_hash, id)) == after@.routes.contains((info_hash, id)),
    ensures
        after.found(info_hash) == before.found(info_hash),
{
    assert(same_instances(before@.routes, after@.routes, info_hash));
}

/// Only a question for a torrent that this instance has is answered: to the
/// asker, that it has it. Where the asker is not connected the answer is an
/// error that names the asker. Everything else goes without an answer.
pub proof fn law_only_questions_are_answered<S, H>(
    v: CoordinatorView<S, H>,
    peer_id: Seq<char>,
    m: Message,
    r: Result<Option<Outgoing>, CoordinatorError>,
)
    requires
        v.is_answer(peer_id, m, r),
    ensures
        m !is WhoHas ==> r == Ok::<Option<Outgoing>, CoordinatorError>(None),
        m matches Message::WhoHas { info_hash } ==> {
            if !v.local_torrents.contains(info_hash) {
                r == Ok::<Option<Outgoing>, CoordinatorError>(None)
            } else if v.peers.dom().contains(peer_id) {
                r matches Ok(Some(out)) && out.peer_id@ == peer_id && out.frame@ == frame(
                    message_bytes(Message::IHas { info_hash }),
                )
            } else {
                r matches Err(CoordinatorError::NotConnected(id)) && id@ == peer_id
            }
        },
{
}

/// A broadcast goes to each connected instance once, with the frame of the
/// message, and to nobody else.
pub proof fn law_broadcast_reaches_each_peer_once(
    out: Seq<Outgoing>,
    peers: Set<Seq<char>>,
    m: Message,
)
    requires
        is_broadcast(outgoing_views(out), peers, m),
    ensures
        forall|i: int|
            #![trigger out[i]]
            0 <= i < out.len() ==> peers.contains(out[i].peer_id@) && out[i].frame@ == frame(
                message_bytes(m),
            ),
        forall|id: Seq<char>| #[trigger]
            peers.contains(id) ==> exists|i: int|
                0 <= i < out.len() && (#[trigger] out[i]).peer_id@ == id,
        forall|i: int, j: int|
            #![trigger out[i], out[j]]
            0 <= i < j < out.len() ==> out[i].peer_id@ != out[j].peer_id@,
{
    let views = outgoing_views(out);
    let to = receivers(views);
    assert forall|i: int| 0 <= i < out.len() implies #[trigger] to[i] == out[i].peer_id@ by {
        assert(views[i] == out[i]@);
    }
    assert forall|i: int|
        #![trigger out[i]]
        0 <= i < out.len() implies peers.contains(out[i].peer_id@) && out[i].frame@ == frame(
        message_bytes(m),
    ) by {
        assert(views[i] == out[i]@);
        assert(to[i] == out[i].peer_id@);
        assert(to.contains(to[i]));
        assert(to.to_set().contains(to[i]));
    }
    assert forall|id: Seq<char>| #[trigger] peers.contains(id) implies exists|i: int|
        0 <= i < out.len() && (#[trigger] out[i]).peer_id@ == id by {
        assert(to.to_set().contains(id));
        let i = choose|i: int| 0 <= i < to.len() && to[i] == id;
        assert(out[i].peer_id@ == id);
    }
    assert forall|i: int, j: int|
        #![trigger out[i], out[j]]
        0 <= i < j < out.len() implies out[i].peer_id@ != out[j].peer_id@ by {
        assert(to[i] != to[j]);
    }
}

// ---------------------------------------------------------------------------
// What arrives
// ---------------------------------------------------------------------------

/// The first byte of a connection tells three kinds apart; any other byte is
/// reported as it came.
pub proof fn law_first_bytes(byte: u8)
    ensures
        mode_of(byte) == ConnectionMode::Control <==> byte == 1,
        mode_of(byte) == ConnectionMode::ForwardTcp <==> byte == 2,
        mode_of(byte) == ConnectionMode::ForwardTcpFd <==> byte == 3,
        byte == 0 || byte > 3 ==> mode_of(byte) == ConnectionMode::Unknown(byte),
{
}

/// A control connection that shuts down, fails, announces a frame of no bytes
/// or of more than a megabyte, or brings a payload that is no message, ends,
/// and the instance at its other end is no longer connected. A header of any
/// other length leads to that payload and changes nothing, and a message to the
/// next header, with its effect on the state and the answer that is owed.
pub proof fn law_reading_goes_on_or_ends<S, H>(
    v: CoordinatorView<S, H>,
    peer_id: Seq<char>,
    event: ReaderEvent,
    action: ReaderAction,
    after: CoordinatorView<S, H>,
)
    requires
        v.is_reader_step(peer_id, default_chain()[0], event, action, after),
    ensures
        action is Stop ==> after == v.disconnected(peer_id),
        event is Cancelled ==> action == ReaderAction::Stop(StopReason::Cancelled),
        event is ReadFailed ==> action == ReaderAction::Stop(StopReason::ReadFailed),
        event matches ReaderEvent::Header(len_buf) ==> {
            let len = from_big_endian(len_buf@);
            if 1 <= len <= 1_048_576 {
                action == ReaderAction::ReadBody(len as usize) && after == v
            } else {
                action == ReaderAction::Stop(StopReason::InvalidLength(len as usize))
            }
        },
        event matches ReaderEvent::Body(payload) ==> match parse_message(payload@) {
            Some(m) => after == v.received(peer_id, m) && (action matches ReaderAction::ReadHeader(
                answer,
            ) && v.is_answer(peer_id, m, answer)),
            None => action == ReaderAction::Stop(StopReason::OtherFormat),
        },
{
}

/// A connection whose first frame was JSON is never read on: whatever comes,
/// it ends.
pub proof fn law_json_connections_end<S, H>(
    v: CoordinatorView<S, H>,
    peer_id: Seq<char>,
    event: ReaderEvent,
    action: ReaderAction,
    after: CoordinatorView<S, H>,
)
    requires
        v.is_reader_step(peer_id, default_chain()[1], event, action, after),
        event is Body,
    ensures
        action is Stop,
        after == v.disconnected(peer_id),
        event->Body_0@.len() > 0 && event->Body_0@[0] == 0x7b ==> action == ReaderAction::Stop(
            StopReason::Undecodable(CodecError::JsonControl),
        ),
{
}

/// A control connection is accepted exactly if its first message is a Hello:
/// from the instance that it names, in the first format, answered with the
/// greeting. Another message, JSON and what is neither are refused each in
/// their own way.
pub proof fn law_only_a_hello_is_accepted<S, H>(
    v: CoordinatorView<S, H>,
    payload: Seq<u8>,
    r: Result<IncomingControl, CoordinatorError>,
)
    requires
        v.is_incoming_control(payload, r),
    ensures
        match parse_message(payload) {
            Some(Message::Hello { instance_id }) => r matches Ok(incoming)
                && incoming.peer_id@ == instance_id && incoming.codec_idx == 0
                && incoming.reply@ == v.greeting(),
            Some(_) => r == Err::<IncomingControl, CoordinatorError>(
                CoordinatorError::ExpectedHello,
            ),
            None => if payload.len() > 0 && payload[0] == 0x7b {
                r == Err::<IncomingControl, CoordinatorError>(
                    CoordinatorError::Probe(ProbeError::Codec(CodecError::JsonControl)),
                )
            } else {
                r matches Err(CoordinatorError::Probe(ProbeError::Unrecognized { tried }))
                    && tried.len() == 2 && tried[0]@ == "postcard"@ && tried[1]@
                    == "json/varlink"@
            },
        },
{
    let chain = default_chain();
    reveal_with_fuel(recognizing_codec, 4);
    assert(chain.skip(1)[0] == chain[1]);
    if let Err(CoordinatorError::Probe(ProbeError::Unrecognized { tried })) = r {
        let names = chain.map_values(|c: InboundCodec| c.spec_name());
        assert(text_views(tried@) == names);
        assert(names[0] == chain[0].spec_name() && names[1] == chain[1].spec_name());
        assert(text_views(tried@)[0] == tried[0]@ && text_views(tried@)[1] == tried[1]@);
    }
}

/// A greeting is the frame of a Hello, and then the frame that names the
/// torrents if there are any.
pub proof fn law_greeting_frames<S, H>(v: CoordinatorView<S, H>)
    ensures
        v.local_torrents.len() == 0 ==> v.greeting() == frame(
            message_bytes(Message::Hello { instance_id: v.instance_id }),
        ),
        v.local_torrents.len() > 0 ==> v.greeting() == frame(
            message_bytes(Message::Hello { instance_id: v.instance_id }),
        ) + frame(message_bytes(Message::TorrentsAdded { info_hashes: v.local_torrents })),
{
}

/// A refusal tells whom or what it is about.
pub proof fn law_refusals_in_words(id: InstanceId, probe: ProbeError, metadata: FrameError, errno: i32)
    ensures
        CoordinatorError::NotConnected(id).text() == "peer "@ + id@ + " not connected"@,
        CoordinatorError::Probe(probe).text() == probe.text(),
        CoordinatorError::ExpectedHello.text() == "expected Hello as first message"@,
        CoordinatorError::Metadata(metadata).text() == metadata.text(),
        CoordinatorError::NoForwardHandler.text() == "forward received but no handler registered"@,
        CoordinatorError::NoDescriptor.text() == "forward-fd message arrived without SCM_RIGHTS"@,
        CoordinatorError::RecvFailed(errno).text() == "recvmsg SCM_RIGHTS"@,
{
}

/// A message is sent as the frame of its bytes.
pub proof fn law_messages_are_sent_as_frames(m: Message)
    ensures
        message_frame(m) == frame(message_bytes(m)),
{
}

} // verus!
