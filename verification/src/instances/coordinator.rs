//! One instance among the others: whom it is connected with, what it has, what
//! it knows the others to have, and what it says.
//!
//! The coordinator holds the state and decides. Whoever owns the connections
//! hands it what arrived and sends what it returns.

use vstd::prelude::*;

use crate::instances::discovery::{entry_views, plan_discovery, DiscoveryPlan, SocketEntry};
use crate::instances::fd_passing::RecvStep;
use crate::instances::peers::{PeerHandle, PeerTable};
use crate::instances::protocol::{
    addr_bytes, control_frame_len, default_chain, default_inbound_codecs, default_outbound_codec,
    forward_bytes, frame, frame_len, from_big_endian, lemma_hash_views_valid, message_bytes, parse_forward,
    parse_forward_fd, probe_decode_control, recognizing_codec, valid_hashes, write_payload_frame, CodecError,
    ControlMessage, ForwardMeta, ForwardTcpFdMeta, ForwardTcpMeta, FrameError, InboundCodec,
    Message, PeerAddr, PostcardCodec, ProbeError, WireCodec, MAX_FRAME_SIZE, MODE_CONTROL,
    MODE_FORWARD_TCP, MODE_FORWARD_TCP_FD,
};
use crate::instances::routing::{
    contains_hash, is_routed, named, same_hash, same_instances, with_routes, without_instance, without_routes, RouteView,
    RoutingTable,
};
use crate::instances::sockets::{
    generate_instance_id, get_socket_dir, instance_id_text, make_socket_path, socket_dir_in,
    socket_path_in,
};
use crate::instances::wire::hash_views;
use crate::instances::{ForwardMode, InstanceId};
use crate::text::{sentence, text_views};

verus! {

// ---------------------------------------------------------------------------
// What is sent, and why something is not
// ---------------------------------------------------------------------------

/// A frame for a connected instance.
#[derive(Debug)]
pub struct Outgoing {
    pub peer_id: InstanceId,
    pub frame: Vec<u8>,
}

impl View for Outgoing {
    type V = (Seq<char>, Seq<u8>);

    open spec fn view(&self) -> (Seq<char>, Seq<u8>) {
        (self.peer_id@, self.frame@)
    }
}

/// What the frames are and whom they are for.
pub open spec fn outgoing_views(out: Seq<Outgoing>) -> Seq<(Seq<char>, Seq<u8>)> {
    out.map_values(|o: Outgoing| o@)
}

/// Whom the frames are for.
pub open spec fn receivers(out: Seq<(Seq<char>, Seq<u8>)>) -> Seq<Seq<char>> {
    out.map_values(|o: (Seq<char>, Seq<u8>)| o.0)
}

/// The frame that says `m`.
pub open spec fn message_frame(m: Message) -> Seq<u8> {
    frame(message_bytes(m))
}

/// Each of `peers` gets the message once, and nobody else gets anything. The
/// order is left open.
pub open spec fn is_broadcast(
    out: Seq<(Seq<char>, Seq<u8>)>,
    peers: Set<Seq<char>>,
    m: Message,
) -> bool {
    &&& receivers(out).no_duplicates()
    &&& receivers(out).to_set() == peers
    &&& forall|i: int| 0 <= i < out.len() ==> (#[trigger] out[i]).1 == message_frame(m)
}

/// Why a request to the coordinator was refused.
#[derive(Debug)]
pub enum CoordinatorError {
    /// The instance is not connected.
    NotConnected(InstanceId),
    /// No codec decoded the first message of a control connection.
    Probe(ProbeError),
    /// The first message of a control connection is not a Hello.
    ExpectedHello,
    /// The metadata of a forwarded connection was not taken.
    Metadata(FrameError),
    /// Nobody takes forwarded connections.
    NoForwardHandler,
    /// The message that was to bring a descriptor brought none.
    NoDescriptor,
    /// The system refused to receive a descriptor, with this error number.
    RecvFailed(i32),
}

impl CoordinatorError {
    /// What to tell the user.
    pub open spec fn text(self) -> Seq<char> {
        match self {
            CoordinatorError::NotConnected(id) => "peer "@ + id@ + " not connected"@,
            CoordinatorError::Probe(e) => e.text(),
            CoordinatorError::ExpectedHello => "expected Hello as first message"@,
            CoordinatorError::Metadata(e) => e.text(),
            CoordinatorError::NoForwardHandler => "forward received but no handler registered"@,
            CoordinatorError::NoDescriptor => "forward-fd message arrived without SCM_RIGHTS"@,
            CoordinatorError::RecvFailed(_) => "recvmsg SCM_RIGHTS"@,
        }
    }

    /// What to tell the user.
    pub fn message(&self) -> (text: String)
        ensures
            text@ == self.text(),
    {
        match self {
            CoordinatorError::NotConnected(id) => sentence("peer ", id.as_str(), " not connected"),
            CoordinatorError::Probe(e) => e.message(),
            CoordinatorError::ExpectedHello => "expected Hello as first message".to_owned(),
            CoordinatorError::Metadata(e) => e.message(),
            CoordinatorError::NoForwardHandler =>
                "forward received but no handler registered".to_owned(),
            CoordinatorError::NoDescriptor =>
                "forward-fd message arrived without SCM_RIGHTS".to_owned(),
            CoordinatorError::RecvFailed(_) => "recvmsg SCM_RIGHTS".to_owned(),
        }
    }
}

/// What a connection is for.
#[derive(Clone, Copy, Debug, PartialEq, Eq, Structural)]
pub enum ConnectionMode {
    /// Control messages.
    Control,
    /// A forwarded TCP stream.
    ForwardTcp,
    /// A TCP socket handed over by its descriptor.
    ForwardTcpFd,
    /// Nothing that is known.
    Unknown(u8),
}

/// What a connection that opens with this byte is for.
pub open spec fn mode_of(byte: u8) -> ConnectionMode {
    if byte == MODE_CONTROL {
        ConnectionMode::Control
    } else if byte == MODE_FORWARD_TCP {
        ConnectionMode::ForwardTcp
    } else if byte == MODE_FORWARD_TCP_FD {
        ConnectionMode::ForwardTcpFd
    } else {
        ConnectionMode::Unknown(byte)
    }
}

/// What a connection that opens with this byte is for.
pub fn connection_mode(byte: u8) -> (mode: ConnectionMode)
    ensures
        mode == mode_of(byte),
{
    if byte == MODE_CONTROL {
        ConnectionMode::Control
    } else if byte == MODE_FORWARD_TCP {
        ConnectionMode::ForwardTcp
    } else if byte == MODE_FORWARD_TCP_FD {
        ConnectionMode::ForwardTcpFd
    } else {
        ConnectionMode::Unknown(byte)
    }
}

/// An accepted control connection.
#[derive(Debug)]
pub struct IncomingControl {
    /// Who is at the other end.
    pub peer_id: InstanceId,
    /// The place in the chain of the codec that the other end speaks.
    pub codec_idx: usize,
    /// What to answer.
    pub reply: Vec<u8>,
}

/// A forwarded stream that has arrived.
#[derive(Debug)]
pub struct IncomingForward {
    pub peer_addr: PeerAddr,
    /// What was read from the stream before it was forwarded.
    pub prefix: Vec<u8>,
}

/// What becomes of a socket that was handed over.
#[derive(Clone, Copy, Debug)]
pub enum FdDelivery {
    /// It has not arrived yet: wait until there is something to receive.
    Retry,
    /// The handler gets it.
    HandOver { fd: i32, peer_addr: PeerAddr },
    /// Nobody takes forwarded connections: it is closed.
    Drop { fd: i32 },
}

/// Where a connection is forwarded, and what to write there first.
#[derive(Debug)]
pub struct ForwardPlan {
    pub socket_path: String,
    pub opening: Vec<u8>,
}

/// What happened on a control connection.
#[derive(Debug)]
pub enum ReaderEvent {
    /// The coordinator shuts down.
    Cancelled,
    /// The connection ended or failed.
    ReadFailed,
    /// The header of a frame arrived.
    Header([u8; 4]),
    /// The payload of a frame arrived.
    Body(Vec<u8>),
}

/// Why a control connection is no longer read.
#[derive(Clone, Copy, Debug, PartialEq, Eq, Structural)]
pub enum StopReason {
    Cancelled,
    ReadFailed,
    /// A frame of no length or more than [`MAX_FRAME_SIZE`] was announced.
    InvalidLength(usize),
    /// The codec recognized its format and did not decode it.
    Undecodable(CodecError),
    /// A frame is not in the format of the first one.
    OtherFormat,
}

/// What to do next on a control connection.
#[derive(Debug)]
pub enum ReaderAction {
    /// Read a payload of this length.
    ReadBody(usize),
    /// Send the answer, if there is one, and read the next header.
    ReadHeader(Result<Option<Outgoing>, CoordinatorError>),
    /// Stop reading.
    Stop(StopReason),
}

// ---------------------------------------------------------------------------
// The state
// ---------------------------------------------------------------------------

/// What a coordinator holds.
#[verifier::ext_equal]
pub struct CoordinatorView<S, H> {
    pub instance_id: Seq<char>,
    pub socket_path: Seq<char>,
    pub socket_dir: Seq<char>,
    pub routes: Set<RouteView>,
    pub peers: Map<Seq<char>, PeerHandle<S>>,
    pub forward_handler: Option<H>,
    pub cancelled: bool,
    pub local_torrents: Seq<Seq<u8>>,
    pub forward_mode: ForwardMode,
}

impl<S, H> CoordinatorView<S, H> {
    /// An instance that has just started.
    pub open spec fn started(instance_id: Seq<char>, socket_dir: Seq<char>) -> Self {
        CoordinatorView {
            instance_id,
            socket_path: socket_path_in(socket_dir, instance_id),
            socket_dir,
            routes: Set::empty(),
            peers: Map::empty(),
            forward_handler: None,
            cancelled: false,
            local_torrents: seq![],
            forward_mode: ForwardMode::FdPass,
        }
    }

    /// The instance has one more torrent.
    pub open spec fn announced(self, info_hash: Seq<u8>) -> Self {
        CoordinatorView {
            local_torrents: self.local_torrents.push(info_hash),
            routes: self.routes.insert((info_hash, self.instance_id)),
            ..self
        }
    }

    /// The instance no longer has the torrent.
    pub open spec fn unannounced(self, info_hash: Seq<u8>) -> Self {
        CoordinatorView {
            local_torrents: self.local_torrents.filter(|h: Seq<u8>| h != info_hash),
            routes: self.routes.remove((info_hash, self.instance_id)),
            ..self
        }
    }

    /// An instance is connected, in place of one of the same name.
    pub open spec fn connected(self, peer_id: Seq<char>, handle: PeerHandle<S>) -> Self {
        CoordinatorView { peers: self.peers.insert(peer_id, handle), ..self }
    }

    /// An instance is no longer connected. What it had is forgotten, unless it
    /// was not connected to begin with.
    pub open spec fn disconnected(self, peer_id: Seq<char>) -> Self {
        if self.peers.dom().contains(peer_id) {
            CoordinatorView {
                peers: self.peers.remove(peer_id),
                routes: without_instance(self.routes, peer_id),
                ..self
            }
        } else {
            self
        }
    }

    /// A message from `peer_id` has been taken in.
    pub open spec fn received(self, peer_id: Seq<char>, m: Message) -> Self {
        match m {
            Message::Hello { instance_id } => self,
            Message::TorrentsAdded { info_hashes } => CoordinatorView {
                routes: with_routes(self.routes, info_hashes, peer_id),
                ..self
            },
            Message::TorrentsRemoved { info_hashes } => CoordinatorView {
                routes: without_routes(self.routes, info_hashes, peer_id),
                ..self
            },
            Message::WhoHas { info_hash } => self,
            Message::IHas { info_hash } => CoordinatorView {
                routes: self.routes.insert((info_hash, peer_id)),
                ..self
            },
            Message::Goodbye => self.disconnected(peer_id),
        }
    }

    /// Whether a message is one that this instance answers.
    pub open spec fn answers(self, m: Message) -> bool {
        m matches Message::WhoHas { info_hash } && self.local_torrents.contains(info_hash)
    }

    /// `r` is the answer to message `m` from `peer_id`: that this instance has
    /// what was asked for. An answer that is owed to nobody connected is an
    /// error.
    pub open spec fn is_answer(
        self,
        peer_id: Seq<char>,
        m: Message,
        r: Result<Option<Outgoing>, CoordinatorError>,
    ) -> bool {
        if !self.answers(m) {
            r == Ok::<Option<Outgoing>, CoordinatorError>(None)
        } else if self.peers.dom().contains(peer_id) {
            r matches Ok(Some(out)) && out@ == (
                peer_id,
                message_frame(Message::IHas { info_hash: m->WhoHas_info_hash }),
            )
        } else {
            r matches Err(CoordinatorError::NotConnected(id)) && id@ == peer_id
        }
    }

    /// What the instance says at the start of a control connection: its name,
    /// and then its torrents if it has any.
    pub open spec fn greeting(self) -> Seq<u8> {
        let hello = message_frame(Message::Hello { instance_id: self.instance_id });
        if self.local_torrents.len() == 0 {
            hello
        } else {
            hello + message_frame(Message::TorrentsAdded { info_hashes: self.local_torrents })
        }
    }

    /// Whether `id` is an instance other than this one that is known to have
    /// the torrent.
    pub open spec fn has_elsewhere(self, info_hash: Seq<u8>, id: Seq<char>) -> bool {
        self.routes.contains((info_hash, id)) && id != self.instance_id
    }

    /// `r` is one of the instances that are known to have the torrent. Which
    /// one is left open, so where this instance is among them there may be
    /// none to name.
    pub open spec fn is_found(self, info_hash: Seq<u8>, r: Option<InstanceId>) -> bool {
        match r {
            Some(id) => self.has_elsewhere(info_hash, id@),
            None => !is_routed(self.routes, info_hash) || self.routes.contains(
                (info_hash, self.instance_id),
            ),
        }
    }

    /// Where a connection with `peer_id` leads after `event`, and the state
    /// then.
    pub open spec fn is_reader_step(
        self,
        peer_id: Seq<char>,
        codec: InboundCodec,
        event: ReaderEvent,
        action: ReaderAction,
        after: Self,
    ) -> bool {
        match event {
            ReaderEvent::Cancelled => {
                &&& action == ReaderAction::Stop(StopReason::Cancelled)
                &&& after == self.disconnected(peer_id)
            },
            ReaderEvent::ReadFailed => {
                &&& action == ReaderAction::Stop(StopReason::ReadFailed)
                &&& after == self.disconnected(peer_id)
            },
            ReaderEvent::Header(len_buf) => {
                let len = from_big_endian(len_buf@);
                if 0 < len <= MAX_FRAME_SIZE {
                    &&& action == ReaderAction::ReadBody(len as usize)
                    &&& after == self
                } else {
                    &&& action == ReaderAction::Stop(StopReason::InvalidLength(len as usize))
                    &&& after == self.disconnected(peer_id)
                }
            },
            ReaderEvent::Body(payload) => match codec.control(payload@) {
                Some(Ok(m)) => {
                    &&& action matches ReaderAction::ReadHeader(answer) && self.is_answer(
                        peer_id,
                        m,
                        answer,
                    )
                    &&& after == self.received(peer_id, m)
                },
                Some(Err(e)) => {
                    &&& action == ReaderAction::Stop(StopReason::Undecodable(e))
                    &&& after == self.disconnected(peer_id)
                },
                None => {
                    &&& action == ReaderAction::Stop(StopReason::OtherFormat)
                    &&& after == self.disconnected(peer_id)
                },
            },
        }
    }

    /// `r` is what the first frame of a control connection leads to. The
    /// message must be a Hello; the answer is the greeting.
    pub open spec fn is_incoming_control(
        self,
        payload: Seq<u8>,
        r: Result<IncomingControl, CoordinatorError>,
    ) -> bool {
        let i = recognizing_codec(default_chain(), payload);
        if i < default_chain().len() {
            match default_chain()[i].control(payload) {
                Some(Ok(Message::Hello { instance_id })) => {
                    r matches Ok(incoming) && incoming.peer_id@ == instance_id
                        && incoming.codec_idx == i && incoming.reply@ == self.greeting()
                },
                Some(Ok(_)) => r == Err::<IncomingControl, CoordinatorError>(
                    CoordinatorError::ExpectedHello,
                ),
                Some(Err(e)) => r == Err::<IncomingControl, CoordinatorError>(
                    CoordinatorError::Probe(ProbeError::Codec(e)),
                ),
                None => false,
            }
        } else {
            r matches Err(CoordinatorError::Probe(ProbeError::Unrecognized { tried }))
                && text_views(tried@) =~= default_chain().map_values(
                |c: InboundCodec| c.spec_name(),
            )
        }
    }
}

/// An instance that coordinates with the others on the machine. `S` is the
/// sending end of a control connection; `H` takes forwarded connections.
#[derive(Debug)]
pub struct InstanceCoordinator<S, H> {
    instance_id: InstanceId,
    socket_path: String,
    socket_dir: String,
    routing: RoutingTable,
    peers: PeerTable<S>,
    forward_handler: Option<H>,
    cancelled: bool,
    local_torrents: Vec<[u8; 20]>,
    inbound_codecs: Vec<InboundCodec>,
    outbound_codec: PostcardCodec,
    forward_mode: ForwardMode,
}

impl<S, H> View for InstanceCoordinator<S, H> {
    type V = CoordinatorView<S, H>;

    closed spec fn view(&self) -> CoordinatorView<S, H> {
        CoordinatorView {
            instance_id: self.instance_id@,
            socket_path: self.socket_path@,
            socket_dir: self.socket_dir@,
            routes: self.routing@,
            peers: self.peers@,
            forward_handler: self.forward_handler,
            cancelled: self.cancelled,
            local_torrents: hash_views(self.local_torrents@),
            forward_mode: self.forward_mode,
        }
    }
}

/// A copy of the hashes.
fn copy_hashes(hashes: &Vec<[u8; 20]>) -> (copy: Vec<[u8; 20]>)
    ensures
        copy@ == hashes@,
{
    let n: usize = hashes.len();
    let mut copy: Vec<[u8; 20]> = Vec::new();
    for i in 0..n
        invariant
            n == hashes.len(),
            copy@ == hashes@.take(i as int),
    {
        copy.push(hashes[i]);
        assert(copy@ == hashes@.take(i + 1));
    }
    copy
}

/// The hashes other than `info_hash`, in their order.
fn without_hash(hashes: &Vec<[u8; 20]>, info_hash: &[u8; 20]) -> (kept: Vec<[u8; 20]>)
    ensures
        hash_views(kept@) == hash_views(hashes@).filter(|h: Seq<u8>| h != info_hash@),
{
    let n: usize = hashes.len();
    let ghost views = hash_views(hashes@);
    let ghost keeps = |h: Seq<u8>| h != info_hash@;
    let mut kept: Vec<[u8; 20]> = Vec::new();
    proof {
        reveal(Seq::filter);
    }
    assert(hash_views(kept@) == views.take(0).filter(keeps));
    for i in 0..n
        invariant
            n == hashes.len(),
            views == hash_views(hashes@),
            keeps == (|h: Seq<u8>| h != info_hash@),
            hash_views(kept@) == views.take(i as int).filter(keeps),
    {
        let ghost before = kept@;
        proof {
            reveal(Seq::filter);
        }
        assert(views.take(i + 1).drop_last() == views.take(i as int));
        assert(views.take(i + 1).last() == hashes[i as int]@);
        if !same_hash(&hashes[i], info_hash) {
            kept.push(hashes[i]);
            assert(hash_views(kept@) == hash_views(before).push(hashes[i as int]@));
        }
    }
    assert(views.take(n as int) == views);
    kept
}

impl<S, H> InstanceCoordinator<S, H> {
    /// The tables hold nothing twice, and messages are read by the default
    /// chain.
    pub closed spec fn wf(self) -> bool {
        &&& self.routing.wf()
        &&& self.peers.wf()
        &&& self.inbound_codecs@ == default_chain()
    }

    /// The other instance that a lookup of the torrent names. It is the same
    /// one as long as the routes do not change.
    pub closed spec fn found(self, info_hash: Seq<u8>) -> Option<Seq<char>> {
        match self.routing.holder(info_hash) {
            Some(id) => if id != self.instance_id@ {
                Some(id)
            } else {
                None
            },
            None => None,
        }
    }

    /// A lookup of a torrent names whom it named before, as long as the same
    /// instances are known to have that torrent.
    pub open spec fn finds_as(self, before: Self) -> bool {
        forall|h: Seq<u8>|
            same_instances(before@.routes, self@.routes, h) ==> #[trigger] self.found(h)
                == before.found(h)
    }

    /// The torrents of an instance have hashes of 20 bytes, as many as fit in
    /// memory.
    pub proof fn lemma_local_torrents_valid(self)
        ensures
            valid_hashes(self@.local_torrents),
    {
        lemma_hash_views_valid(self.local_torrents);
    }

    /// An instance of the given name that listens in `socket_dir`.
    pub fn new(instance_id: InstanceId, socket_dir: String) -> (c: Self)
        ensures
            c.wf(),
            c@ == CoordinatorView::<S, H>::started(instance_id@, socket_dir@),
    {
        let socket_path: String = make_socket_path(socket_dir.as_str(), &instance_id);
        let c = InstanceCoordinator {
            instance_id,
            socket_path,
            socket_dir,
            routing: RoutingTable::new(),
            peers: PeerTable::new(),
            forward_handler: None,
            cancelled: false,
            local_torrents: Vec::new(),
            inbound_codecs: default_inbound_codecs(),
            outbound_codec: default_outbound_codec(),
            forward_mode: ForwardMode::default(),
        };
        assert(c@ == CoordinatorView::<S, H>::started(instance_id@, socket_dir@));
        c
    }

    /// The instance that runs as process `pid`, under a new name, with its
    /// socket in the user's runtime directory.
    pub fn start(pid: u32, xdg_runtime_dir: Option<String>) -> (c: Self)
        ensures
            c.wf(),
            exists|random: u64|
                c@ == CoordinatorView::<S, H>::started(
                    #[trigger] instance_id_text(pid, random),
                    socket_dir_in(xdg_runtime_dir),
                ),
    {
        let instance_id: InstanceId = generate_instance_id(pid);
        let socket_dir: String = get_socket_dir(xdg_runtime_dir);
        Self::new(instance_id, socket_dir)
    }

    /// The name of this instance.
    pub fn instance_id(&self) -> (id: &str)
        ensures
            id@ == self@.instance_id,
    {
        self.instance_id.as_str()
    }

    /// The socket that this instance listens on.
    pub fn socket_path(&self) -> (path: &str)
        ensures
            path@ == self@.socket_path,
    {
        self.socket_path.as_str()
    }

    /// The directory of the sockets of all instances.
    pub fn socket_dir(&self) -> (dir: &str)
        ensures
            dir@ == self@.socket_dir,
    {
        self.socket_dir.as_str()
    }

    /// Whether the instance has shut down.
    pub fn is_cancelled(&self) -> (cancelled: bool)
        ensures
            cancelled == self@.cancelled,
    {
        self.cancelled
    }

    /// Sets who takes forwarded connections.
    pub fn set_forward_handler(&mut self, handler: H)
        requires
            old(self).wf(),
        ensures
            final(self).wf(),
            final(self).finds_as(*old(self)),
            final(self)@ == (CoordinatorView { forward_handler: Some(handler), ..old(self)@ }),
    {
        self.forward_handler = Some(handler);
    }

    /// Who takes forwarded connections.
    pub fn forward_handler(&self) -> (handler: Option<&H>)
        ensures
            match handler {
                Some(h) => self@.forward_handler == Some(*h),
                None => self@.forward_handler is None,
            },
    {
        self.forward_handler.as_ref()
    }

    /// Current outgoing-forward strategy (fd-pass vs stream-proxy).
    pub fn forward_mode(&self) -> (mode: ForwardMode)
        ensures
            mode == self@.forward_mode,
    {
        self.forward_mode
    }

    /// Set the outgoing-forward strategy. Receiver is always mode-agnostic.
    pub fn set_forward_mode(&mut self, mode: ForwardMode)
        requires
            old(self).wf(),
        ensures
            final(self).wf(),
            final(self).finds_as(*old(self)),
            final(self)@ == (CoordinatorView { forward_mode: mode, ..old(self)@ }),
    {
        self.forward_mode = mode;
    }

    /// How to reach a connected instance.
    pub fn peer(&self, peer_id: &InstanceId) -> (r: Option<&PeerHandle<S>>)
        requires
            self.wf(),
        ensures
            match r {
                Some(handle) => self@.peers.dom().contains(peer_id@) && *handle
                    == self@.peers[peer_id@],
                None => !self@.peers.dom().contains(peer_id@),
            },
    {
        self.peers.get(peer_id)
    }

    /// The connected instances, each once, in an order that is left open.
    pub fn peer_ids(&self) -> (ids: Vec<InstanceId>)
        requires
            self.wf(),
        ensures
            text_views(ids@).no_duplicates(),
            text_views(ids@).to_set() == self@.peers.dom(),
    {
        self.peers.ids()
    }

    // -----------------------------------------------------------------------
    // Sending
    // -----------------------------------------------------------------------

    /// Appends the frame that says `msg`.
    fn write_message(&self, buf: &mut Vec<u8>, msg: &ControlMessage)
        ensures
            final(buf)@ == old(buf)@ + message_frame(msg@),
    {
        let payload: Vec<u8> = self.outbound_codec.encode_control(msg);
        write_payload_frame(buf, payload.as_slice());
    }

    /// The message for every connected instance.
    pub fn broadcast(&self, msg: &ControlMessage) -> (out: Vec<Outgoing>)
        requires
            self.wf(),
        ensures
            is_broadcast(outgoing_views(out@), self@.peers.dom(), msg@),
    {
        let mut frame_bytes: Vec<u8> = Vec::new();
        self.write_message(&mut frame_bytes, msg);
        assert(frame_bytes@ == message_frame(msg@));
        let ids: Vec<InstanceId> = self.peers.ids();
        let n: usize = ids.len();
        let mut out: Vec<Outgoing> = Vec::new();
        for i in 0..n
            invariant
                n == ids.len(),
                frame_bytes@ == message_frame(msg@),
                out.len() == i,
                forall|j: int|
                    0 <= j < i ==> (#[trigger] out[j])@ == (ids[j]@, message_frame(msg@)),
        {
            let mut copy: Vec<u8> = Vec::new();
            copy.extend_from_slice(frame_bytes.as_slice());
            assert(copy@ == frame_bytes@);
            out.push(Outgoing { peer_id: ids[i].clone(), frame: copy });
        }
        let ghost views = outgoing_views(out@);
        assert forall|j: int| 0 <= j < n implies #[trigger] views[j] == (
            ids[j]@,
            message_frame(msg@),
        ) by {
            assert(views[j] == out[j]@);
        }
        assert(receivers(views) == text_views(ids@));
        out
    }

    /// The message for one instance, which must be connected.
    pub fn send_to_peer(&self, peer_id: &InstanceId, msg: &ControlMessage) -> (r: Result<
        Outgoing,
        CoordinatorError,
    >)
        requires
            self.wf(),
        ensures
            if self@.peers.dom().contains(peer_id@) {
                r matches Ok(out) && out@ == (peer_id@, message_frame(msg@))
            } else {
                r matches Err(CoordinatorError::NotConnected(id)) && id@ == peer_id@
            },
    {
        if self.peers.get(peer_id).is_none() {
            return Err(CoordinatorError::NotConnected(peer_id.clone()));
        }
        let mut frame_bytes: Vec<u8> = Vec::new();
        self.write_message(&mut frame_bytes, msg);
        assert(frame_bytes@ == message_frame(msg@));
        Ok(Outgoing { peer_id: peer_id.clone(), frame: frame_bytes })
    }

    /// What to say at the start of a control connection.
    fn greeting(&self) -> (bytes: Vec<u8>)
        ensures
            bytes@ == self@.greeting(),
    {
        let mut bytes: Vec<u8> = Vec::new();
        let hello = ControlMessage::Hello { instance_id: self.instance_id.clone() };
        self.write_message(&mut bytes, &hello);
        let ghost first = message_frame(Message::Hello { instance_id: self@.instance_id });
        assert(bytes@ == first);
        assert(hash_views(self.local_torrents@).len() == self.local_torrents@.len());
        if self.local_torrents.len() > 0 {
            let added = ControlMessage::TorrentsAdded {
                info_hashes: copy_hashes(&self.local_torrents),
            };
            self.write_message(&mut bytes, &added);
        }
        bytes
    }

    /// Shuts down: what to say to every connected instance.
    pub fn shutdown(&mut self) -> (out: Vec<Outgoing>)
        requires
            old(self).wf(),
        ensures
            final(self).wf(),
            final(self).finds_as(*old(self)),
            final(self)@ == (CoordinatorView { cancelled: true, ..old(self)@ }),
            is_broadcast(outgoing_views(out@), old(self)@.peers.dom(), Message::Goodbye),
    {
        self.cancelled = true;
        self.broadcast(&ControlMessage::Goodbye)
    }

    // -----------------------------------------------------------------------
    // Torrents
    // -----------------------------------------------------------------------

    /// This instance has the torrent: what to say to every connected instance.
    pub fn announce_torrent(&mut self, info_hash: &[u8; 20]) -> (out: Vec<Outgoing>)
        requires
            old(self).wf(),
        ensures
            final(self).wf(),
            final(self).finds_as(*old(self)),
            final(self)@ == old(self)@.announced(info_hash@),
            is_broadcast(
                outgoing_views(out@),
                old(self)@.peers.dom(),
                Message::TorrentsAdded { info_hashes: seq![info_hash@] },
            ),
    {
        let ghost before = self.local_torrents@;
        self.local_torrents.push(*info_hash);
        assert(hash_views(self.local_torrents@) == hash_views(before).push(info_hash@));
        self.routing.add(info_hash, self.instance_id.clone());
        let mut info_hashes: Vec<[u8; 20]> = Vec::new();
        info_hashes.push(*info_hash);
        assert(hash_views(info_hashes@) == seq![info_hash@]);
        self.broadcast(&ControlMessage::TorrentsAdded { info_hashes })
    }

    /// This instance no longer has the torrent: what to say to every connected
    /// instance.
    pub fn unannounce_torrent(&mut self, info_hash: &[u8; 20]) -> (out: Vec<Outgoing>)
        requires
            old(self).wf(),
        ensures
            final(self).wf(),
            final(self).finds_as(*old(self)),
            final(self)@ == old(self)@.unannounced(info_hash@),
            is_broadcast(
                outgoing_views(out@),
                old(self)@.peers.dom(),
                Message::TorrentsRemoved { info_hashes: seq![info_hash@] },
            ),
    {
        self.local_torrents = without_hash(&self.local_torrents, info_hash);
        self.routing.remove(info_hash, &self.instance_id);
        let mut info_hashes: Vec<[u8; 20]> = Vec::new();
        info_hashes.push(*info_hash);
        assert(hash_views(info_hashes@) == seq![info_hash@]);
        self.broadcast(&ControlMessage::TorrentsRemoved { info_hashes })
    }

    /// Another instance that has the torrent.
    pub fn lookup(&self, info_hash: &[u8; 20]) -> (r: Option<InstanceId>)
        requires
            self.wf(),
        ensures
            named(r) == self.found(info_hash@),
            self@.is_found(info_hash@, r),
    {
        match self.routing.lookup(info_hash) {
            Some(id) => if id != self.instance_id {
                Some(id)
            } else {
                None
            },
            None => None,
        }
    }

    /// What a lookup of the torrent gives; where that is nobody, the question to
    /// every connected instance.
    pub fn who_has(&self, info_hash: &[u8; 20]) -> (r: (Option<InstanceId>, Vec<Outgoing>))
        requires
            self.wf(),
        ensures
            named(r.0) == self.found(info_hash@),
            self@.is_found(info_hash@, r.0),
            match r.0 {
                Some(_) => r.1.len() == 0,
                None => is_broadcast(
                    outgoing_views(r.1@),
                    self@.peers.dom(),
                    Message::WhoHas { info_hash: info_hash@ },
                ),
            },
    {
        if let Some(id) = self.lookup(info_hash) {
            return (Some(id), Vec::new());
        }
        (None, self.broadcast(&ControlMessage::WhoHas { info_hash: *info_hash }))
    }

    // -----------------------------------------------------------------------
    // Control connections
    // -----------------------------------------------------------------------

    /// What to do about the sockets in the directory.
    pub fn discover_peers(&self, entries: &Vec<SocketEntry>) -> (plan: DiscoveryPlan)
        requires
            self.wf(),
        ensures
            plan.is_for(entry_views(entries@), self@.instance_id, self@.peers.dom()),
    {
        plan_discovery(entries, &self.instance_id, &self.peers)
    }

    /// What to write first on a control connection to another instance.
    pub fn connect_greeting(&self) -> (bytes: Vec<u8>)
        ensures
            bytes@ == seq![MODE_CONTROL] + self@.greeting(),
    {
        let mut bytes: Vec<u8> = Vec::new();
        bytes.push(MODE_CONTROL);
        let mut greeting: Vec<u8> = self.greeting();
        bytes.append(&mut greeting);
        bytes
    }

    /// The greeting has been written to the instance at `socket_path`.
    pub fn connect_to_peer(&mut self, peer_id: InstanceId, socket_path: String, sender: S)
        requires
            old(self).wf(),
        ensures
            final(self).wf(),
            final(self).finds_as(*old(self)),
            final(self)@ == old(self)@.connected(peer_id@, (PeerHandle { socket_path, sender })),
    {
        self.peers.insert(peer_id, PeerHandle { socket_path, sender });
    }

    /// Takes the first frame of a control connection from another instance.
    pub fn handle_incoming_control(&self, payload: &[u8]) -> (r: Result<
        IncomingControl,
        CoordinatorError,
    >)
        requires
            self.wf(),
        ensures
            self@.is_incoming_control(payload@, r),
    {
        match probe_decode_control(payload, &self.inbound_codecs) {
            Ok((codec_idx, msg)) => match msg {
                ControlMessage::Hello { instance_id } => {
                    let reply: Vec<u8> = self.greeting();
                    Ok(IncomingControl { peer_id: instance_id, codec_idx, reply })
                },
                _ => Err(CoordinatorError::ExpectedHello),
            },
            Err(e) => {
                proof {
                    if e is Unrecognized {
                        let tried = e->tried;
                        let names = default_chain().map_values(|c: InboundCodec| c.spec_name());
                        assert forall|j: int| 0 <= j < names.len() implies text_views(tried@)[j]
                            == #[trigger] names[j] by {
                            assert(tried[j]@ == default_chain()[j].spec_name());
                        }
                    }
                }
                Err(CoordinatorError::Probe(e))
            },
        }
    }

    /// The greeting has been written to the instance that connected.
    pub fn accept_peer(&mut self, peer_id: InstanceId, sender: S)
        requires
            old(self).wf(),
        ensures
            final(self).wf(),
            final(self).finds_as(*old(self)),
            final(self)@ == old(self)@.connected(peer_id@, final(self)@.peers[peer_id@]),
            final(self)@.peers[peer_id@].socket_path@ == socket_path_in(
                old(self)@.socket_dir,
                peer_id@,
            ),
            final(self)@.peers[peer_id@].sender == sender,
    {
        let socket_path: String = make_socket_path(self.socket_dir.as_str(), &peer_id);
        self.peers.insert(peer_id, PeerHandle { socket_path, sender });
    }

    /// The instance is no longer connected.
    pub fn remove_peer(&mut self, peer_id: &InstanceId)
        requires
            old(self).wf(),
        ensures
            final(self).wf(),
            final(self).finds_as(*old(self)),
            final(self)@ == old(self)@.disconnected(peer_id@),
    {
        if self.peers.remove(peer_id) {
            self.routing.remove_instance(peer_id);
        }
        assert(self@ == old(self)@.disconnected(peer_id@));
    }

    /// Takes a message from a connected instance in; what to answer, if
    /// anything.
    pub fn handle_control_message(&mut self, peer_id: &InstanceId, msg: &ControlMessage) -> (r:
        Result<Option<Outgoing>, CoordinatorError>)
        requires
            old(self).wf(),
        ensures
            final(self).wf(),
            final(self).finds_as(*old(self)),
            final(self)@ == old(self)@.received(peer_id@, msg@),
            old(self)@.is_answer(peer_id@, msg@, r),
    {
        match msg {
            ControlMessage::Hello { .. } => {},
            ControlMessage::TorrentsAdded { info_hashes } => {
                self.routing.add_many(info_hashes, peer_id);
            },
            ControlMessage::TorrentsRemoved { info_hashes } => {
                self.routing.remove_many(info_hashes, peer_id);
            },
            ControlMessage::WhoHas { info_hash } => {
                if contains_hash(&self.local_torrents, info_hash) {
                    return match self.send_to_peer(
                        peer_id,
                        &ControlMessage::IHas { info_hash: *info_hash },
                    ) {
                        Ok(out) => Ok(Some(out)),
                        Err(e) => Err(e),
                    };
                }
            },
            ControlMessage::IHas { info_hash } => {
                self.routing.add(info_hash, peer_id.clone());
            },
            ControlMessage::Goodbye => {
                self.remove_peer(peer_id);
            },
        }
        Ok(None)
    }

    /// Takes what happened on the control connection with an instance that
    /// speaks the codec at `codec_idx` of the chain.
    pub fn peer_reader_step(
        &mut self,
        peer_id: &InstanceId,
        codec_idx: usize,
        event: ReaderEvent,
    ) -> (action: ReaderAction)
        requires
            old(self).wf(),
            codec_idx < default_chain().len(),
        ensures
            final(self).wf(),
            final(self).finds_as(*old(self)),
            old(self)@.is_reader_step(
                peer_id@,
                default_chain()[codec_idx as int],
                event,
                action,
                final(self)@,
            ),
    {
        let reason = match event {
            ReaderEvent::Cancelled => StopReason::Cancelled,
            ReaderEvent::ReadFailed => StopReason::ReadFailed,
            ReaderEvent::Header(len_buf) => match control_frame_len(&len_buf) {
                Ok(len) => {
                    return ReaderAction::ReadBody(len);
                },
                Err(_) => StopReason::InvalidLength(frame_len(&len_buf)),
            },
            ReaderEvent::Body(payload) => match self.inbound_codecs[codec_idx].try_decode_control(
                payload.as_slice(),
            ) {
                Some(Ok(msg)) => {
                    return ReaderAction::ReadHeader(self.handle_control_message(peer_id, &msg));
                },
                Some(Err(e)) => StopReason::Undecodable(e),
                None => StopReason::OtherFormat,
            },
        };
        self.remove_peer(peer_id);
        ReaderAction::Stop(reason)
    }

    // -----------------------------------------------------------------------
    // Forwarding
    // -----------------------------------------------------------------------

    /// Where to forward a stream, of which some bytes have been read, and what
    /// to write there before the rest of it.
    pub fn forward_tcp_stream(
        &self,
        instance_id: &InstanceId,
        peer_addr: PeerAddr,
        handshake_bytes: &[u8],
        extra_bytes: &[u8],
    ) -> (r: Result<ForwardPlan, CoordinatorError>)
        requires
            self.wf(),
        ensures
            if self@.peers.dom().contains(instance_id@) {
                r matches Ok(plan) && plan.socket_path == self@.peers[instance_id@].socket_path
                    && plan.opening@ == seq![MODE_FORWARD_TCP] + frame(
                    forward_bytes(
                        (ForwardMeta {
                            peer_addr: peer_addr@,
                            handshake: handshake_bytes@,
                            extra: extra_bytes@,
                        }),
                    ),
                )
            } else {
                r matches Err(CoordinatorError::NotConnected(id)) && id@ == instance_id@
            },
    {
        let socket_path: String = match self.peers.get(instance_id) {
            Some(peer) => peer.socket_path.clone(),
            None => {
                return Err(CoordinatorError::NotConnected(instance_id.clone()));
            },
        };
        let mut handshake: Vec<u8> = Vec::new();
        handshake.extend_from_slice(handshake_bytes);
        assert(handshake@ == handshake_bytes@);
        let mut extra: Vec<u8> = Vec::new();
        extra.extend_from_slice(extra_bytes);
        assert(extra@ == extra_bytes@);
        let meta = ForwardTcpMeta { peer_addr, handshake, extra };
        let payload: Vec<u8> = self.outbound_codec.encode_forward(&meta);
        let mut opening: Vec<u8> = Vec::new();
        opening.push(MODE_FORWARD_TCP);
        write_payload_frame(&mut opening, payload.as_slice());
        Ok(ForwardPlan { socket_path, opening })
    }

    /// Where to hand a socket over, and what to write there before its
    /// descriptor.
    pub fn forward_tcp_fd(&self, instance_id: &InstanceId, peer_addr: PeerAddr) -> (r: Result<
        ForwardPlan,
        CoordinatorError,
    >)
        requires
            self.wf(),
        ensures
            if self@.peers.dom().contains(instance_id@) {
                r matches Ok(plan) && plan.socket_path == self@.peers[instance_id@].socket_path
                    && plan.opening@ == seq![MODE_FORWARD_TCP_FD] + frame(addr_bytes(peer_addr@))
            } else {
                r matches Err(CoordinatorError::NotConnected(id)) && id@ == instance_id@
            },
    {
        let socket_path: String = match self.peers.get(instance_id) {
            Some(peer) => peer.socket_path.clone(),
            None => {
                return Err(CoordinatorError::NotConnected(instance_id.clone()));
            },
        };
        let meta = ForwardTcpFdMeta { peer_addr };
        let payload: Vec<u8> = self.outbound_codec.encode_forward_fd(&meta);
        let mut opening: Vec<u8> = Vec::new();
        opening.push(MODE_FORWARD_TCP_FD);
        write_payload_frame(&mut opening, payload.as_slice());
        Ok(ForwardPlan { socket_path, opening })
    }

    /// Takes the metadata of a forwarded stream, for which there must be a
    /// handler.
    pub fn handle_incoming_forward(&self, payload: &[u8]) -> (r: Result<
        IncomingForward,
        CoordinatorError,
    >)
        ensures
            match parse_forward(payload@) {
                None => r == Err::<IncomingForward, CoordinatorError>(
                    CoordinatorError::Metadata(FrameError::BadMetadata),
                ),
                Some(meta) => if self@.forward_handler is None {
                    r == Err::<IncomingForward, CoordinatorError>(
                        CoordinatorError::NoForwardHandler,
                    )
                } else {
                    r matches Ok(incoming) && incoming.peer_addr@ == meta.peer_addr
                        && incoming.prefix@ == meta.handshake + meta.extra
                },
            },
    {
        let meta: ForwardTcpMeta = match PostcardCodec.decode_forward(payload) {
            Ok(meta) => meta,
            Err(e) => {
                return Err(CoordinatorError::Metadata(e));
            },
        };
        if self.forward_handler.is_none() {
            return Err(CoordinatorError::NoForwardHandler);
        }
        let mut prefix: Vec<u8> = meta.handshake;
        let ghost handshake = prefix@;
        prefix.extend_from_slice(meta.extra.as_slice());
        assert(prefix@ == handshake + meta.extra@);
        Ok(IncomingForward { peer_addr: meta.peer_addr, prefix })
    }

    /// Takes the metadata of a handed-over socket, whose descriptor comes
    /// behind it.
    pub fn handle_incoming_forward_fd(&self, payload: &[u8]) -> (r: Result<
        PeerAddr,
        CoordinatorError,
    >)
        ensures
            match parse_forward_fd(payload@) {
                None => r == Err::<PeerAddr, CoordinatorError>(
                    CoordinatorError::Metadata(FrameError::BadMetadata),
                ),
                Some(addr) => r matches Ok(peer_addr) && peer_addr@ == addr,
            },
    {
        match PostcardCodec.decode_forward_fd(payload) {
            Ok(meta) => Ok(meta.peer_addr),
            Err(e) => Err(CoordinatorError::Metadata(e)),
        }
    }

    /// Takes the outcome of receiving the descriptor that comes behind the
    /// metadata of a handed-over socket. A failure is one whether or not there
    /// is a handler.
    pub fn handle_received_fd(&self, step: RecvStep, peer_addr: PeerAddr) -> (r: Result<
        FdDelivery,
        CoordinatorError,
    >)
        ensures
            match step {
                RecvStep::Take(fd) => r == Ok::<FdDelivery, CoordinatorError>(
                    if self@.forward_handler is Some {
                        FdDelivery::HandOver { fd, peer_addr }
                    } else {
                        FdDelivery::Drop { fd }
                    },
                ),
                RecvStep::Retry => r == Ok::<FdDelivery, CoordinatorError>(FdDelivery::Retry),
                RecvStep::NoDescriptor => r == Err::<FdDelivery, CoordinatorError>(
                    CoordinatorError::NoDescriptor,
                ),
                RecvStep::Fail(errno) => r == Err::<FdDelivery, CoordinatorError>(
                    CoordinatorError::RecvFailed(errno),
                ),
            },
    {
        match step {
            RecvStep::Take(fd) => if self.forward_handler.is_some() {
                Ok(FdDelivery::HandOver { fd, peer_addr })
            } else {
                Ok(FdDelivery::Drop { fd })
            },
            RecvStep::Retry => Ok(FdDelivery::Retry),
            RecvStep::NoDescriptor => Err(CoordinatorError::NoDescriptor),
            RecvStep::Fail(errno) => Err(CoordinatorError::RecvFailed(errno)),
        }
    }
}

} // verus!
