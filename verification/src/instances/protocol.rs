//! What instances say to each other, and how it is put into bytes.
//!
//! A connection opens with one mode byte. Behind it come frames: a big-endian
//! length of four bytes, then a payload of that length.

use vstd::prelude::*;
use vstd::string::StringExecFns;
use vstd::utf8::encode_utf8;

use crate::instances::wire::{
    byte_string, get_bytes, get_hashes, get_string, get_u16, get_u32, hash_list, hash_views,
    leading_digits, lemma_byte_string_read_back, lemma_hash_list_read_back, lemma_text_read_back,
    lemma_u16_read_back, lemma_u32_read_back, put_bytes, put_hashes, put_str, put_u16, put_u32,
    take_array, take_byte_string, take_hash_list, take_text, take_varint, varint,
};
use crate::text::{decimal, list_names, listed, sentence, text_views, to_decimal};

verus! {

/// The connection carries control messages.
pub const MODE_CONTROL: u8 = 0x01;

/// The connection carries a forwarded TCP stream.
pub const MODE_FORWARD_TCP: u8 = 0x02;

/// The connection hands a TCP socket over by its descriptor.
pub const MODE_FORWARD_TCP_FD: u8 = 0x03;

/// The longest control frame that is read, and the longest metadata of a
/// forwarded connection.
pub const MAX_FRAME_SIZE: usize = 1_048_576;

// ---------------------------------------------------------------------------
// Typed messages (format-agnostic)
// ---------------------------------------------------------------------------

/// A message on a control connection.
#[derive(Debug)]
pub enum ControlMessage {
    Hello { instance_id: String },
    TorrentsAdded { info_hashes: Vec<[u8; 20]> },
    TorrentsRemoved { info_hashes: Vec<[u8; 20]> },
    WhoHas { info_hash: [u8; 20] },
    IHas { info_hash: [u8; 20] },
    Goodbye,
}

/// What a [`ControlMessage`] says.
#[verifier::ext_equal]
pub enum Message {
    Hello { instance_id: Seq<char> },
    TorrentsAdded { info_hashes: Seq<Seq<u8>> },
    TorrentsRemoved { info_hashes: Seq<Seq<u8>> },
    WhoHas { info_hash: Seq<u8> },
    IHas { info_hash: Seq<u8> },
    Goodbye,
}

impl View for ControlMessage {
    type V = Message;

    open spec fn view(&self) -> Message {
        match self {
            ControlMessage::Hello { instance_id } => Message::Hello { instance_id: instance_id@ },
            ControlMessage::TorrentsAdded { info_hashes } => Message::TorrentsAdded {
                info_hashes: hash_views(info_hashes@),
            },
            ControlMessage::TorrentsRemoved { info_hashes } => Message::TorrentsRemoved {
                info_hashes: hash_views(info_hashes@),
            },
            ControlMessage::WhoHas { info_hash } => Message::WhoHas { info_hash: info_hash@ },
            ControlMessage::IHas { info_hash } => Message::IHas { info_hash: info_hash@ },
            ControlMessage::Goodbye => Message::Goodbye,
        }
    }
}

/// Each hash has 20 bytes, and their number fits in the machine's words.
pub open spec fn valid_hashes(hashes: Seq<Seq<u8>>) -> bool {
    &&& hashes.len() <= usize::MAX
    &&& forall|i: int| 0 <= i < hashes.len() ==> (#[trigger] hashes[i]).len() == 20
}

impl Message {
    /// Hashes have 20 bytes, and lengths fit in the machine's words: what
    /// holds of the view of every [`ControlMessage`] that memory can hold.
    pub open spec fn valid(self) -> bool {
        match self {
            Message::Hello { instance_id } => encode_utf8(instance_id).len() <= usize::MAX,
            Message::TorrentsAdded { info_hashes } => valid_hashes(info_hashes),
            Message::TorrentsRemoved { info_hashes } => valid_hashes(info_hashes),
            Message::WhoHas { info_hash } => info_hash.len() == 20,
            Message::IHas { info_hash } => info_hash.len() == 20,
            Message::Goodbye => true,
        }
    }
}

/// The address of a TCP peer.
#[allow(inconsistent_fields)]
#[derive(Clone, Copy, Debug, PartialEq, Eq)]
pub enum PeerAddr {
    V4 { octets: [u8; 4], port: u16 },
    V6 { octets: [u8; 16], port: u16, flowinfo: u32, scope_id: u32 },
}

/// What a [`PeerAddr`] says.
#[verifier::ext_equal]
pub enum Addr {
    V4 { octets: Seq<u8>, port: nat },
    V6 { octets: Seq<u8>, port: nat, flowinfo: nat, scope_id: nat },
}

impl View for PeerAddr {
    type V = Addr;

    open spec fn view(&self) -> Addr {
        match self {
            PeerAddr::V4 { octets, port } => Addr::V4 { octets: octets@, port: *port as nat },
            PeerAddr::V6 { octets, port, flowinfo, scope_id } => Addr::V6 {
                octets: octets@,
                port: *port as nat,
                flowinfo: *flowinfo as nat,
                scope_id: *scope_id as nat,
            },
        }
    }
}

impl Addr {
    /// The octets are as many as the kind of address has, and the port has 16
    /// bits: what holds of the view of every [`PeerAddr`].
    pub open spec fn valid(self) -> bool {
        match self {
            Addr::V4 { octets, port } => octets.len() == 4 && port <= u16::MAX,
            Addr::V6 { octets, port, flowinfo, scope_id } => octets.len() == 16 && port
                <= u16::MAX,
        }
    }

    /// The address as it arrives: without flow label and scope.
    pub open spec fn received(self) -> Addr {
        match self {
            Addr::V4 { octets, port } => self,
            Addr::V6 { octets, port, flowinfo, scope_id } => Addr::V6 {
                octets,
                port,
                flowinfo: 0,
                scope_id: 0,
            },
        }
    }
}

/// Metadata of a forwarded TCP stream, with the bytes already read from it.
#[derive(Debug)]
pub struct ForwardTcpMeta {
    pub peer_addr: PeerAddr,
    pub handshake: Vec<u8>,
    pub extra: Vec<u8>,
}

/// Metadata of a TCP socket handed over by its descriptor.
///
/// Unlike [`ForwardTcpMeta`], this carries no handshake/extra bytes: the sender
/// never consumes them (the BT handshake is peeked, not read), so the receiver
/// reads them fresh from the kernel buffer on the passed fd.
#[derive(Debug)]
pub struct ForwardTcpFdMeta {
    pub peer_addr: PeerAddr,
}

/// What a [`ForwardTcpMeta`] says.
#[verifier::ext_equal]
pub struct ForwardMeta {
    pub peer_addr: Addr,
    pub handshake: Seq<u8>,
    pub extra: Seq<u8>,
}

impl View for ForwardTcpMeta {
    type V = ForwardMeta;

    open spec fn view(&self) -> ForwardMeta {
        ForwardMeta {
            peer_addr: self.peer_addr@,
            handshake: self.handshake@,
            extra: self.extra@,
        }
    }
}

impl View for ForwardTcpFdMeta {
    type V = Addr;

    open spec fn view(&self) -> Addr {
        self.peer_addr@
    }
}

// ---------------------------------------------------------------------------
// The bytes of a message
// ---------------------------------------------------------------------------

/// The payload that says `m`: the number of the message, then its contents.
pub open spec fn message_bytes(m: Message) -> Seq<u8> {
    match m {
        Message::Hello { instance_id } => varint(0) + byte_string(encode_utf8(instance_id)),
        Message::TorrentsAdded { info_hashes } => varint(1) + hash_list(info_hashes),
        Message::TorrentsRemoved { info_hashes } => varint(2) + hash_list(info_hashes),
        Message::WhoHas { info_hash } => varint(3) + info_hash,
        Message::IHas { info_hash } => varint(4) + info_hash,
        Message::Goodbye => varint(5),
    }
}

/// The message that `buf` starts with.
pub open spec fn parse_message(buf: Seq<u8>) -> Option<Message> {
    match take_varint(buf, 32, u32::MAX as nat) {
        Some((number, rest)) => parse_contents(number, rest),
        None => None,
    }
}

/// The message of the given number whose contents `rest` starts with.
pub open spec fn parse_contents(number: nat, rest: Seq<u8>) -> Option<Message> {
    if number == 0 {
        match take_text(rest) {
            Some((instance_id, _)) => Some(Message::Hello { instance_id }),
            None => None,
        }
    } else if number == 1 {
        match take_hash_list(rest) {
            Some((info_hashes, _)) => Some(Message::TorrentsAdded { info_hashes }),
            None => None,
        }
    } else if number == 2 {
        match take_hash_list(rest) {
            Some((info_hashes, _)) => Some(Message::TorrentsRemoved { info_hashes }),
            None => None,
        }
    } else if number == 3 {
        match take_array(rest, 20) {
            Some((info_hash, _)) => Some(Message::WhoHas { info_hash }),
            None => None,
        }
    } else if number == 4 {
        match take_array(rest, 20) {
            Some((info_hash, _)) => Some(Message::IHas { info_hash }),
            None => None,
        }
    } else if number == 5 {
        Some(Message::Goodbye)
    } else {
        None
    }
}

/// The bytes of an address: its kind, its octets, its port. The flow label and
/// the scope of a V6 address are not sent.
pub open spec fn addr_bytes(addr: Addr) -> Seq<u8> {
    match addr {
        Addr::V4 { octets, port } => varint(0) + octets + varint(port),
        Addr::V6 { octets, port, flowinfo, scope_id } => varint(1) + octets + varint(port),
    }
}

/// The octets, `n` of them, and the port that `buf` starts with, and what
/// follows them.
pub open spec fn take_octets_and_port(buf: Seq<u8>, n: int) -> Option<(Seq<u8>, nat, Seq<u8>)> {
    match take_array(buf, n) {
        Some((octets, after_octets)) => match take_varint(after_octets, 16, u16::MAX as nat) {
            Some((port, rest)) => Some((octets, port, rest)),
            None => None,
        },
        None => None,
    }
}

/// The address that `buf` starts with, and what follows it.
pub open spec fn take_addr(buf: Seq<u8>) -> Option<(Addr, Seq<u8>)> {
    match take_varint(buf, 32, u32::MAX as nat) {
        Some((kind, after_kind)) => if kind == 0 {
            match take_octets_and_port(after_kind, 4) {
                Some((octets, port, rest)) => Some((Addr::V4 { octets, port }, rest)),
                None => None,
            }
        } else if kind == 1 {
            match take_octets_and_port(after_kind, 16) {
                Some((octets, port, rest)) => Some(
                    (Addr::V6 { octets, port, flowinfo: 0, scope_id: 0 }, rest),
                ),
                None => None,
            }
        } else {
            None
        },
        None => None,
    }
}

/// The payload of a stream's metadata.
pub open spec fn forward_bytes(meta: ForwardMeta) -> Seq<u8> {
    addr_bytes(meta.peer_addr) + byte_string(meta.handshake) + byte_string(meta.extra)
}

/// The metadata of a forwarded stream that `buf` starts with.
pub open spec fn parse_forward(buf: Seq<u8>) -> Option<ForwardMeta> {
    match take_addr(buf) {
        Some((peer_addr, after_addr)) => match take_byte_string(after_addr) {
            Some((handshake, after_handshake)) => match take_byte_string(after_handshake) {
                Some((extra, _)) => Some(ForwardMeta { peer_addr, handshake, extra }),
                None => None,
            },
            None => None,
        },
        None => None,
    }
}

/// The address that a handed-over socket's metadata `buf` starts with.
pub open spec fn parse_forward_fd(buf: Seq<u8>) -> Option<Addr> {
    match take_addr(buf) {
        Some((peer_addr, _)) => Some(peer_addr),
        None => None,
    }
}

// ---------------------------------------------------------------------------
// Framing (format-agnostic)
// ---------------------------------------------------------------------------

/// The four bytes of `n`, most significant first.
pub open spec fn big_endian(n: nat) -> Seq<u8> {
    seq![
        (n / 0x100_0000 % 256) as u8,
        (n / 0x1_0000 % 256) as u8,
        (n / 0x100 % 256) as u8,
        (n % 256) as u8,
    ]
}

/// The number that four bytes give, most significant first.
pub open spec fn from_big_endian(bytes: Seq<u8>) -> nat {
    (bytes[0] * 0x100_0000 + bytes[1] * 0x1_0000 + bytes[2] * 0x100 + bytes[3]) as nat
}

/// `payload` behind its length, of which 32 bits are written.
pub open spec fn frame(payload: Seq<u8>) -> Seq<u8> {
    big_endian(payload.len() % 0x1_0000_0000) + payload
}

/// Appends `payload` to `buf` as a frame.
pub fn write_payload_frame(buf: &mut Vec<u8>, payload: &[u8])
    ensures
        final(buf)@ == old(buf)@ + frame(payload@),
{
    let len: u32 = ((payload.len() as u64) % 0x1_0000_0000) as u32;
    buf.push((len / 0x100_0000) as u8);
    buf.push((len / 0x1_0000 % 0x100) as u8);
    buf.push((len / 0x100 % 0x100) as u8);
    buf.push((len % 0x100) as u8);
    let ghost header = buf@;
    assert(header == old(buf)@ + big_endian(len as nat));
    buf.extend_from_slice(payload);
    assert(buf@ == header + payload@);
}

/// The payload length that a frame's header announces.
pub fn frame_len(len_buf: &[u8; 4]) -> (len: usize)
    ensures
        len == from_big_endian(len_buf@),
{
    ((len_buf[0] as u32) * 0x100_0000 + (len_buf[1] as u32) * 0x1_0000 + (len_buf[2] as u32)
        * 0x100 + (len_buf[3] as u32)) as usize
}

/// Why bytes from a connection were not taken.
#[derive(Clone, Copy, Debug, PartialEq, Eq, Structural)]
pub enum FrameError {
    /// A control frame is empty or longer than [`MAX_FRAME_SIZE`].
    InvalidLength(usize),
    /// The metadata of a forwarded stream is longer than [`MAX_FRAME_SIZE`].
    ForwardMetadataTooLarge(usize),
    /// The metadata of a handed-over socket is longer than [`MAX_FRAME_SIZE`].
    ForwardFdMetadataTooLarge(usize),
    /// The metadata of a forwarded connection does not decode.
    BadMetadata,
}

impl FrameError {
    /// What to tell the user.
    pub open spec fn text(self) -> Seq<char> {
        match self {
            FrameError::InvalidLength(len) => "invalid first frame length "@ + decimal(len as nat),
            FrameError::ForwardMetadataTooLarge(len) => "forward metadata too large: "@ + decimal(
                len as nat,
            ),
            FrameError::ForwardFdMetadataTooLarge(len) => "forward-fd metadata too large: "@
                + decimal(len as nat),
            FrameError::BadMetadata => "postcard decode error"@,
        }
    }

    /// What to tell the user.
    pub fn message(&self) -> (text: String)
        ensures
            text@ == self.text(),
    {
        match self {
            FrameError::InvalidLength(len) => {
                let mut text: String = "invalid first frame length ".to_owned();
                text.append(to_decimal(*len).as_str());
                text
            },
            FrameError::ForwardMetadataTooLarge(len) => {
                let mut text: String = "forward metadata too large: ".to_owned();
                text.append(to_decimal(*len).as_str());
                text
            },
            FrameError::ForwardFdMetadataTooLarge(len) => {
                let mut text: String = "forward-fd metadata too large: ".to_owned();
                text.append(to_decimal(*len).as_str());
                text
            },
            FrameError::BadMetadata => "postcard decode error".to_owned(),
        }
    }
}

/// The length of a control frame's payload, which is neither empty nor longer
/// than [`MAX_FRAME_SIZE`].
pub fn control_frame_len(len_buf: &[u8; 4]) -> (r: Result<usize, FrameError>)
    ensures
        ({
            let len = from_big_endian(len_buf@);
            if 0 < len <= MAX_FRAME_SIZE {
                r == Ok::<usize, FrameError>(len as usize)
            } else {
                r == Err::<usize, FrameError>(FrameError::InvalidLength(len as usize))
            }
        }),
{
    let len: usize = frame_len(len_buf);
    if len == 0 || len > MAX_FRAME_SIZE {
        return Err(FrameError::InvalidLength(len));
    }
    Ok(len)
}

/// The length of the metadata of a forwarded stream, which is not longer than
/// [`MAX_FRAME_SIZE`].
pub fn forward_metadata_len(len_buf: &[u8; 4]) -> (r: Result<usize, FrameError>)
    ensures
        ({
            let len = from_big_endian(len_buf@);
            if len <= MAX_FRAME_SIZE {
                r == Ok::<usize, FrameError>(len as usize)
            } else {
                r == Err::<usize, FrameError>(FrameError::ForwardMetadataTooLarge(len as usize))
            }
        }),
{
    let len: usize = frame_len(len_buf);
    if len > MAX_FRAME_SIZE {
        return Err(FrameError::ForwardMetadataTooLarge(len));
    }
    Ok(len)
}

/// The length of the metadata of a handed-over socket, which is not longer
/// than [`MAX_FRAME_SIZE`].
pub fn forward_fd_metadata_len(len_buf: &[u8; 4]) -> (r: Result<usize, FrameError>)
    ensures
        ({
            let len = from_big_endian(len_buf@);
            if len <= MAX_FRAME_SIZE {
                r == Ok::<usize, FrameError>(len as usize)
            } else {
                r == Err::<usize, FrameError>(FrameError::ForwardFdMetadataTooLarge(len as usize))
            }
        }),
{
    let len: usize = frame_len(len_buf);
    if len > MAX_FRAME_SIZE {
        return Err(FrameError::ForwardFdMetadataTooLarge(len));
    }
    Ok(len)
}

// ---------------------------------------------------------------------------
// WireCodec trait: each format owns its encode/decode/probe logic
// ---------------------------------------------------------------------------

/// Why a codec that recognized its format did not decode.
#[derive(Clone, Copy, Debug, PartialEq, Eq, Structural)]
pub enum CodecError {
    /// A JSON/varlink control message.
    JsonControl,
    /// JSON/varlink metadata of a forwarded stream.
    JsonForward,
    /// JSON/varlink metadata of a handed-over socket.
    JsonForwardFd,
}

impl CodecError {
    /// What to tell the user.
    pub open spec fn text(self) -> Seq<char> {
        match self {
            CodecError::JsonControl =>
                "JSON/varlink wire format detected but not yet supported. Ensure all rqbit instances use the same build (postcard). Varlink support tracked in rqbit-reuseport-varlink."@,
            CodecError::JsonForward => "JSON/varlink forward metadata not yet supported"@,
            CodecError::JsonForwardFd => "JSON/varlink forward-fd metadata not yet supported"@,
        }
    }

    /// What to tell the user.
    pub fn message(&self) -> (text: &'static str)
        ensures
            text@ == self.text(),
    {
        match self {
            CodecError::JsonControl =>
                "JSON/varlink wire format detected but not yet supported. Ensure all rqbit instances use the same build (postcard). Varlink support tracked in rqbit-reuseport-varlink.",
            CodecError::JsonForward => "JSON/varlink forward metadata not yet supported",
            CodecError::JsonForwardFd => "JSON/varlink forward-fd metadata not yet supported",
        }
    }
}

/// The outcome of trying to decode a `T`.
/// - `None`: bytes don't match this format, try next codec
/// - `Some(Ok(msg))`: successfully decoded
/// - `Some(Err(e))`: format recognized but malformed (don't try others)
pub type Decoded<T> = Option<Result<T, CodecError>>;

/// The outcome `d`, said of what was decoded.
pub open spec fn decoded_view<T: View>(d: Decoded<T>) -> Decoded<T::V> {
    match d {
        None => None,
        Some(Ok(t)) => Some(Ok(t@)),
        Some(Err(e)) => Some(Err(e)),
    }
}

/// A wire format codec that can probe and decode messages.
///
/// Each serialization system (postcard, JSON/varlink, CBOR, ...) implements
/// this trait as a self-contained unit. The coordinator aggregates codecs
/// into a probe chain for inbound detection, and uses a single codec for
/// outbound encoding.
pub trait WireCodec {
    /// The name of the format.
    spec fn spec_name(&self) -> Seq<char>;

    /// What this codec makes of a control message.
    spec fn control(&self, buf: Seq<u8>) -> Decoded<Message>;

    /// What this codec makes of the metadata of a forwarded stream.
    spec fn forward(&self, buf: Seq<u8>) -> Decoded<ForwardMeta>;

    /// What this codec makes of the metadata of a handed-over socket.
    spec fn forward_fd(&self, buf: Seq<u8>) -> Decoded<Addr>;

    /// The name of the format.
    fn name(&self) -> (name: &'static str)
        ensures
            name@ == self.spec_name(),
    ;

    /// Attempt to recognize and decode a control message.
    fn try_decode_control(&self, buf: &[u8]) -> (r: Decoded<ControlMessage>)
        ensures
            decoded_view(r) == self.control(buf@),
    ;

    /// Attempt to recognize and decode the metadata of a forwarded stream.
    fn try_decode_forward(&self, buf: &[u8]) -> (r: Decoded<ForwardTcpMeta>)
        ensures
            decoded_view(r) == self.forward(buf@),
    ;

    /// Attempt to recognize and decode the metadata of a handed-over socket.
    fn try_decode_forward_fd(&self, buf: &[u8]) -> (r: Decoded<ForwardTcpFdMeta>)
        ensures
            decoded_view(r) == self.forward_fd(buf@),
    ;
}

// ---------------------------------------------------------------------------
// Postcard codec (the real implementation)
// ---------------------------------------------------------------------------

/// The codec of the postcard format.
#[derive(Clone, Copy, Debug)]
pub struct PostcardCodec;

/// The first `N` bytes of `buf`, and the rest.
fn split_array<const N: usize>(buf: &[u8]) -> (r: Option<([u8; N], &[u8])>)
    ensures
        match take_array(buf@, N as int) {
            Some((bytes, rest)) => r matches Some((array, left)) && array@ == bytes && left@
                == rest,
            None => r is None,
        },
{
    if buf.len() < N {
        return None;
    }
    let (head, rest) = buf.split_at(N);
    let mut array: [u8; N] = [0u8;N];
    for i in 0..N
        invariant
            head@.len() == N,
            forall|j: int| 0 <= j < i ==> array@[j] == head@[j],
    {
        array[i] = head[i];
    }
    assert(array@ == head@);
    Some((array, rest))
}

impl PostcardCodec {
    /// Decodes the contents of the message of the given number.
    fn decode_contents(number: u32, rest: &[u8]) -> (r: Option<ControlMessage>)
        ensures
            match parse_contents(number as nat, rest@) {
                Some(m) => r matches Some(msg) && msg@ == m,
                None => r is None,
            },
    {
        if number == 0 {
            match get_string(rest) {
                Ok((instance_id, _)) => Some(ControlMessage::Hello { instance_id }),
                Err(_) => None,
            }
        } else if number == 1 {
            match get_hashes(rest) {
                Ok((info_hashes, _)) => Some(ControlMessage::TorrentsAdded { info_hashes }),
                Err(_) => None,
            }
        } else if number == 2 {
            match get_hashes(rest) {
                Ok((info_hashes, _)) => Some(ControlMessage::TorrentsRemoved { info_hashes }),
                Err(_) => None,
            }
        } else if number == 3 {
            match split_array::<20>(rest) {
                Some((info_hash, _)) => Some(ControlMessage::WhoHas { info_hash }),
                None => None,
            }
        } else if number == 4 {
            match split_array::<20>(rest) {
                Some((info_hash, _)) => Some(ControlMessage::IHas { info_hash }),
                None => None,
            }
        } else if number == 5 {
            Some(ControlMessage::Goodbye)
        } else {
            None
        }
    }

    /// The payload that says `msg`.
    pub fn encode_control(&self, msg: &ControlMessage) -> (payload: Vec<u8>)
        ensures
            payload@ == message_bytes(msg@),
    {
        match msg {
            ControlMessage::Hello { instance_id } => {
                let mut payload: Vec<u8> = put_u32(0);
                let mut contents: Vec<u8> = put_str(instance_id.as_str());
                payload.append(&mut contents);
                payload
            },
            ControlMessage::TorrentsAdded { info_hashes } => {
                let mut payload: Vec<u8> = put_u32(1);
                let mut contents: Vec<u8> = put_hashes(info_hashes.as_slice());
                payload.append(&mut contents);
                payload
            },
            ControlMessage::TorrentsRemoved { info_hashes } => {
                let mut payload: Vec<u8> = put_u32(2);
                let mut contents: Vec<u8> = put_hashes(info_hashes.as_slice());
                payload.append(&mut contents);
                payload
            },
            ControlMessage::WhoHas { info_hash } => {
                let mut payload: Vec<u8> = put_u32(3);
                let ghost number = payload@;
                payload.extend_from_slice(info_hash.as_slice());
                assert(payload@ == number + info_hash@);
                payload
            },
            ControlMessage::IHas { info_hash } => {
                let mut payload: Vec<u8> = put_u32(4);
                let ghost number = payload@;
                payload.extend_from_slice(info_hash.as_slice());
                assert(payload@ == number + info_hash@);
                payload
            },
            ControlMessage::Goodbye => put_u32(5),
        }
    }

    /// The bytes of an address.
    fn encode_addr(addr: &PeerAddr) -> (bytes: Vec<u8>)
        ensures
            bytes@ == addr_bytes(addr@),
    {
        match addr {
            PeerAddr::V4 { octets, port } => {
                let mut bytes: Vec<u8> = put_u32(0);
                let ghost kind = bytes@;
                bytes.extend_from_slice(octets.as_slice());
                assert(bytes@ == kind + octets@);
                let mut tail: Vec<u8> = put_u16(*port);
                bytes.append(&mut tail);
                bytes
            },
            PeerAddr::V6 { octets, port, .. } => {
                let mut bytes: Vec<u8> = put_u32(1);
                let ghost kind = bytes@;
                bytes.extend_from_slice(octets.as_slice());
                assert(bytes@ == kind + octets@);
                let mut tail: Vec<u8> = put_u16(*port);
                bytes.append(&mut tail);
                bytes
            },
        }
    }

    /// The address that `buf` starts with, and the rest.
    fn decode_addr(buf: &[u8]) -> (r: Option<(PeerAddr, &[u8])>)
        ensures
            match take_addr(buf@) {
                Some((addr, rest)) => r matches Some((a, left)) && a@ == addr && left@ == rest,
                None => r is None,
            },
    {
        let (kind, after_kind) = match get_u32(buf) {
            Ok(taken) => taken,
            Err(_) => {
                return None;
            },
        };
        if kind == 0 {
            let (octets, after_octets) = match split_array::<4>(after_kind) {
                Some(taken) => taken,
                None => {
                    return None;
                },
            };
            match get_u16(after_octets) {
                Ok((port, rest)) => Some((PeerAddr::V4 { octets, port }, rest)),
                Err(_) => None,
            }
        } else if kind == 1 {
            let (octets, after_octets) = match split_array::<16>(after_kind) {
                Some(taken) => taken,
                None => {
                    return None;
                },
            };
            match get_u16(after_octets) {
                Ok((port, rest)) => Some(
                    (PeerAddr::V6 { octets, port, flowinfo: 0, scope_id: 0 }, rest),
                ),
                Err(_) => None,
            }
        } else {
            None
        }
    }

    /// The payload of a forwarded stream's metadata.
    pub fn encode_forward(&self, meta: &ForwardTcpMeta) -> (payload: Vec<u8>)
        ensures
            payload@ == forward_bytes(meta@),
    {
        let mut payload: Vec<u8> = Self::encode_addr(&meta.peer_addr);
        let mut handshake: Vec<u8> = put_bytes(meta.handshake.as_slice());
        payload.append(&mut handshake);
        let mut extra: Vec<u8> = put_bytes(meta.extra.as_slice());
        payload.append(&mut extra);
        payload
    }

    /// The payload of a handed-over socket's metadata.
    pub fn encode_forward_fd(&self, meta: &ForwardTcpFdMeta) -> (payload: Vec<u8>)
        ensures
            payload@ == addr_bytes(meta@),
    {
        Self::encode_addr(&meta.peer_addr)
    }

    /// Decodes the metadata of a forwarded stream.
    pub fn decode_forward(&self, buf: &[u8]) -> (r: Result<ForwardTcpMeta, FrameError>)
        ensures
            match parse_forward(buf@) {
                Some(m) => r matches Ok(meta) && meta@ == m,
                None => r == Err::<ForwardTcpMeta, FrameError>(FrameError::BadMetadata),
            },
    {
        let (peer_addr, after_addr) = match Self::decode_addr(buf) {
            Some(taken) => taken,
            None => {
                return Err(FrameError::BadMetadata);
            },
        };
        let (handshake, after_handshake) = match get_bytes(after_addr) {
            Ok(taken) => taken,
            Err(_) => {
                return Err(FrameError::BadMetadata);
            },
        };
        match get_bytes(after_handshake) {
            Ok((extra, _)) => Ok(ForwardTcpMeta { peer_addr, handshake, extra }),
            Err(_) => Err(FrameError::BadMetadata),
        }
    }

    /// Decodes the metadata of a handed-over socket.
    pub fn decode_forward_fd(&self, buf: &[u8]) -> (r: Result<ForwardTcpFdMeta, FrameError>)
        ensures
            match parse_forward_fd(buf@) {
                Some(a) => r matches Ok(meta) && meta@ == a,
                None => r == Err::<ForwardTcpFdMeta, FrameError>(FrameError::BadMetadata),
            },
    {
        match Self::decode_addr(buf) {
            Some((peer_addr, _)) => Ok(ForwardTcpFdMeta { peer_addr }),
            None => Err(FrameError::BadMetadata),
        }
    }
}

impl WireCodec for PostcardCodec {
    open spec fn spec_name(&self) -> Seq<char> {
        "postcard"@
    }

    open spec fn control(&self, buf: Seq<u8>) -> Decoded<Message> {
        match parse_message(buf) {
            Some(m) => Some(Ok(m)),
            None => None,
        }
    }

    open spec fn forward(&self, buf: Seq<u8>) -> Decoded<ForwardMeta> {
        match parse_forward(buf) {
            Some(m) => Some(Ok(m)),
            None => None,
        }
    }

    open spec fn forward_fd(&self, buf: Seq<u8>) -> Decoded<Addr> {
        match parse_forward_fd(buf) {
            Some(a) => Some(Ok(a)),
            None => None,
        }
    }

    fn name(&self) -> (name: &'static str) {
        "postcard"
    }

    fn try_decode_control(&self, buf: &[u8]) -> (r: Decoded<ControlMessage>) {
        match get_u32(buf) {
            Ok((number, rest)) => match Self::decode_contents(number, rest) {
                Some(msg) => Some(Ok(msg)),
                None => None,
            },
            Err(_) => None,
        }
    }

    fn try_decode_forward(&self, buf: &[u8]) -> (r: Decoded<ForwardTcpMeta>) {
        match self.decode_forward(buf) {
            Ok(meta) => Some(Ok(meta)),
            Err(_) => None,
        }
    }

    fn try_decode_forward_fd(&self, buf: &[u8]) -> (r: Decoded<ForwardTcpFdMeta>) {
        match self.decode_forward_fd(buf) {
            Ok(meta) => Some(Ok(meta)),
            Err(_) => None,
        }
    }
}

// ---------------------------------------------------------------------------
// JSON/varlink probe (detects, bails with actionable message)
// ---------------------------------------------------------------------------

/// Recognizes JSON/varlink by its opening brace, and decodes nothing.
#[derive(Clone, Copy, Debug)]
pub struct JsonProbeCodec;

/// Whether `buf` opens with a brace.
pub open spec fn looks_like_json(buf: Seq<u8>) -> bool {
    buf.len() > 0 && buf[0] == 0x7b
}

impl JsonProbeCodec {
    /// Whether `buf` opens with a brace.
    fn recognizes(buf: &[u8]) -> (r: bool)
        ensures
            r == looks_like_json(buf@),
    {
        buf.len() > 0 && buf[0] == 0x7b
    }
}

impl WireCodec for JsonProbeCodec {
    open spec fn spec_name(&self) -> Seq<char> {
        "json/varlink"@
    }

    open spec fn control(&self, buf: Seq<u8>) -> Decoded<Message> {
        if looks_like_json(buf) {
            Some(Err(CodecError::JsonControl))
        } else {
            None
        }
    }

    open spec fn forward(&self, buf: Seq<u8>) -> Decoded<ForwardMeta> {
        if looks_like_json(buf) {
            Some(Err(CodecError::JsonForward))
        } else {
            None
        }
    }

    open spec fn forward_fd(&self, buf: Seq<u8>) -> Decoded<Addr> {
        if looks_like_json(buf) {
            Some(Err(CodecError::JsonForwardFd))
        } else {
            None
        }
    }

    fn name(&self) -> (name: &'static str) {
        "json/varlink"
    }

    fn try_decode_control(&self, buf: &[u8]) -> (r: Decoded<ControlMessage>) {
        if Self::recognizes(buf) {
            Some(Err(CodecError::JsonControl))
        } else {
            None
        }
    }

    fn try_decode_forward(&self, buf: &[u8]) -> (r: Decoded<ForwardTcpMeta>) {
        if Self::recognizes(buf) {
            Some(Err(CodecError::JsonForward))
        } else {
            None
        }
    }

    fn try_decode_forward_fd(&self, buf: &[u8]) -> (r: Decoded<ForwardTcpFdMeta>) {
        if Self::recognizes(buf) {
            Some(Err(CodecError::JsonForwardFd))
        } else {
            None
        }
    }
}

// ---------------------------------------------------------------------------
// Codec chain construction + probing
// ---------------------------------------------------------------------------

/// A codec of the inbound chain.
#[derive(Clone, Copy, Debug)]
pub enum InboundCodec {
    Postcard(PostcardCodec),
    JsonProbe(JsonProbeCodec),
}

impl WireCodec for InboundCodec {
    open spec fn spec_name(&self) -> Seq<char> {
        match self {
            InboundCodec::Postcard(c) => c.spec_name(),
            InboundCodec::JsonProbe(c) => c.spec_name(),
        }
    }

    open spec fn control(&self, buf: Seq<u8>) -> Decoded<Message> {
        match self {
            InboundCodec::Postcard(c) => c.control(buf),
            InboundCodec::JsonProbe(c) => c.control(buf),
        }
    }

    open spec fn forward(&self, buf: Seq<u8>) -> Decoded<ForwardMeta> {
        match self {
            InboundCodec::Postcard(c) => c.forward(buf),
            InboundCodec::JsonProbe(c) => c.forward(buf),
        }
    }

    open spec fn forward_fd(&self, buf: Seq<u8>) -> Decoded<Addr> {
        match self {
            InboundCodec::Postcard(c) => c.forward_fd(buf),
            InboundCodec::JsonProbe(c) => c.forward_fd(buf),
        }
    }

    fn name(&self) -> (name: &'static str) {
        match self {
            InboundCodec::Postcard(c) => c.name(),
            InboundCodec::JsonProbe(c) => c.name(),
        }
    }

    fn try_decode_control(&self, buf: &[u8]) -> (r: Decoded<ControlMessage>) {
        match self {
            InboundCodec::Postcard(c) => c.try_decode_control(buf),
            InboundCodec::JsonProbe(c) => c.try_decode_control(buf),
        }
    }

    fn try_decode_forward(&self, buf: &[u8]) -> (r: Decoded<ForwardTcpMeta>) {
        match self {
            InboundCodec::Postcard(c) => c.try_decode_forward(buf),
            InboundCodec::JsonProbe(c) => c.try_decode_forward(buf),
        }
    }

    fn try_decode_forward_fd(&self, buf: &[u8]) -> (r: Decoded<ForwardTcpFdMeta>) {
        match self {
            InboundCodec::Postcard(c) => c.try_decode_forward_fd(buf),
            InboundCodec::JsonProbe(c) => c.try_decode_forward_fd(buf),
        }
    }
}

/// The default chain.
pub open spec fn default_chain() -> Seq<InboundCodec> {
    seq![InboundCodec::Postcard(PostcardCodec), InboundCodec::JsonProbe(JsonProbeCodec)]
}

/// Codecs tried in order for inbound message detection.
pub fn default_inbound_codecs() -> (codecs: Vec<InboundCodec>)
    ensures
        codecs@ == default_chain(),
{
    let mut codecs: Vec<InboundCodec> = Vec::new();
    codecs.push(InboundCodec::Postcard(PostcardCodec));
    codecs.push(InboundCodec::JsonProbe(JsonProbeCodec));
    codecs
}

/// Codec used for outbound encoding.
pub fn default_outbound_codec() -> (codec: PostcardCodec)
    ensures
        codec == PostcardCodec,
{
    PostcardCodec
}

/// Why no codec of a chain decoded a message.
#[derive(Debug)]
pub enum ProbeError {
    /// A codec recognized its format.
    Codec(CodecError),
    /// No codec recognized the bytes; the formats that were tried.
    Unrecognized { tried: Vec<String> },
}

impl ProbeError {
    /// What to tell the user.
    pub open spec fn text(self) -> Seq<char> {
        match self {
            ProbeError::Codec(e) => e.text(),
            ProbeError::Unrecognized { tried } => "unrecognized wire format (tried: "@ + listed(
                text_views(tried@),
            ) + ")"@,
        }
    }

    /// What to tell the user.
    pub fn message(&self) -> (text: String)
        ensures
            text@ == self.text(),
    {
        match self {
            ProbeError::Codec(e) => e.message().to_owned(),
            ProbeError::Unrecognized { tried } => sentence(
                "unrecognized wire format (tried: ",
                list_names(tried).as_str(),
                ")",
            ),
        }
    }
}

/// The position of the first codec that recognizes `buf`; the length of the
/// chain if none does.
pub open spec fn recognizing_codec<C: WireCodec>(codecs: Seq<C>, buf: Seq<u8>) -> int
    decreases codecs.len(),
{
    if codecs.len() == 0 {
        0
    } else if codecs[0].control(buf) is Some {
        0
    } else {
        1 + recognizing_codec(codecs.skip(1), buf)
    }
}

/// Try each codec in order; first successful decode wins.
pub fn probe_decode_control<C: WireCodec>(buf: &[u8], codecs: &Vec<C>) -> (r: Result<
    (usize, ControlMessage),
    ProbeError,
>)
    ensures
        ({
            let i = recognizing_codec(codecs@, buf@);
            if i < codecs.len() {
                match codecs[i].control(buf@) {
                    Some(Ok(m)) => r matches Ok((index, msg)) && index == i && msg@ == m,
                    Some(Err(e)) => r == Err::<(usize, ControlMessage), ProbeError>(
                        ProbeError::Codec(e),
                    ),
                    None => false,
                }
            } else {
                r matches Err(ProbeError::Unrecognized { tried }) && tried.len() == codecs.len()
                    && forall|j: int|
                    0 <= j < codecs.len() ==> (#[trigger] tried[j])@ == codecs[j].spec_name()
            }
        }),
{
    let n: usize = codecs.len();
    assert(codecs@.skip(0) == codecs@);
    for i in 0..n
        invariant
            n == codecs.len(),
            recognizing_codec(codecs@, buf@) == i + recognizing_codec(codecs@.skip(i as int), buf@),
    {
        assert(codecs@.skip(i as int)[0] == codecs[i as int]);
        assert(codecs@.skip(i as int).skip(1) == codecs@.skip(i + 1));
        match codecs[i].try_decode_control(buf) {
            Some(Ok(msg)) => {
                return Ok((i, msg));
            },
            Some(Err(e)) => {
                return Err(ProbeError::Codec(e));
            },
            None => {},
        }
    }
    let mut tried: Vec<String> = Vec::new();
    for i in 0..n
        invariant
            n == codecs.len(),
            tried.len() == i,
            forall|j: int| 0 <= j < i ==> (#[trigger] tried[j])@ == codecs[j].spec_name(),
    {
        tried.push(codecs[i].name().to_owned());
    }
    Err(ProbeError::Unrecognized { tried })
}

// ---------------------------------------------------------------------------
// What the two ends of a connection can rely on
// ---------------------------------------------------------------------------

/// A frame's header announces the payload that follows it, unless the payload
/// is too long for four bytes to say so.
pub proof fn law_frame_announces_payload(payload: Seq<u8>)
    requires
        payload.len() < 0x1_0000_0000,
    ensures
        frame(payload).len() == 4 + payload.len(),
        from_big_endian(frame(payload).take(4)) == payload.len(),
        frame(payload).skip(4) == payload,
{
    let n = payload.len();
    assert(frame(payload).take(4) == big_endian(n));
    assert(frame(payload).skip(4) == payload);
    assert(n == n / 0x100_0000 % 256 * 0x100_0000 + n / 0x1_0000 % 256 * 0x1_0000 + n / 0x100 % 256
        * 0x100 + n % 256);
}

/// Decoding an encoded message gives the message back, whatever follows it.
pub proof fn law_message_round_trip(m: Message, trailing: Seq<u8>)
    requires
        m.valid(),
    ensures
        parse_message(message_bytes(m) + trailing) == Some(m),
{
    match m {
        Message::Hello { instance_id } => {
            let contents = byte_string(encode_utf8(instance_id));
            assert(message_bytes(m) + trailing == varint(0) + (contents + trailing));
            lemma_u32_read_back(0, contents + trailing);
            lemma_text_read_back(instance_id, trailing);
        },
        Message::TorrentsAdded { info_hashes } => {
            let contents = hash_list(info_hashes);
            assert(message_bytes(m) + trailing == varint(1) + (contents + trailing));
            lemma_u32_read_back(1, contents + trailing);
            lemma_hash_list_read_back(info_hashes, trailing);
        },
        Message::TorrentsRemoved { info_hashes } => {
            let contents = hash_list(info_hashes);
            assert(message_bytes(m) + trailing == varint(2) + (contents + trailing));
            lemma_u32_read_back(2, contents + trailing);
            lemma_hash_list_read_back(info_hashes, trailing);
        },
        Message::WhoHas { info_hash } => {
            assert(message_bytes(m) + trailing == varint(3) + (info_hash + trailing));
            lemma_u32_read_back(3, info_hash + trailing);
            assert((info_hash + trailing).take(20) == info_hash);
        },
        Message::IHas { info_hash } => {
            assert(message_bytes(m) + trailing == varint(4) + (info_hash + trailing));
            lemma_u32_read_back(4, info_hash + trailing);
            assert((info_hash + trailing).take(20) == info_hash);
        },
        Message::Goodbye => {
            lemma_u32_read_back(5, trailing);
        },
    }
}

/// Every message is one that decoding gives back, but for a text longer than
/// memory can hold.
pub proof fn law_control_messages_are_valid(msg: ControlMessage)
    requires
        msg matches ControlMessage::Hello { instance_id } ==> encode_utf8(instance_id@).len()
            <= usize::MAX,
    ensures
        msg@.valid(),
{
    match msg {
        ControlMessage::TorrentsAdded { info_hashes } => {
            lemma_hash_views_valid(info_hashes);
        },
        ControlMessage::TorrentsRemoved { info_hashes } => {
            lemma_hash_views_valid(info_hashes);
        },
        _ => {},
    }
}

/// A vector of hashes has views of 20 bytes, as many as fit in memory.
pub proof fn lemma_hash_views_valid(v: Vec<[u8; 20]>)
    ensures
        valid_hashes(hash_views(v@)),
{
    assert(v@.len() == v.len());
    assert forall|i: int| 0 <= i < hash_views(v@).len() implies (#[trigger] hash_views(
        v@,
    )[i]).len() == 20 by {
        assert(hash_views(v@)[i] == v@[i]@);
    }
}

/// Reading a written address gives it back without its flow label and scope.
proof fn lemma_addr_read_back(addr: Addr, trailing: Seq<u8>)
    requires
        addr.valid(),
    ensures
        take_addr(addr_bytes(addr) + trailing) == Some((addr.received(), trailing)),
{
    match addr {
        Addr::V4 { octets, port } => {
            lemma_octets_and_port_read_back(0, octets, port, trailing);
        },
        Addr::V6 { octets, port, flowinfo, scope_id } => {
            lemma_octets_and_port_read_back(1, octets, port, trailing);
        },
    }
}

/// Reading written octets and their port behind the kind of address gives
/// them back.
proof fn lemma_octets_and_port_read_back(
    kind: nat,
    octets: Seq<u8>,
    port: nat,
    trailing: Seq<u8>,
)
    requires
        kind <= u32::MAX,
        port <= u16::MAX,
    ensures
        take_varint(varint(kind) + octets + varint(port) + trailing, 32, u32::MAX as nat) == Some(
            (kind, octets + varint(port) + trailing),
        ),
        take_octets_and_port(octets + varint(port) + trailing, octets.len() as int) == Some(
            (octets, port, trailing),
        ),
{
    let n = octets.len() as int;
    let tail = octets + varint(port) + trailing;
    assert(varint(kind) + octets + varint(port) + trailing == varint(kind) + tail);
    lemma_u32_read_back(kind, tail);
    assert(tail.take(n) == octets);
    assert(tail.skip(n) == varint(port) + trailing);
    lemma_u16_read_back(port, trailing);
}

/// Decoding the encoded metadata of a forwarded stream gives it back, whatever
/// follows it; only the flow label and the scope of a V6 address are lost.
pub proof fn law_forward_round_trip(meta: ForwardMeta, trailing: Seq<u8>)
    requires
        meta.peer_addr.valid(),
        meta.handshake.len() <= usize::MAX,
        meta.extra.len() <= usize::MAX,
    ensures
        parse_forward(forward_bytes(meta) + trailing) == Some(
            ForwardMeta {
                peer_addr: meta.peer_addr.received(),
                handshake: meta.handshake,
                extra: meta.extra,
            },
        ),
{
    let after_handshake = byte_string(meta.extra) + trailing;
    let after_addr = byte_string(meta.handshake) + after_handshake;
    assert(forward_bytes(meta) + trailing == addr_bytes(meta.peer_addr) + after_addr);
    lemma_addr_read_back(meta.peer_addr, after_addr);
    lemma_byte_string_read_back(meta.handshake, after_handshake);
    lemma_byte_string_read_back(meta.extra, trailing);
}

/// Decoding the encoded metadata of a handed-over socket gives it back,
/// whatever follows it; only the flow label and the scope of a V6 address are
/// lost.
pub proof fn law_forward_fd_round_trip(addr: Addr, trailing: Seq<u8>)
    requires
        addr.valid(),
    ensures
        parse_forward_fd(addr_bytes(addr) + trailing) == Some(addr.received()),
{
    lemma_addr_read_back(addr, trailing);
}

/// A message that was sent is recognized by the first codec of the default
/// chain, as the message it is.
pub proof fn law_sent_messages_are_recognized(m: Message)
    requires
        m.valid(),
    ensures
        recognizing_codec(default_chain(), message_bytes(m)) == 0,
        default_chain()[0].control(message_bytes(m)) == Some(Ok::<Message, CodecError>(m)),
{
    law_message_round_trip(m, seq![]);
    assert(message_bytes(m) + seq![] == message_bytes(m));
}

/// Bytes that open with a brace are never taken for a postcard message: the
/// default chain reports them as JSON/varlink.
pub proof fn law_json_is_reported(buf: Seq<u8>)
    requires
        looks_like_json(buf),
    ensures
        recognizing_codec(default_chain(), buf) == 1,
        default_chain()[1].control(buf) == Some(
            Err::<Message, CodecError>(CodecError::JsonControl),
        ),
{
    reveal_with_fuel(leading_digits, 1);
    assert(take_varint(buf, 32, u32::MAX as nat) == Some((0x7bnat, buf.skip(1))));
    assert(default_chain().skip(1)[0] == default_chain()[1]);
    reveal_with_fuel(recognizing_codec, 3);
}

// ---------------------------------------------------------------------------
// The format, part by part
// ---------------------------------------------------------------------------

/// The four bytes of a length, the most significant first.
pub proof fn law_length_bytes(n: nat, a: u8, b: u8, c: u8, d: u8)
    requires
        n < 0x1_0000_0000,
    ensures
        from_big_endian(seq![a, b, c, d]) == 16_777_216 * a + 65_536 * b + 256 * c + d,
        big_endian(n).len() == 4,
        big_endian(n)[0] == n / 16_777_216,
        big_endian(n)[1] == n / 65_536 % 256,
        big_endian(n)[2] == n / 256 % 256,
        big_endian(n)[3] == n % 256,
        from_big_endian(big_endian(n)) == n,
{
    let bytes = seq![a, b, c, d];
    assert(bytes[0] == a && bytes[1] == b && bytes[2] == c && bytes[3] == d);
    assert(n == n / 0x100_0000 % 256 * 0x100_0000 + n / 0x1_0000 % 256 * 0x1_0000 + n / 0x100 % 256
        * 0x100 + n % 256);
}

/// A frame is the length of its payload, as far as four bytes say it, and the
/// payload.
pub proof fn law_frame_is_length_and_payload(payload: Seq<u8>)
    ensures
        frame(payload) == big_endian(payload.len() % 4_294_967_296) + payload,
{
}

/// Each message starts with the byte that tells its kind, and then has its
/// contents as they are encoded.
pub proof fn law_kinds_of_messages(m: Message)
    ensures
        m matches Message::Hello { instance_id } ==> message_bytes(m) == seq![0u8] + byte_string(
            encode_utf8(instance_id),
        ),
        m matches Message::TorrentsAdded { info_hashes } ==> message_bytes(m) == seq![1u8]
            + hash_list(info_hashes),
        m matches Message::TorrentsRemoved { info_hashes } ==> message_bytes(m) == seq![2u8]
            + hash_list(info_hashes),
        m matches Message::WhoHas { info_hash } ==> message_bytes(m) == seq![3u8] + info_hash,
        m matches Message::IHas { info_hash } ==> message_bytes(m) == seq![4u8] + info_hash,
        m is Goodbye ==> message_bytes(m) == seq![5u8],
{
}

/// What is read of a payload is told by the number that it starts with: a
/// message of one of six kinds, with the contents that follow, if they are
/// there in full. Anything else is no message.
pub proof fn law_messages_are_read_by_kind(buf: Seq<u8>)
    ensures
        match take_varint(buf, 32, u32::MAX as nat) {
            None => parse_message(buf) is None,
            Some((number, rest)) => {
                &&& number == 0 ==> match take_text(rest) {
                    Some((text, _)) => parse_message(buf) == Some(
                        Message::Hello { instance_id: text },
                    ),
                    None => parse_message(buf) is None,
                }
                &&& number == 1 ==> match take_hash_list(rest) {
                    Some((hashes, _)) => parse_message(buf) == Some(
                        Message::TorrentsAdded { info_hashes: hashes },
                    ),
                    None => parse_message(buf) is None,
                }
                &&& number == 2 ==> match take_hash_list(rest) {
                    Some((hashes, _)) => parse_message(buf) == Some(
                        Message::TorrentsRemoved { info_hashes: hashes },
                    ),
                    None => parse_message(buf) is None,
                }
                &&& number == 3 ==> if rest.len() >= 20 {
                    parse_message(buf) == Some(Message::WhoHas { info_hash: rest.subrange(0, 20) })
                } else {
                    parse_message(buf) is None
                }
                &&& number == 4 ==> if rest.len() >= 20 {
                    parse_message(buf) == Some(Message::IHas { info_hash: rest.subrange(0, 20) })
                } else {
                    parse_message(buf) is None
                }
                &&& number == 5 ==> parse_message(buf) == Some(Message::Goodbye)
                &&& number > 5 ==> parse_message(buf) is None
            },
        },
{
    if let Some((number, rest)) = take_varint(buf, 32, u32::MAX as nat) {
        if rest.len() >= 20 {
            assert(rest.take(20) =~= rest.subrange(0, 20));
        }
    }
}

/// An address is the byte that tells its kind, its octets and its port; the
/// metadata of a stream is the address, what was read as the handshake, and
/// what was read behind it.
pub proof fn law_parts_of_metadata(meta: ForwardMeta, octets: Seq<u8>, port: nat, flow: nat, scope: nat)
    ensures
        addr_bytes(Addr::V4 { octets, port }) == seq![0u8] + octets + varint(port),
        addr_bytes(Addr::V6 { octets, port, flowinfo: flow, scope_id: scope }) == seq![1u8] + octets
            + varint(port),
        forward_bytes(meta) == addr_bytes(meta.peer_addr) + byte_string(meta.handshake)
            + byte_string(meta.extra),
        (Addr::V4 { octets, port }).received() == (Addr::V4 { octets, port }),
        (Addr::V6 { octets, port, flowinfo: flow, scope_id: scope }).received() == (Addr::V6 {
            octets,
            port,
            flowinfo: 0,
            scope_id: 0,
        }),
{
}

/// Metadata is read part by part, and not at all where a part is missing.
pub proof fn law_metadata_is_read_in_order(buf: Seq<u8>)
    ensures
        match take_varint(buf, 32, u32::MAX as nat) {
            None => take_addr(buf) is None,
            Some((kind, rest)) => {
                let n = if kind == 0 {
                    4
                } else {
                    16int
                };
                &&& kind > 1 ==> take_addr(buf) is None
                &&& kind <= 1 && rest.len() < n ==> take_addr(buf) is None
                &&& kind <= 1 && rest.len() >= n ==> match take_varint(
                    rest.subrange(n, rest.len() as int),
                    16,
                    u16::MAX as nat,
                ) {
                    None => take_addr(buf) is None,
                    Some((port, left)) => take_addr(buf) == Some(
                        (
                            if kind == 0 {
                                Addr::V4 { octets: rest.subrange(0, 4), port }
                            } else {
                                Addr::V6 {
                                    octets: rest.subrange(0, 16),
                                    port,
                                    flowinfo: 0,
                                    scope_id: 0,
                                }
                            },
                            left,
                        ),
                    ),
                }
            },
        },
        match take_addr(buf) {
            None => parse_forward(buf) is None && parse_forward_fd(buf) is None,
            Some((addr, rest)) => {
                &&& parse_forward_fd(buf) == Some(addr)
                &&& match take_byte_string(rest) {
                    None => parse_forward(buf) is None,
                    Some((handshake, left)) => match take_byte_string(left) {
                        None => parse_forward(buf) is None,
                        Some((extra, _)) => parse_forward(buf) == Some(
                            ForwardMeta { peer_addr: addr, handshake, extra },
                        ),
                    },
                }
            },
        },
{
    if let Some((kind, rest)) = take_varint(buf, 32, u32::MAX as nat) {
        let n = if kind == 0 {
            4
        } else {
            16int
        };
        if rest.len() >= n {
            assert(rest.take(n) =~= rest.subrange(0, n));
            assert(rest.skip(n) =~= rest.subrange(n, rest.len() as int));
        }
    }
}

/// What messages, addresses and metadata say is what they hold.
pub proof fn law_views_say_what_is_held(
    text: String,
    hashes: Vec<[u8; 20]>,
    hash: [u8; 20],
    meta: ForwardTcpMeta,
    fd_meta: ForwardTcpFdMeta,
    addr: PeerAddr,
)
    ensures
        (ControlMessage::Hello { instance_id: text })@ == (Message::Hello { instance_id: text@ }),
        (ControlMessage::TorrentsAdded { info_hashes: hashes })@ == (Message::TorrentsAdded {
            info_hashes: hash_views(hashes@),
        }),
        (ControlMessage::TorrentsRemoved { info_hashes: hashes })@ == (Message::TorrentsRemoved {
            info_hashes: hash_views(hashes@),
        }),
        (ControlMessage::WhoHas { info_hash: hash })@ == (Message::WhoHas { info_hash: hash@ }),
        (ControlMessage::IHas { info_hash: hash })@ == (Message::IHas { info_hash: hash@ }),
        ControlMessage::Goodbye@ == Message::Goodbye,
        meta@.peer_addr == meta.peer_addr@,
        meta@.handshake == meta.handshake@,
        meta@.extra == meta.extra@,
        fd_meta@ == fd_meta.peer_addr@,
        addr matches PeerAddr::V4 { octets, port } ==> addr@ == (Addr::V4 {
            octets: octets@,
            port: port as nat,
        }),
        addr matches PeerAddr::V6 { octets, port, flowinfo, scope_id } ==> addr@ == (Addr::V6 {
            octets: octets@,
            port: port as nat,
            flowinfo: flowinfo as nat,
            scope_id: scope_id as nat,
        }),
{
}

/// Of the two codecs the first takes what is a message, or metadata, in its
/// format and nothing else; the second recognizes an opening brace and takes
/// nothing. They are tried in that order.
pub proof fn law_codecs_of_the_chain(buf: Seq<u8>)
    ensures
        default_chain().len() == 2,
        default_chain()[0].spec_name() == "postcard"@,
        default_chain()[1].spec_name() == "json/varlink"@,
        default_chain()[0].control(buf) == match parse_message(buf) {
            Some(m) => Some(Ok::<Message, CodecError>(m)),
            None => None,
        },
        default_chain()[0].forward(buf) == match parse_forward(buf) {
            Some(m) => Some(Ok::<ForwardMeta, CodecError>(m)),
            None => None,
        },
        default_chain()[0].forward_fd(buf) == match parse_forward_fd(buf) {
            Some(a) => Some(Ok::<Addr, CodecError>(a)),
            None => None,
        },
        default_chain()[1].control(buf) == if buf.len() > 0 && buf[0] == 123 {
            Some(Err::<Message, CodecError>(CodecError::JsonControl))
        } else {
            None
        },
        default_chain()[1].forward(buf) == if buf.len() > 0 && buf[0] == 123 {
            Some(Err::<ForwardMeta, CodecError>(CodecError::JsonForward))
        } else {
            None
        },
        default_chain()[1].forward_fd(buf) == if buf.len() > 0 && buf[0] == 123 {
            Some(Err::<Addr, CodecError>(CodecError::JsonForwardFd))
        } else {
            None
        },
{
}

/// The codec that a chain settles on is the first that recognizes the bytes:
/// it does, and none before it does. Where none does there is none.
pub proof fn law_first_codec_wins<C: WireCodec>(codecs: Seq<C>, buf: Seq<u8>)
    ensures
        0 <= recognizing_codec(codecs, buf) <= codecs.len(),
        recognizing_codec(codecs, buf) < codecs.len() ==> codecs[recognizing_codec(
            codecs,
            buf,
        )].control(buf) is Some,
        forall|i: int|
            0 <= i < recognizing_codec(codecs, buf) ==> (#[trigger] codecs[i]).control(buf) is None,
    decreases codecs.len(),
{
    if codecs.len() > 0 && codecs[0].control(buf) is None {
        let rest = codecs.skip(1);
        law_first_codec_wins(rest, buf);
        let k = recognizing_codec(rest, buf);
        if k < rest.len() {
            assert(rest[k] == codecs[k + 1]);
        }
        assert forall|i: int| 0 <= i < k + 1 implies (#[trigger] codecs[i]).control(
            buf,
        ) is None by {
            if i > 0 {
                assert(rest[i - 1] == codecs[i]);
            }
        }
    }
}

/// What a decoding outcome says is what was decoded.
pub proof fn law_outcomes_say_what_was_decoded<T: View>(t: T, e: CodecError)
    ensures
        decoded_view(Some(Ok::<T, CodecError>(t))) == Some(Ok::<T::V, CodecError>(t@)),
        decoded_view(Some(Err::<T, CodecError>(e))) == Some(Err::<T::V, CodecError>(e)),
        decoded_view(None::<Result<T, CodecError>>) == None::<Result<T::V, CodecError>>,
{
}

/// A refused length is told with the length, and an unrecognized format with
/// the formats that were tried.
pub proof fn law_refusals_tell_what_was_refused(len: usize, tried: Vec<String>, e: CodecError)
    ensures
        FrameError::InvalidLength(len).text() == "invalid first frame length "@ + decimal(
            len as nat,
        ),
        FrameError::ForwardMetadataTooLarge(len).text() == "forward metadata too large: "@
            + decimal(len as nat),
        FrameError::ForwardFdMetadataTooLarge(len).text() == "forward-fd metadata too large: "@
            + decimal(len as nat),
        FrameError::BadMetadata.text() == "postcard decode error"@,
        (ProbeError::Unrecognized { tried }).text() == "unrecognized wire format (tried: "@
            + listed(text_views(tried@)) + ")"@,
        ProbeError::Codec(e).text() == e.text(),
{
}

/// The numbers that both ends of a connection agree on.
pub proof fn law_agreed_numbers()
    ensures
        MODE_CONTROL == 1,
        MODE_FORWARD_TCP == 2,
        MODE_FORWARD_TCP_FD == 3,
        MAX_FRAME_SIZE == 1_048_576,
{
}

/// Every address is one that decoding gives back, and a list of hashes is such
/// exactly if each has 20 bytes and memory can number them.
pub proof fn law_addresses_and_hashes_are_valid(addr: PeerAddr, hashes: Seq<Seq<u8>>)
    ensures
        addr@.valid(),
        valid_hashes(hashes) <==> hashes.len() <= usize::MAX && forall|i: int|
            0 <= i < hashes.len() ==> (#[trigger] hashes[i]).len() == 20,
{
}

} // verus!
