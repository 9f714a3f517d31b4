//! The frames of the control connection and their mathematical models.

use vstd::prelude::*;
use vstd::std_specs::convert::FromSpecImpl;
use vstd::utf8::encode_utf8;

verus! {

/// The most bytes a pre-shared key may have on the wire.
pub const PSK_LIMIT: usize = 512;

/// The socket address of the external peer that opened a session on a
/// published port. It names the session for the life of a control connection.
#[derive(Clone, Copy, Debug, PartialEq, Eq, Hash, Structural)]
pub enum SessionId {
    /// An IPv4 peer: the address as a big-endian number, and the port.
    V4 { ip: u32, port: u16 },
    /// An IPv6 peer: the address as a big-endian number, the port, and the
    /// flow and scope fields of the socket address.
    V6 { ip6: u128, port: u16, flowinfo: u32, scope_id: u32 },
}

/// Number of bytes of a string in UTF-8.
pub open spec fn byte_len(s: Seq<char>) -> nat {
    encode_utf8(s).len()
}

/// A string that is meant to hold at most `N` bytes.
#[derive(Clone, Debug, PartialEq, Eq)]
pub struct LimitedString<const N: usize>(pub String);

impl<const N: usize> View for LimitedString<N> {
    type V = Seq<char>;

    open spec fn view(&self) -> Seq<char> {
        self.0@
    }
}

impl<const N: usize> LimitedString<N> {
    /// The string keeps to its limit.
    pub open spec fn within_limit(&self) -> bool {
        byte_len(self@) <= N
    }

    /// Whether the string keeps to its limit of `N` bytes.
    pub fn fits(&self) -> (r: bool)
        ensures
            r == self.within_limit(),
    {
        self.0.as_str().as_bytes().len() <= N
    }
}

/// One chunk of session payload.
#[derive(Clone, Debug, PartialEq, Eq)]
pub struct Datagram {
    /// The session the bytes belong to.
    pub id: SessionId,
    /// The published port the session arrived at.
    pub port: u16,
    /// The bytes.
    pub data: Vec<u8>,
}

/// What a `Datagram` stands for.
pub struct DatagramView {
    pub id: SessionId,
    pub port: u16,
    pub data: Seq<u8>,
}

impl View for Datagram {
    type V = DatagramView;

    open spec fn view(&self) -> DatagramView {
        DatagramView { id: self.id, port: self.port, data: self.data@ }
    }
}

/// An authentication request.
#[derive(Clone, Debug, PartialEq, Eq)]
pub struct Auth {
    /// Pre-shared key.
    pub psk: LimitedString<512>,
}

impl View for Auth {
    type V = Seq<char>;

    open spec fn view(&self) -> Seq<char> {
        self.psk@
    }
}

impl Auth {
    /// An authentication request that carries `psk`.
    pub fn new(psk: String) -> (auth: Auth)
        ensures
            auth@ == psk@,
    {
        Auth { psk: LimitedString::<512>(psk) }
    }
}

impl FromSpecImpl<String> for Auth {
    open spec fn obeys_from_spec() -> bool {
        true
    }

    open spec fn from_spec(value: String) -> Auth {
        Auth { psk: LimitedString::<512>(value) }
    }
}

impl From<String> for Auth {
    fn from(value: String) -> (auth: Auth) {
        Auth { psk: LimitedString(value) }
    }
}

/// The frames that concern one session.
#[derive(Clone, Debug, PartialEq, Eq)]
pub enum RedirectorFrame {
    /// The server announces a new external connection on a published port.
    StartListener(SessionId, u16),
    /// A chunk of payload.
    Datagram(Datagram),
    /// The session is over.
    KillListener(SessionId),
}

/// What a `RedirectorFrame` stands for.
pub enum RedirectorFrameView {
    StartListener(SessionId, u16),
    Datagram(DatagramView),
    KillListener(SessionId),
}

impl View for RedirectorFrame {
    type V = RedirectorFrameView;

    open spec fn view(&self) -> RedirectorFrameView {
        match self {
            RedirectorFrame::StartListener(id, port) => RedirectorFrameView::StartListener(
                *id,
                *port,
            ),
            RedirectorFrame::Datagram(d) => RedirectorFrameView::Datagram(d@),
            RedirectorFrame::KillListener(id) => RedirectorFrameView::KillListener(*id),
        }
    }
}

impl RedirectorFrameView {
    /// The session that the frame names.
    pub open spec fn id(self) -> SessionId {
        match self {
            RedirectorFrameView::StartListener(id, _) => id,
            RedirectorFrameView::Datagram(d) => d.id,
            RedirectorFrameView::KillListener(id) => id,
        }
    }
}

impl RedirectorFrame {
    /// The session that the frame names.
    pub fn id(&self) -> (id: SessionId)
        ensures
            id == self@.id(),
    {
        match self {
            RedirectorFrame::StartListener(id, _) => *id,
            RedirectorFrame::Datagram(d) => d.id,
            RedirectorFrame::KillListener(id) => *id,
        }
    }
}

impl FromSpecImpl<Datagram> for RedirectorFrame {
    open spec fn obeys_from_spec() -> bool {
        true
    }

    open spec fn from_spec(value: Datagram) -> RedirectorFrame {
        RedirectorFrame::Datagram(value)
    }
}

impl From<Datagram> for RedirectorFrame {
    fn from(value: Datagram) -> (frame: RedirectorFrame) {
        RedirectorFrame::Datagram(value)
    }
}

/// One message on the control connection.
#[derive(Clone, Debug, PartialEq, Eq)]
pub enum Frame {
    /// The pre-shared key; the server answers with the same variant.
    Auth(LimitedString<512>),
    /// The remote ports to publish; the server answers with the same variant.
    Tunnels(Vec<u16>),
    /// A single port to publish.
    NewProxy(u16),
    /// A chunk of payload outside the session frames.
    Datagram(Datagram),
    /// Either side is shutting down.
    Kthxbai,
    /// A frame that concerns one session.
    Redirector(RedirectorFrame),
    /// A liveness probe, to be echoed.
    Heartbeat,
}

/// What a `Frame` stands for.
pub enum FrameView {
    Auth(Seq<char>),
    Tunnels(Seq<u16>),
    NewProxy(u16),
    Datagram(DatagramView),
    Kthxbai,
    Redirector(RedirectorFrameView),
    Heartbeat,
}

impl View for Frame {
    type V = FrameView;

    open spec fn view(&self) -> FrameView {
        match self {
            Frame::Auth(psk) => FrameView::Auth(psk@),
            Frame::Tunnels(ports) => FrameView::Tunnels(ports@),
            Frame::NewProxy(port) => FrameView::NewProxy(*port),
            Frame::Datagram(d) => FrameView::Datagram(d@),
            Frame::Kthxbai => FrameView::Kthxbai,
            Frame::Redirector(r) => FrameView::Redirector(r@),
            Frame::Heartbeat => FrameView::Heartbeat,
        }
    }
}

impl FromSpecImpl<Datagram> for Frame {
    open spec fn obeys_from_spec() -> bool {
        true
    }

    open spec fn from_spec(value: Datagram) -> Frame {
        Frame::Datagram(value)
    }
}

impl From<Datagram> for Frame {
    fn from(value: Datagram) -> (frame: Frame) {
        Frame::Datagram(value)
    }
}

impl FromSpecImpl<RedirectorFrame> for Frame {
    open spec fn obeys_from_spec() -> bool {
        true
    }

    open spec fn from_spec(value: RedirectorFrame) -> Frame {
        Frame::Redirector(value)
    }
}

impl From<RedirectorFrame> for Frame {
    fn from(value: RedirectorFrame) -> (frame: Frame) {
        Frame::Redirector(value)
    }
}

} // verus!
