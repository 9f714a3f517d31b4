//! Failure classes of the control connection.

use vstd::prelude::*;

verus! {

/// The kinds of I/O failure that the tunnel tells apart.
///
/// Every kind the classification does not name is `Other`.
#[derive(Clone, Copy, Debug, PartialEq, Eq, Hash, Structural)]
pub enum IoErrorKind {
    /// The peer reset the connection.
    ConnectionReset,
    /// The connection was aborted.
    ConnectionAborted,
    /// A write reached a closed pipe.
    BrokenPipe,
    /// A frame was too long to be sent.
    InvalidInput,
    /// A length prefix announced a frame that is too long.
    InvalidData,
    /// Anything else.
    Other,
}

/// What can end a control connection.
#[derive(Clone, Copy, Debug, PartialEq, Eq, Hash, Structural)]
pub enum Error {
    /// The connection is gone and may be rebuilt.
    ConnectionDead,
    /// The server answered the handshake with an unexpected frame.
    ConnectionRefused,
    /// An I/O failure of the given kind.
    Io(IoErrorKind),
}

/// The kinds after which the control connection is rebuilt.
pub open spec fn is_reconnectable_kind(kind: IoErrorKind) -> bool {
    kind == IoErrorKind::ConnectionReset || kind == IoErrorKind::ConnectionAborted || kind
        == IoErrorKind::BrokenPipe
}

/// Whether an I/O failure of this kind is answered by reconnecting.
pub fn reconnectable_err(kind: IoErrorKind) -> (r: bool)
    ensures
        r == is_reconnectable_kind(kind),
{
    match kind {
        IoErrorKind::ConnectionReset | IoErrorKind::ConnectionAborted | IoErrorKind::BrokenPipe => true,
        _ => false,
    }
}

impl Error {
    /// A dead connection is reconnectable, and so is an I/O failure of a
    /// reconnectable kind; a refusal never is.
    pub open spec fn reconnectable(self) -> bool {
        match self {
            Error::ConnectionDead => true,
            Error::ConnectionRefused => false,
            Error::Io(kind) => is_reconnectable_kind(kind),
        }
    }

    /// The error a client ends with after this failure: `ConnectionDead` for
    /// every reconnectable failure, the failure itself otherwise.
    pub open spec fn settled(self) -> Error {
        if self.reconnectable() {
            Error::ConnectionDead
        } else {
            self
        }
    }

    /// Whether the proper answer to this failure is a fresh control connection.
    pub fn is_reconnectable(&self) -> (r: bool)
        ensures
            r == self.reconnectable(),
    {
        match self {
            Error::ConnectionDead => true,
            Error::ConnectionRefused => false,
            Error::Io(kind) => reconnectable_err(*kind),
        }
    }

    /// Collapses every reconnectable failure into `ConnectionDead`.
    pub fn settle(self) -> (r: Error)
        ensures
            r == self.settled(),
    {
        if self.is_reconnectable() {
            Error::ConnectionDead
        } else {
            self
        }
    }

    /// The failure of a write: a reconnectable kind is reported as
    /// `ConnectionDead`, every other kind as itself.
    pub fn from_write_failure(kind: IoErrorKind) -> (r: Error)
        ensures
            r == Error::Io(kind).settled(),
    {
        Error::Io(kind).settle()
    }
}

} // verus!
