//! The envelope of the control connection: every message travels as its
//! length in four big-endian bytes, followed by that many bytes of payload.
//!
//! `Transport` holds no socket. The I/O layer hands it the bytes that
//! arrived and writes out the bytes it is given.

use crate::net::error::{Error, IoErrorKind};
use crate::net::frame::SessionId;
use vstd::prelude::*;

verus! {

/// Number of bytes of the length prefix.
pub const HEAD_LENGTH: usize = 4;

/// The longest payload that is sent or accepted: 8 MiB.
pub const MAX_FRAME_LENGTH: usize = 8 * 1024 * 1024;

/// The four big-endian bytes of a number below 2^32.
pub open spec fn be32(n: nat) -> Seq<u8> {
    seq![
        (n / 0x100_0000 % 0x100) as u8,
        (n / 0x1_0000 % 0x100) as u8,
        (n / 0x100 % 0x100) as u8,
        (n % 0x100) as u8,
    ]
}

/// The number that the first four bytes of `head` spell, big end first.
pub open spec fn be32_value(head: Seq<u8>) -> nat {
    (head[0] * 0x100_0000 + head[1] * 0x1_0000 + head[2] * 0x100 + head[3]) as nat
}

/// A payload in its envelope.
pub open spec fn envelope(payload: Seq<u8>) -> Seq<u8> {
    be32(payload.len()) + payload
}

/// What the bytes received so far begin with.
pub enum Parsed {
    /// Less than one whole message.
    Incomplete,
    /// A length prefix above `MAX_FRAME_LENGTH`.
    TooLong,
    /// One whole message, and the bytes after it.
    Frame { payload: Seq<u8>, rest: Seq<u8> },
}

/// Reads the beginning of `pending` as one message.
pub open spec fn parse(pending: Seq<u8>) -> Parsed {
    if pending.len() < HEAD_LENGTH {
        Parsed::Incomplete
    } else {
        let n = be32_value(pending);
        if n > MAX_FRAME_LENGTH {
            Parsed::TooLong
        } else if pending.len() < HEAD_LENGTH + n {
            Parsed::Incomplete
        } else {
            Parsed::Frame {
                payload: pending.subrange(HEAD_LENGTH as int, HEAD_LENGTH + n),
                rest: pending.skip(HEAD_LENGTH + n),
            }
        }
    }
}

/// The stream may end here without loss: nothing is pending, or a length
/// prefix alone.
pub open spec fn clean_end(pending: Seq<u8>) -> bool {
    pending.len() == 0 || (pending.len() == HEAD_LENGTH && be32_value(pending)
        <= MAX_FRAME_LENGTH)
}

/// The framing state of one control connection.
#[derive(Clone, Debug, PartialEq, Eq)]
pub struct Transport {
    peer_addr: SessionId,
    pending: Vec<u8>,
}

/// What a `Transport` stands for.
pub struct TransportView {
    /// Address of the peer.
    pub peer_addr: SessionId,
    /// The bytes that arrived and belong to no message handed out yet.
    pub pending: Seq<u8>,
}

impl View for Transport {
    type V = TransportView;

    closed spec fn view(&self) -> TransportView {
        TransportView { peer_addr: self.peer_addr, pending: self.pending@ }
    }
}

/// Writing a length and reading it back gives the length.
pub proof fn lemma_be32_round_trip(n: nat)
    requires
        n < 0x1_0000_0000,
    ensures
        be32(n).len() == 4,
        be32_value(be32(n)) == n,
{
    let b = be32(n);
    assert(b[0] == n / 0x100_0000 % 0x100);
    assert(b[1] == n / 0x1_0000 % 0x100);
    assert(b[2] == n / 0x100 % 0x100);
    assert(b[3] == n % 0x100);
}

/// A message that was put in its envelope is read back as it was, whatever
/// follows it on the stream.
pub proof fn lemma_envelope_round_trip(payload: Seq<u8>, rest: Seq<u8>)
    requires
        payload.len() <= MAX_FRAME_LENGTH,
    ensures
        parse(envelope(payload) + rest) == (Parsed::Frame { payload, rest }),
{
    lemma_be32_round_trip(payload.len());
    let stream = envelope(payload) + rest;
    assert(stream[0] == be32(payload.len())[0]);
    assert(stream[1] == be32(payload.len())[1]);
    assert(stream[2] == be32(payload.len())[2]);
    assert(stream[3] == be32(payload.len())[3]);
    assert(stream.subrange(HEAD_LENGTH as int, HEAD_LENGTH + payload.len()) =~= payload);
    assert(stream.skip(HEAD_LENGTH + payload.len()) =~= rest);
}

/// No message is read from a proper beginning of an envelope.
pub proof fn lemma_envelope_prefix_is_incomplete(payload: Seq<u8>, n: int)
    requires
        payload.len() <= MAX_FRAME_LENGTH,
        0 <= n < envelope(payload).len(),
    ensures
        parse(envelope(payload).take(n)) == Parsed::Incomplete,
{
    lemma_be32_round_trip(payload.len());
    let part = envelope(payload).take(n);
    if n >= HEAD_LENGTH {
        assert(part[0] == be32(payload.len())[0]);
        assert(part[1] == be32(payload.len())[1]);
        assert(part[2] == be32(payload.len())[2]);
        assert(part[3] == be32(payload.len())[3]);
    }
}

impl Transport {
    /// The framing state of a fresh connection to `peer_addr`.
    pub fn new(peer_addr: SessionId) -> (transport: Transport)
        ensures
            transport@ == (TransportView { peer_addr, pending: Seq::empty() }),
    {
        Transport { peer_addr, pending: Vec::new() }
    }

    /// Address of the peer.
    pub fn peer_addr(&self) -> (addr: SessionId)
        ensures
            addr == self@.peer_addr,
    {
        self.peer_addr
    }

    /// Number of bytes that arrived and belong to no message handed out yet.
    pub fn pending(&self) -> (n: usize)
        ensures
            n == self@.pending.len(),
    {
        self.pending.len()
    }

    /// Takes in bytes that arrived on the stream.
    pub fn receive(&mut self, bytes: &[u8])
        ensures
            final(self)@ == (TransportView {
                pending: old(self)@.pending + bytes@,
                ..old(self)@
            }),
    {
        self.pending.extend_from_slice(bytes);
        assert(self.pending@ =~= old(self).pending@ + bytes@);
    }

    /// Hands out the next message, if a whole one has arrived.
    ///
    /// - A whole message is taken off the pending bytes and returned.
    /// - A length prefix above `MAX_FRAME_LENGTH` is an `InvalidData`
    ///   failure, and nothing is taken.
    /// - Otherwise more bytes are needed: `Ok(None)` while the stream goes
    ///   on. Where it has ended (`at_end`), the connection is dead if it
    ///   ended cleanly, and has failed if it broke off inside a message.
    pub fn read_frame(&mut self, at_end: bool) -> (r: Result<Option<Vec<u8>>, Error>)
        ensures
            final(self)@.peer_addr == old(self)@.peer_addr,
            match parse(old(self)@.pending) {
                Parsed::Frame { payload, rest } => {
                    &&& r matches Ok(Some(got))
                    &&& got@ == payload
                    &&& final(self)@.pending == rest
                },
                Parsed::TooLong => {
                    &&& r == Err::<Option<Vec<u8>>, Error>(Error::Io(IoErrorKind::InvalidData))
                    &&& final(self)@ == old(self)@
                },
                Parsed::Incomplete => {
                    &&& final(self)@ == old(self)@
                    &&& !at_end ==> r == Ok::<Option<Vec<u8>>, Error>(None)
                    &&& at_end && clean_end(old(self)@.pending) ==> r == Err::<
                        Option<Vec<u8>>,
                        Error,
                    >(Error::ConnectionDead)
                    &&& at_end && !clean_end(old(self)@.pending) ==> r == Err::<
                        Option<Vec<u8>>,
                        Error,
                    >(Error::Io(IoErrorKind::Other))
                },
            },
    {
        let have = self.pending.len();
        if have < HEAD_LENGTH {
            return if !at_end {
                Ok(None)
            } else if have == 0 {
                Err(Error::ConnectionDead)
            } else {
                Err(Error::Io(IoErrorKind::Other))
            };
        }
        let n: usize = (self.pending[0] as usize) * 0x100_0000 + (self.pending[1] as usize)
            * 0x1_0000 + (self.pending[2] as usize) * 0x100 + (self.pending[3] as usize);
        if n > MAX_FRAME_LENGTH {
            return Err(Error::Io(IoErrorKind::InvalidData));
        }
        if have - HEAD_LENGTH < n {
            return if !at_end {
                Ok(None)
            } else if have == HEAD_LENGTH {
                Err(Error::ConnectionDead)
            } else {
                Err(Error::Io(IoErrorKind::Other))
            };
        }
        let ghost before = self.pending@;
        let mut message = self.pending.split_off(HEAD_LENGTH + n);
        core::mem::swap(&mut self.pending, &mut message);
        let payload = message.split_off(HEAD_LENGTH);
        assert(payload@ =~= before.subrange(HEAD_LENGTH as int, HEAD_LENGTH + n));
        assert(self.pending@ =~= before.skip(HEAD_LENGTH + n));
        Ok(Some(payload))
    }

    /// Puts a message in its envelope: the bytes to write to the stream. A
    /// payload above `MAX_FRAME_LENGTH` is an `InvalidInput` failure.
    pub fn write_frame(&self, payload: &[u8]) -> (r: Result<Vec<u8>, Error>)
        ensures
            payload@.len() <= MAX_FRAME_LENGTH ==> (r matches Ok(bytes) && bytes@ == envelope(
                payload@,
            )),
            payload@.len() > MAX_FRAME_LENGTH ==> r == Err::<Vec<u8>, Error>(
                Error::Io(IoErrorKind::InvalidInput),
            ),
    {
        let n = payload.len();
        if n > MAX_FRAME_LENGTH {
            return Err(Error::Io(IoErrorKind::InvalidInput));
        }
        let mut bytes: Vec<u8> = Vec::new();
        bytes.push((n / 0x100_0000 % 0x100) as u8);
        bytes.push((n / 0x1_0000 % 0x100) as u8);
        bytes.push((n / 0x100 % 0x100) as u8);
        bytes.push((n % 0x100) as u8);
        bytes.extend_from_slice(payload);
        assert(bytes@ =~= envelope(payload@));
        Ok(bytes)
    }
}

} // verus!
