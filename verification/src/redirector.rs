//! One session of the tunnel: the bridge between a backend byte stream and
//! the multiplexed link, as a state machine.
//!
//! The I/O layer owns the backend stream and the two queues. It reports what
//! happened as a `RedirectorEvent` and carries out the `RedirectorAction`s
//! that `Redirector::step` hands back.

use crate::model::{lemma_views_add, lemma_views_empty, lemma_views_push, views};
use crate::net::frame::{
    Datagram, DatagramView, RedirectorFrame, RedirectorFrameView, SessionId,
};
use vstd::prelude::*;
use vstd::slice::{slice_subrange, slice_to_vec};

pub mod laws;

verus! {

/// The most bytes one datagram carries: a payload of this size and its
/// framing stay under the usual path MTU.
pub const BUFFER_CAPACITY: usize = 1463;

/// A session that neither read nor wrote for this long is closed:
/// 300 seconds, in nanoseconds.
pub const IDLE_TIMEOUT: u64 = 300_000_000_000;

/// What the I/O layer reports to a redirector. Clock readings are
/// nanoseconds of one monotonic clock.
#[derive(Clone, Debug, PartialEq, Eq)]
pub enum RedirectorEvent {
    /// The backend was read at `now`; no bytes means that it reached its end.
    BackendRead { data: Vec<u8>, now: u64 },
    /// Reading the backend failed.
    BackendFailed,
    /// A frame arrived on the queue from the client.
    Inbound(RedirectorFrame),
    /// The queue from the client was closed.
    InboundClosed,
    /// The bytes last handed out were written and flushed at `now`.
    Written { now: u64 },
    /// Writing or flushing the backend failed.
    WriteFailed,
    /// The keepalive timer fired at `now`.
    Tick { now: u64 },
    /// The shared cancellation signal was raised.
    Cancelled,
}

/// What a `RedirectorEvent` stands for.
pub enum RedirectorEventView {
    BackendRead { data: Seq<u8>, now: u64 },
    BackendFailed,
    Inbound(RedirectorFrameView),
    InboundClosed,
    Written { now: u64 },
    WriteFailed,
    Tick { now: u64 },
    Cancelled,
}

impl View for RedirectorEvent {
    type V = RedirectorEventView;

    open spec fn view(&self) -> RedirectorEventView {
        match self {
            RedirectorEvent::BackendRead { data, now } => RedirectorEventView::BackendRead {
                data: data@,
                now: *now,
            },
            RedirectorEvent::BackendFailed => RedirectorEventView::BackendFailed,
            RedirectorEvent::Inbound(frame) => RedirectorEventView::Inbound(frame@),
            RedirectorEvent::InboundClosed => RedirectorEventView::InboundClosed,
            RedirectorEvent::Written { now } => RedirectorEventView::Written { now: *now },
            RedirectorEvent::WriteFailed => RedirectorEventView::WriteFailed,
            RedirectorEvent::Tick { now } => RedirectorEventView::Tick { now: *now },
            RedirectorEvent::Cancelled => RedirectorEventView::Cancelled,
        }
    }
}

impl RedirectorEventView {
    /// A `StartListener` on the queue from the client: the client never
    /// forwards one, so a redirector is not asked to handle it.
    pub open spec fn is_stray_start(self) -> bool {
        self matches RedirectorEventView::Inbound(RedirectorFrameView::StartListener(_, _))
    }
}

/// What a redirector asks of the I/O layer.
#[derive(Clone, Debug, PartialEq, Eq)]
pub enum RedirectorAction {
    /// Put the frame on the queue to the client.
    Emit(RedirectorFrame),
    /// Write the bytes to the backend, then flush.
    Write(Vec<u8>),
    /// Close the queue from the client and end the task with the session id.
    Close,
}

/// What a `RedirectorAction` stands for.
pub enum RedirectorActionView {
    Emit(RedirectorFrameView),
    Write(Seq<u8>),
    Close,
}

impl View for RedirectorAction {
    type V = RedirectorActionView;

    open spec fn view(&self) -> RedirectorActionView {
        match self {
            RedirectorAction::Emit(frame) => RedirectorActionView::Emit(frame@),
            RedirectorAction::Write(data) => RedirectorActionView::Write(data@),
            RedirectorAction::Close => RedirectorActionView::Close,
        }
    }
}

/// The state of one session.
#[derive(Clone, Copy, Debug, PartialEq, Eq)]
pub struct Redirector {
    id: SessionId,
    port: u16,
    last_activity: u64,
    open: bool,
}

/// What a `Redirector` stands for.
pub struct RedirectorView {
    /// The session.
    pub id: SessionId,
    /// The published port the session arrived at.
    pub port: u16,
    /// Clock reading of the last successful read or write at the backend.
    pub last_activity: u64,
    /// Whether the session still runs.
    pub open: bool,
}

impl View for Redirector {
    type V = RedirectorView;

    closed spec fn view(&self) -> RedirectorView {
        RedirectorView {
            id: self.id,
            port: self.port,
            last_activity: self.last_activity,
            open: self.open,
        }
    }
}

/// Number of datagrams that `len` bytes are cut into.
pub open spec fn chunk_count(len: nat) -> nat {
    ((len + BUFFER_CAPACITY - 1) / (BUFFER_CAPACITY as int)) as nat
}

/// The `i`-th piece of `data`: `BUFFER_CAPACITY` bytes, or what is left.
pub open spec fn chunk(data: Seq<u8>, i: int) -> Seq<u8> {
    data.subrange(
        i * BUFFER_CAPACITY,
        if (i + 1) * BUFFER_CAPACITY <= data.len() {
            (i + 1) * BUFFER_CAPACITY
        } else {
            data.len() as int
        },
    )
}

/// The datagrams that carry `data` for a session: its pieces, in order.
pub open spec fn datagrams(id: SessionId, port: u16, data: Seq<u8>) -> Seq<RedirectorFrameView> {
    Seq::new(
        chunk_count(data.len()),
        |i: int| RedirectorFrameView::Datagram(DatagramView { id, port, data: chunk(data, i) }),
    )
}

/// One `Emit` for each frame, in order.
pub open spec fn emits(frames: Seq<RedirectorFrameView>) -> Seq<RedirectorActionView> {
    Seq::new(frames.len(), |i: int| RedirectorActionView::Emit(frames[i]))
}

impl RedirectorView {
    /// The session after it ended.
    pub open spec fn closed(self) -> RedirectorView {
        RedirectorView { open: false, ..self }
    }

    /// The session after a read or a write at the backend succeeded at `now`.
    pub open spec fn touched(self, now: u64) -> RedirectorView {
        RedirectorView { last_activity: now, ..self }
    }

    /// Time without a read or a write at the backend, as of `now`.
    pub open spec fn idle_for(self, now: u64) -> nat {
        if now >= self.last_activity {
            (now - self.last_activity) as nat
        } else {
            0
        }
    }

    /// The state after `event`, and the actions that it asks for.
    ///
    /// A closed session ignores every event. An open one
    /// - frames what the backend gave, and ends with a `KillListener` where it
    ///   gave nothing;
    /// - ends silently where reading or writing the backend failed;
    /// - hands the bytes of an inbound datagram to the backend, in the order
    ///   of arrival;
    /// - ends on an inbound `KillListener`, on a closed queue, on
    ///   cancellation, and on a tick after `IDLE_TIMEOUT` without activity.
    pub open spec fn step(self, event: RedirectorEventView) -> (
        RedirectorView,
        Seq<RedirectorActionView>,
    ) {
        let end = (self.closed(), seq![RedirectorActionView::Close]);
        if !self.open {
            (self, Seq::empty())
        } else {
            match event {
                RedirectorEventView::BackendRead { data, now } => {
                    if data.len() == 0 {
                        (
                            self.closed(),
                            seq![
                                RedirectorActionView::Emit(
                                    RedirectorFrameView::KillListener(self.id),
                                ),
                                RedirectorActionView::Close,
                            ],
                        )
                    } else {
                        (self.touched(now), emits(datagrams(self.id, self.port, data)))
                    }
                },
                RedirectorEventView::BackendFailed => end,
                RedirectorEventView::Inbound(RedirectorFrameView::Datagram(d)) => (
                    self,
                    seq![RedirectorActionView::Write(d.data)],
                ),
                RedirectorEventView::Inbound(RedirectorFrameView::KillListener(_)) => end,
                RedirectorEventView::Inbound(RedirectorFrameView::StartListener(_, _)) => (
                    self,
                    Seq::empty(),
                ),
                RedirectorEventView::InboundClosed => end,
                RedirectorEventView::Written { now } => (self.touched(now), Seq::empty()),
                RedirectorEventView::WriteFailed => end,
                RedirectorEventView::Tick { now } => {
                    if self.idle_for(now) >= IDLE_TIMEOUT {
                        end
                    } else {
                        (self, Seq::empty())
                    }
                },
                RedirectorEventView::Cancelled => end,
            }
        }
    }

    /// The state after a run of events, and all actions asked for, in order.
    pub open spec fn run(self, events: Seq<RedirectorEventView>) -> (
        RedirectorView,
        Seq<RedirectorActionView>,
    )
        decreases events.len(),
    {
        if events.len() == 0 {
            (self, Seq::empty())
        } else {
            let before = self.run(events.drop_last());
            let last = before.0.step(events.last());
            (last.0, before.1 + last.1)
        }
    }
}

impl Redirector {
    /// A running session `id` that arrived at the published port `port`,
    /// started at the clock reading `now`.
    pub fn new(id: SessionId, port: u16, now: u64) -> (r: Redirector)
        ensures
            r@ == (RedirectorView { id, port, last_activity: now, open: true }),
    {
        Redirector { id, port, last_activity: now, open: true }
    }

    /// The session.
    pub fn id(&self) -> (id: SessionId)
        ensures
            id == self@.id,
    {
        self.id
    }

    /// The published port the session arrived at.
    pub fn port(&self) -> (port: u16)
        ensures
            port == self@.port,
    {
        self.port
    }

    /// Whether the session still runs.
    pub fn is_open(&self) -> (open: bool)
        ensures
            open == self@.open,
    {
        self.open
    }

    /// Clock reading of the last successful read or write at the backend.
    pub fn last_activity(&self) -> (at: u64)
        ensures
            at == self@.last_activity,
    {
        self.last_activity
    }

    /// Cuts `data` into the datagrams of this session: pieces of
    /// `BUFFER_CAPACITY` bytes, the last one with what is left.
    pub fn datagrams(&self, data: Vec<u8>) -> (frames: Vec<RedirectorFrame>)
        ensures
            views(frames@) == datagrams(self@.id, self@.port, data@),
    {
        let n = data.len();
        let mut frames: Vec<RedirectorFrame> = Vec::new();
        if n == 0 {
            assert(views(frames@) =~= datagrams(self@.id, self@.port, data@));
            return frames;
        }
        if n <= BUFFER_CAPACITY {
            let ghost bytes = data@;
            assert(chunk(bytes, 0) =~= bytes);
            frames.push(RedirectorFrame::Datagram(Datagram { id: self.id, port: self.port, data }));
            assert(views(frames@) =~= datagrams(self@.id, self@.port, bytes));
            return frames;
        }
        let mut start: usize = 0;
        while start < n
            invariant
                n == data@.len(),
                start <= n,
                start == frames.len() * BUFFER_CAPACITY || start == n,
                frames.len() * BUFFER_CAPACITY >= start,
                frames.len() == 0 || (frames.len() - 1) * BUFFER_CAPACITY < n,
                forall|j: int|
                    0 <= j < frames.len() ==> (#[trigger] frames@[j])@
                        == RedirectorFrameView::Datagram(
                        DatagramView { id: self@.id, port: self@.port, data: chunk(data@, j) },
                    ),
            decreases n - start,
        {
            let end: usize = if n - start > BUFFER_CAPACITY {
                start + BUFFER_CAPACITY
            } else {
                n
            };
            let piece = slice_to_vec(slice_subrange(data.as_slice(), start, end));
            assert(piece@ =~= chunk(data@, frames.len() as int));
            frames.push(
                RedirectorFrame::Datagram(Datagram { id: self.id, port: self.port, data: piece }),
            );
            start = end;
        }
        assert(frames.len() == chunk_count(n as nat));
        assert(views(frames@) =~= datagrams(self@.id, self@.port, data@));
        frames
    }

    /// Takes one event: moves to the next state and returns what the I/O
    /// layer is to do, in order.
    pub fn step(&mut self, event: RedirectorEvent) -> (actions: Vec<RedirectorAction>)
        requires
            !event@.is_stray_start(),
        ensures
            final(self)@ == old(self)@.step(event@).0,
            views(actions@) == old(self)@.step(event@).1,
    {
        let mut actions: Vec<RedirectorAction> = Vec::new();
        if !self.open {
            assert(views(actions@) =~= Seq::empty());
            return actions;
        }
        match event {
            RedirectorEvent::BackendRead { data, now } => {
                if data.len() == 0 {
                    actions.push(RedirectorAction::Emit(RedirectorFrame::KillListener(self.id)));
                    actions.push(RedirectorAction::Close);
                    self.open = false;
                } else {
                    let ghost want = datagrams(self@.id, self@.port, data@);
                    let frames = self.datagrams(data);
                    let ghost all = frames@;
                    for frame in it: frames
                        invariant
                            it.seq() == all,
                            views(all) == want,
                            views(actions@) == emits(want.take(it.index() as int)),
                    {
                        proof {
                            lemma_views_push(actions@, RedirectorAction::Emit(frame));
                            assert(emits(want.take(it.index() + 1)) =~= emits(
                                want.take(it.index() as int),
                            ).push(RedirectorActionView::Emit(frame@)));
                        }
                        actions.push(RedirectorAction::Emit(frame));
                    }
                    assert(want.take(want.len() as int) =~= want);
                    self.last_activity = now;
                }
            },
            RedirectorEvent::Inbound(RedirectorFrame::Datagram(d)) => {
                actions.push(RedirectorAction::Write(d.data));
            },
            RedirectorEvent::Inbound(RedirectorFrame::StartListener(_, _)) => {},
            RedirectorEvent::Written { now } => {
                self.last_activity = now;
            },
            RedirectorEvent::Tick { now } => {
                if now >= self.last_activity && now - self.last_activity >= IDLE_TIMEOUT {
                    actions.push(RedirectorAction::Close);
                    self.open = false;
                }
            },
            RedirectorEvent::BackendFailed
            | RedirectorEvent::Inbound(RedirectorFrame::KillListener(_))
            | RedirectorEvent::InboundClosed
            | RedirectorEvent::WriteFailed
            | RedirectorEvent::Cancelled => {
                actions.push(RedirectorAction::Close);
                self.open = false;
            },
        }
        assert(views(actions@) =~= old(self)@.step(event@).1);
        actions
    }

    /// Takes a run of events, one after the other, and returns all that the
    /// I/O layer is to do, in order.
    pub fn run(&mut self, events: Vec<RedirectorEvent>) -> (actions: Vec<RedirectorAction>)
        requires
            forall|i: int| 0 <= i < events@.len() ==> !(#[trigger] events@[i])@.is_stray_start(),
        ensures
            final(self)@ == old(self)@.run(views(events@)).0,
            views(actions@) == old(self)@.run(views(events@)).1,
    {
        let mut actions: Vec<RedirectorAction> = Vec::new();
        let ghost all = events@;
        let ghost start = self@;
        proof {
            lemma_views_empty::<RedirectorAction>();
            assert(views(all.take(0)) =~= Seq::empty());
        }
        for event in it: events
            invariant
                it.seq() == all,
                forall|i: int| 0 <= i < all.len() ==> !(#[trigger] all[i])@.is_stray_start(),
                self@ == start.run(views(all.take(it.index() as int))).0,
                views(actions@) == start.run(views(all.take(it.index() as int))).1,
        {
            let ghost seen = views(all.take(it.index() as int));
            let ghost now = views(all.take(it.index() + 1));
            let ghost done = actions@;
            assert(all[it.index() as int] == event);
            let mut more = self.step(event);
            proof {
                assert(now.drop_last() =~= seen);
                assert(now.last() == event@);
                lemma_views_add(done, more@);
            }
            actions.append(&mut more);
        }
        assert(all.take(all.len() as int) =~= all);
        actions
    }
}

} // verus!
