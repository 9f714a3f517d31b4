//! The orchestrator of the tunnel client, as a state machine.
//!
//! The I/O layer owns the control connection, the queues and the redirector
//! tasks. It reports what happened as a `ClientEvent` and carries out the
//! `ClientAction`s that `Client::step` hands back. The client keeps the
//! registry of sessions: the I/O layer holds a queue for a session exactly
//! from `Spawn` to `Forget` (or `AbortAll`).

use crate::config::client::{rising, Config, ConfigView, Tunnel, TunnelView};
use crate::model::{lemma_views_add, lemma_views_empty, lemma_views_push, views};
use crate::net::error::Error;
use crate::net::frame::{
    Frame, FrameView, LimitedString, RedirectorFrame, RedirectorFrameView, SessionId,
};
use vstd::prelude::*;

pub mod laws;

verus! {

/// Where a client stands.
#[derive(Clone, Copy, Debug, PartialEq, Eq, Hash, Structural)]
pub enum ClientPhase {
    /// The control connection is being made.
    Dialing,
    /// Handshaking: the key was sent, the server's `Auth` is awaited.
    AwaitingAuth,
    /// Handshaking: the ports were sent, the server's `Tunnels` is awaited.
    AwaitingTunnels,
    /// The handshake is done; sessions are served.
    Running,
    /// The end was decided; the redirector tasks are being collected.
    Draining,
    /// Nothing is left to do.
    Terminated,
}

/// Where a session stands, as the client sees it.
#[derive(Clone, Copy, Debug, PartialEq, Eq, Hash, Structural)]
pub enum SessionState {
    /// The server announced the session; its backend is being connected.
    Opening,
    /// The session has its redirector and a queue to it.
    Active,
    /// The queue is gone; a redirector task is left to collect.
    Closing,
    /// Nothing is left of the session.
    Closed,
}

/// A session whose backend is being connected.
#[derive(Clone, Copy, Debug, PartialEq, Eq, Hash, Structural)]
pub struct Opening {
    /// The session.
    pub id: SessionId,
    /// The published port the session arrived at.
    pub port: u16,
}

/// What the I/O layer reports to the client.
#[derive(Clone, Debug, PartialEq, Eq)]
pub enum ClientEvent {
    /// The control connection stands: the handshake begins.
    Start,
    /// The server sent a frame.
    Received(Frame),
    /// Reading from or writing to the control connection failed.
    TransportFailed(Error),
    /// A redirector put a frame on the queue to the server.
    Outbound(RedirectorFrame),
    /// The redirector task of a session ended.
    HandlerDone(SessionId),
    /// The backend asked for by `Connect` is connected.
    BackendReady(SessionId),
    /// The backend asked for by `Connect` could not be reached.
    BackendFailed(SessionId),
    /// The frame handed out by `Deliver` found the session's queue closed.
    DeliveryFailed(SessionId),
    /// The shared cancellation signal was raised.
    Cancelled,
}

/// What a `ClientEvent` stands for.
pub enum ClientEventView {
    Start,
    Received(FrameView),
    TransportFailed(Error),
    Outbound(RedirectorFrameView),
    HandlerDone(SessionId),
    BackendReady(SessionId),
    BackendFailed(SessionId),
    DeliveryFailed(SessionId),
    Cancelled,
}

impl View for ClientEvent {
    type V = ClientEventView;

    open spec fn view(&self) -> ClientEventView {
        match self {
            ClientEvent::Start => ClientEventView::Start,
            ClientEvent::Received(frame) => ClientEventView::Received(frame@),
            ClientEvent::TransportFailed(err) => ClientEventView::TransportFailed(*err),
            ClientEvent::Outbound(frame) => ClientEventView::Outbound(frame@),
            ClientEvent::HandlerDone(id) => ClientEventView::HandlerDone(*id),
            ClientEvent::BackendReady(id) => ClientEventView::BackendReady(*id),
            ClientEvent::BackendFailed(id) => ClientEventView::BackendFailed(*id),
            ClientEvent::DeliveryFailed(id) => ClientEventView::DeliveryFailed(*id),
            ClientEvent::Cancelled => ClientEventView::Cancelled,
        }
    }
}

/// What the client asks of the I/O layer.
#[derive(Debug, PartialEq, Eq)]
pub enum ClientAction {
    /// Write the frame to the control connection, then flush.
    Send(Frame),
    /// Connect to the local service of the tunnel, over TLS where the tunnel
    /// says so, and report `BackendReady` or `BackendFailed` for the session.
    Connect { id: SessionId, tunnel: Tunnel },
    /// Make the queue of the session and start its redirector on the
    /// backend just connected.
    Spawn { id: SessionId, port: u16 },
    /// Put the frame on the queue of the session.
    Deliver { id: SessionId, frame: RedirectorFrame },
    /// Drop the sending half of the session's queue.
    Forget(SessionId),
    /// Abort every redirector task and drop every queue; report
    /// `HandlerDone` for each task as it is collected.
    AbortAll,
    /// Close the control connection and return this outcome.
    Finish(Result<(), Error>),
}

/// What a `ClientAction` stands for.
pub enum ClientActionView {
    Send(FrameView),
    Connect { id: SessionId, tunnel: TunnelView },
    Spawn { id: SessionId, port: u16 },
    Deliver { id: SessionId, frame: RedirectorFrameView },
    Forget(SessionId),
    AbortAll,
    Finish(Result<(), Error>),
}

impl View for ClientAction {
    type V = ClientActionView;

    open spec fn view(&self) -> ClientActionView {
        match self {
            ClientAction::Send(frame) => ClientActionView::Send(frame@),
            ClientAction::Connect { id, tunnel } => ClientActionView::Connect {
                id: *id,
                tunnel: tunnel@,
            },
            ClientAction::Spawn { id, port } => ClientActionView::Spawn { id: *id, port: *port },
            ClientAction::Deliver { id, frame } => ClientActionView::Deliver {
                id: *id,
                frame: frame@,
            },
            ClientAction::Forget(id) => ClientActionView::Forget(*id),
            ClientAction::AbortAll => ClientActionView::AbortAll,
            ClientAction::Finish(outcome) => ClientActionView::Finish(*outcome),
        }
    }
}

/// `s` without `id`, wherever it stands.
pub open spec fn without(s: Seq<SessionId>, id: SessionId) -> Seq<SessionId>
    decreases s.len(),
{
    if s.len() == 0 {
        s
    } else if s.last() == id {
        without(s.drop_last(), id)
    } else {
        without(s.drop_last(), id).push(s.last())
    }
}

/// `i` is the first place of `id` in `s`.
pub open spec fn is_first(s: Seq<SessionId>, id: SessionId, i: int) -> bool {
    &&& 0 <= i < s.len()
    &&& s[i] == id
    &&& forall|j: int| 0 <= j < i ==> s[j] != id
}

/// `s` without the first `id` in it.
pub open spec fn without_first(s: Seq<SessionId>, id: SessionId) -> Seq<SessionId> {
    if s.contains(id) {
        s.remove(choose|i: int| is_first(s, id, i))
    } else {
        s
    }
}

/// A backend is being connected for `id`.
pub open spec fn is_opening(pending: Seq<Opening>, id: SessionId) -> bool {
    exists|i: int| 0 <= i < pending.len() && (#[trigger] pending[i]).id == id
}

/// `i` is the first place in `pending` that names `id`.
pub open spec fn is_first_opening(pending: Seq<Opening>, id: SessionId, i: int) -> bool {
    &&& 0 <= i < pending.len()
    &&& pending[i].id == id
    &&& forall|j: int| 0 <= j < i ==> (#[trigger] pending[j]).id != id
}

/// The published port of the session `id` whose backend is being connected.
pub open spec fn opening_port(pending: Seq<Opening>, id: SessionId) -> u16 {
    pending[choose|i: int| is_first_opening(pending, id, i)].port
}

/// `pending` without the session `id`.
pub open spec fn settled(pending: Seq<Opening>, id: SessionId) -> Seq<Opening>
    decreases pending.len(),
{
    if pending.len() == 0 {
        pending
    } else if pending.last().id == id {
        settled(pending.drop_last(), id)
    } else {
        settled(pending.drop_last(), id).push(pending.last())
    }
}

/// The state of a client.
#[derive(Debug)]
pub struct Client {
    peer_addr: SessionId,
    config: Config,
    phase: ClientPhase,
    established: bool,
    outcome: Result<(), Error>,
    to_internal: Vec<SessionId>,
    handlers: Vec<SessionId>,
    opening: Vec<Opening>,
}

/// What a `Client` stands for.
pub struct ClientView {
    /// Address of the server.
    pub peer_addr: SessionId,
    /// What the client was told.
    pub config: ConfigView,
    /// Where the client stands.
    pub phase: ClientPhase,
    /// Whether the handshake succeeded on this connection.
    pub established: bool,
    /// How the client ends; it counts from `Draining` on.
    pub outcome: Result<(), Error>,
    /// The sessions that have a queue to their redirector.
    pub to_internal: Seq<SessionId>,
    /// The redirector tasks that were started and not yet collected, by
    /// session.
    pub handlers: Seq<SessionId>,
    /// The sessions whose backend is being connected.
    pub opening: Seq<Opening>,
}

impl View for Client {
    type V = ClientView;

    closed spec fn view(&self) -> ClientView {
        ClientView {
            peer_addr: self.peer_addr,
            config: self.config@,
            phase: self.phase,
            established: self.established,
            outcome: self.outcome,
            to_internal: self.to_internal@,
            handlers: self.handlers@,
            opening: self.opening@,
        }
    }
}

impl ClientView {
    /// A client that was just made.
    pub open spec fn initial(config: ConfigView, peer_addr: SessionId) -> ClientView {
        ClientView {
            peer_addr,
            config,
            phase: ClientPhase::Dialing,
            established: false,
            outcome: Ok(()),
            to_internal: Seq::empty(),
            handlers: Seq::empty(),
            opening: Seq::empty(),
        }
    }

    /// Where the session `id` stands.
    pub open spec fn session(self, id: SessionId) -> SessionState {
        if self.to_internal.contains(id) {
            SessionState::Active
        } else if is_opening(self.opening, id) {
            SessionState::Opening
        } else if self.handlers.contains(id) {
            SessionState::Closing
        } else {
            SessionState::Closed
        }
    }

    /// The end of the main loop with `outcome`: after the actions `first`,
    /// no session is left, and the client returns at once where no
    /// redirector task is left to collect.
    pub open spec fn leave(self, outcome: Result<(), Error>, first: Seq<ClientActionView>) -> (
        ClientView,
        Seq<ClientActionView>,
    ) {
        let cleared = ClientView {
            outcome,
            to_internal: Seq::empty(),
            opening: Seq::empty(),
            ..self
        };
        if self.handlers.len() == 0 {
            (
                ClientView { phase: ClientPhase::Terminated, ..cleared },
                first.push(ClientActionView::Finish(outcome)),
            )
        } else {
            (ClientView { phase: ClientPhase::Draining, ..cleared }, first)
        }
    }

    /// The session `id` loses its queue, if it has one.
    pub open spec fn forget(self, id: SessionId) -> (ClientView, Seq<ClientActionView>) {
        (
            ClientView { to_internal: without(self.to_internal, id), ..self },
            if self.to_internal.contains(id) {
                seq![ClientActionView::Forget(id)]
            } else {
                Seq::empty()
            },
        )
    }

    /// The handshake: the key goes out, the server's `Auth` is answered with
    /// the published ports in rising order, and the server's `Tunnels` ends
    /// it. Any other frame in place of the two is a refusal.
    pub open spec fn push_tunnel_config(self, event: ClientEventView) -> (
        ClientView,
        Seq<ClientActionView>,
    ) {
        let refused = self.leave(
            Err(Error::ConnectionRefused),
            seq![ClientActionView::AbortAll],
        );
        match (self.phase, event) {
            (ClientPhase::Dialing, ClientEventView::Start) => (
                ClientView { phase: ClientPhase::AwaitingAuth, ..self },
                seq![ClientActionView::Send(FrameView::Auth(self.config.psk))],
            ),
            (ClientPhase::AwaitingAuth, ClientEventView::Received(FrameView::Auth(_))) => (
                ClientView { phase: ClientPhase::AwaitingTunnels, ..self },
                seq![
                    ClientActionView::Send(FrameView::Tunnels(rising(self.config.tunnels.dom()))),
                ],
            ),
            (ClientPhase::AwaitingAuth, ClientEventView::Received(_)) => refused,
            (ClientPhase::AwaitingTunnels, ClientEventView::Received(FrameView::Tunnels(_))) => (
                ClientView { phase: ClientPhase::Running, established: true, ..self },
                Seq::empty(),
            ),
            (ClientPhase::AwaitingTunnels, ClientEventView::Received(_)) => refused,
            _ => (self, Seq::empty()),
        }
    }

    /// A new session: its backend is to be connected where its port has a
    /// tunnel, and the server is told to drop it where not.
    pub open spec fn new_conn(self, id: SessionId, port: u16) -> (
        ClientView,
        Seq<ClientActionView>,
    ) {
        if self.config.tunnels.contains_key(port) {
            (
                ClientView { opening: self.opening.push(Opening { id, port }), ..self },
                seq![ClientActionView::Connect { id, tunnel: self.config.tunnels[port] }],
            )
        } else {
            (
                self,
                seq![
                    ClientActionView::Send(
                        FrameView::Redirector(RedirectorFrameView::KillListener(id)),
                    ),
                ],
            )
        }
    }

    /// The backend of a session is connected: the session gets its queue
    /// and its redirector task. A session that is not being opened is
    /// passed over.
    pub open spec fn new_redirector(self, id: SessionId) -> (ClientView, Seq<ClientActionView>) {
        if is_opening(self.opening, id) {
            (
                ClientView {
                    opening: settled(self.opening, id),
                    to_internal: self.to_internal.push(id),
                    handlers: self.handlers.push(id),
                    ..self
                },
                seq![ClientActionView::Spawn { id, port: opening_port(self.opening, id) }],
            )
        } else {
            (self, Seq::empty())
        }
    }

    /// A session frame from the server:
    /// - `StartListener` opens a session, unless the session is there or
    ///   being opened;
    /// - `Datagram` goes to the queue of its session, and is dropped where
    ///   the session has none;
    /// - `KillListener` takes the queue of the session away and gives up its
    ///   opening.
    pub open spec fn redirector_frame(self, frame: RedirectorFrameView) -> (
        ClientView,
        Seq<ClientActionView>,
    ) {
        match frame {
            RedirectorFrameView::StartListener(id, port) => {
                if self.to_internal.contains(id) || is_opening(self.opening, id) {
                    (self, Seq::empty())
                } else {
                    self.new_conn(id, port)
                }
            },
            RedirectorFrameView::Datagram(d) => {
                if self.to_internal.contains(d.id) {
                    (self, seq![ClientActionView::Deliver { id: d.id, frame }])
                } else {
                    (self, Seq::empty())
                }
            },
            RedirectorFrameView::KillListener(id) => (
                ClientView { opening: settled(self.opening, id), ..self.forget(id).0 },
                self.forget(id).1,
            ),
        }
    }

    /// One turn of the main loop.
    pub open spec fn serve(self, event: ClientEventView) -> (ClientView, Seq<ClientActionView>) {
        match event {
            ClientEventView::Received(FrameView::Heartbeat) => (
                self,
                seq![ClientActionView::Send(FrameView::Heartbeat)],
            ),
            ClientEventView::Received(FrameView::Kthxbai) => self.leave(
                Ok(()),
                seq![ClientActionView::AbortAll],
            ),
            ClientEventView::Received(FrameView::Redirector(frame)) => self.redirector_frame(
                frame,
            ),
            ClientEventView::Outbound(frame) => (
                self,
                seq![ClientActionView::Send(FrameView::Redirector(frame))],
            ),
            ClientEventView::HandlerDone(id) => (
                ClientView { handlers: without_first(self.handlers, id), ..self.forget(id).0 },
                self.forget(id).1,
            ),
            ClientEventView::BackendReady(id) => self.new_redirector(id),
            ClientEventView::BackendFailed(id) => {
                if is_opening(self.opening, id) {
                    (
                        ClientView { opening: settled(self.opening, id), ..self },
                        seq![
                            ClientActionView::Send(
                                FrameView::Redirector(RedirectorFrameView::KillListener(id)),
                            ),
                        ],
                    )
                } else {
                    (self, Seq::empty())
                }
            },
            ClientEventView::DeliveryFailed(id) => self.forget(id),
            _ => (self, Seq::empty()),
        }
    }

    /// The redirector tasks are collected; with the last one the client
    /// returns its outcome.
    pub open spec fn drain(self, event: ClientEventView) -> (ClientView, Seq<ClientActionView>) {
        match event {
            ClientEventView::HandlerDone(id) => {
                let left = without_first(self.handlers, id);
                if left.len() == 0 {
                    (
                        ClientView { handlers: left, phase: ClientPhase::Terminated, ..self },
                        seq![ClientActionView::Finish(self.outcome)],
                    )
                } else {
                    (ClientView { handlers: left, ..self }, Seq::empty())
                }
            },
            _ => (self, Seq::empty()),
        }
    }

    /// The state after `event`, and the actions that it asks for.
    ///
    /// A terminated client ignores every event, a draining one all but the
    /// end of a task. Before that, cancellation ends the client gracefully
    /// with a last `Kthxbai`, and a failure of the control connection ends
    /// it with `ConnectionDead` where the failure is reconnectable and with
    /// the failure itself where not.
    pub open spec fn step(self, event: ClientEventView) -> (ClientView, Seq<ClientActionView>) {
        match self.phase {
            ClientPhase::Terminated => (self, Seq::empty()),
            ClientPhase::Draining => self.drain(event),
            _ => match event {
                ClientEventView::Cancelled => self.leave(
                    Ok(()),
                    seq![ClientActionView::AbortAll, ClientActionView::Send(FrameView::Kthxbai)],
                ),
                ClientEventView::TransportFailed(err) => self.leave(
                    Err(err.settled()),
                    seq![ClientActionView::AbortAll],
                ),
                _ => if self.phase == ClientPhase::Running {
                    self.serve(event)
                } else {
                    self.push_tunnel_config(event)
                },
            },
        }
    }

    /// The state after a run of events, and all actions asked for, in order.
    pub open spec fn run(self, events: Seq<ClientEventView>) -> (
        ClientView,
        Seq<ClientActionView>,
    )
        decreases events.len(),
    {
        if events.len() == 0 {
            (self, Seq::empty())
        } else {
            let before = self.run(events.drop_last());
            let last = before.0.step(events.last());
            (last.0, before.1 + last.1)
        }
    }
}

/// Whether `id` is among `v`.
fn holds(v: &Vec<SessionId>, id: SessionId) -> (found: bool)
    ensures
        found == v@.contains(id),
{
    let mut i: usize = 0;
    while i < v.len()
        invariant
            i <= v.len(),
            forall|j: int| 0 <= j < i ==> v@[j] != id,
        decreases v.len() - i,
    {
        if v[i] == id {
            return true;
        }
        i += 1;
    }
    false
}

/// Takes every `id` out of `v`.
fn take_out(v: &mut Vec<SessionId>, id: SessionId)
    ensures
        final(v)@ == without(old(v)@, id),
{
    let mut kept: Vec<SessionId> = Vec::new();
    let mut i: usize = 0;
    assert(v@.take(0) =~= Seq::empty());
    while i < v.len()
        invariant
            i <= v.len(),
            kept@ == without(v@.take(i as int), id),
        decreases v.len() - i,
    {
        assert(v@.take(i + 1).drop_last() =~= v@.take(i as int));
        if v[i] != id {
            kept.push(v[i]);
        }
        i += 1;
    }
    assert(v@.take(v@.len() as int) =~= v@);
    *v = kept;
}

/// Takes the first `id` out of `v`.
fn take_out_first(v: &mut Vec<SessionId>, id: SessionId)
    ensures
        final(v)@ == without_first(old(v)@, id),
{
    let mut i: usize = 0;
    while i < v.len()
        invariant
            i <= v.len(),
            v@ == old(v)@,
            forall|j: int| 0 <= j < i ==> v@[j] != id,
        decreases v.len() - i,
    {
        if v[i] == id {
            proof {
                assert(is_first(v@, id, i as int));
                let k = choose|k: int| is_first(v@, id, k);
                assert(k == i);
            }
            v.remove(i);
            return ;
        }
        i += 1;
    }
}

/// The published port of the session `id`, where its backend is being
/// connected.
fn pending_port(pending: &Vec<Opening>, id: SessionId) -> (port: Option<u16>)
    ensures
        port is Some <==> is_opening(pending@, id),
        port matches Some(p) ==> p == opening_port(pending@, id),
{
    let mut i: usize = 0;
    while i < pending.len()
        invariant
            i <= pending.len(),
            forall|j: int| 0 <= j < i ==> (#[trigger] pending@[j]).id != id,
        decreases pending.len() - i,
    {
        if pending[i].id == id {
            proof {
                assert(is_first_opening(pending@, id, i as int));
                let k = choose|k: int| is_first_opening(pending@, id, k);
                assert(k == i);
            }
            return Some(pending[i].port);
        }
        i += 1;
    }
    None
}

/// Takes the session `id` out of `pending`.
fn settle(pending: &mut Vec<Opening>, id: SessionId)
    ensures
        final(pending)@ == settled(old(pending)@, id),
{
    let mut kept: Vec<Opening> = Vec::new();
    let mut i: usize = 0;
    assert(pending@.take(0) =~= Seq::empty());
    while i < pending.len()
        invariant
            i <= pending.len(),
            kept@ == settled(pending@.take(i as int), id),
        decreases pending.len() - i,
    {
        assert(pending@.take(i + 1).drop_last() =~= pending@.take(i as int));
        if pending[i].id != id {
            kept.push(pending[i]);
        }
        i += 1;
    }
    assert(pending@.take(pending@.len() as int) =~= pending@);
    *pending = kept;
}

impl Client {
    /// A client for the server at `peer_addr`, before the handshake.
    pub fn new(config: Config, peer_addr: SessionId) -> (client: Client)
        ensures
            client@ == ClientView::initial(config@, peer_addr),
    {
        Client {
            peer_addr,
            config,
            phase: ClientPhase::Dialing,
            established: false,
            outcome: Ok(()),
            to_internal: Vec::new(),
            handlers: Vec::new(),
            opening: Vec::new(),
        }
    }

    /// Address of the server.
    pub fn peer_addr(&self) -> (addr: SessionId)
        ensures
            addr == self@.peer_addr,
    {
        self.peer_addr
    }

    /// What the client was told.
    pub fn config(&self) -> (config: &Config)
        ensures
            config@ == self@.config,
    {
        &self.config
    }

    /// Where the client stands.
    pub fn phase(&self) -> (phase: ClientPhase)
        ensures
            phase == self@.phase,
    {
        self.phase
    }

    /// Whether the handshake succeeded on this connection.
    pub fn established(&self) -> (established: bool)
        ensures
            established == self@.established,
    {
        self.established
    }

    /// How the client ends; it counts from `Draining` on.
    pub fn outcome(&self) -> (outcome: Result<(), Error>)
        ensures
            outcome == self@.outcome,
    {
        self.outcome
    }

    /// Whether the session has a queue to its redirector.
    pub fn has_session(&self, id: SessionId) -> (found: bool)
        ensures
            found == self@.to_internal.contains(id),
    {
        holds(&self.to_internal, id)
    }

    /// Whether a redirector task of the session was started and is not yet
    /// collected.
    pub fn has_task(&self, id: SessionId) -> (found: bool)
        ensures
            found == self@.handlers.contains(id),
    {
        holds(&self.handlers, id)
    }

    /// Where the session `id` stands.
    pub fn session(&self, id: SessionId) -> (state: SessionState)
        ensures
            state == self@.session(id),
    {
        if holds(&self.to_internal, id) {
            SessionState::Active
        } else if pending_port(&self.opening, id).is_some() {
            SessionState::Opening
        } else if holds(&self.handlers, id) {
            SessionState::Closing
        } else {
            SessionState::Closed
        }
    }

    /// Number of sessions that have a queue to their redirector.
    pub fn sessions(&self) -> (n: usize)
        ensures
            n == self@.to_internal.len(),
    {
        self.to_internal.len()
    }

    /// Number of redirector tasks that were started and not yet collected.
    pub fn live_handlers(&self) -> (n: usize)
        ensures
            n == self@.handlers.len(),
    {
        self.handlers.len()
    }

    fn leave(&mut self, outcome: Result<(), Error>, first: Vec<ClientAction>) -> (actions: Vec<
        ClientAction,
    >)
        ensures
            final(self)@ == old(self)@.leave(outcome, views(first@)).0,
            views(actions@) == old(self)@.leave(outcome, views(first@)).1,
    {
        let mut actions = first;
        self.outcome = outcome;
        self.to_internal = Vec::new();
        self.opening = Vec::new();
        if self.handlers.len() == 0 {
            self.phase = ClientPhase::Terminated;
            proof {
                lemma_views_push(actions@, ClientAction::Finish(outcome));
            }
            actions.push(ClientAction::Finish(outcome));
        } else {
            self.phase = ClientPhase::Draining;
        }
        actions
    }

    fn forget(&mut self, id: SessionId) -> (actions: Vec<ClientAction>)
        ensures
            final(self)@ == old(self)@.forget(id).0,
            views(actions@) == old(self)@.forget(id).1,
    {
        let mut actions: Vec<ClientAction> = Vec::new();
        if holds(&self.to_internal, id) {
            actions.push(ClientAction::Forget(id));
        }
        take_out(&mut self.to_internal, id);
        assert(views(actions@) =~= old(self)@.forget(id).1);
        actions
    }

    fn push_tunnel_config(&mut self, event: ClientEvent) -> (actions: Vec<ClientAction>)
        ensures
            final(self)@ == old(self)@.push_tunnel_config(event@).0,
            views(actions@) == old(self)@.push_tunnel_config(event@).1,
    {
        let mut actions: Vec<ClientAction> = Vec::new();
        match (self.phase, event) {
            (ClientPhase::Dialing, ClientEvent::Start) => {
                actions.push(
                    ClientAction::Send(Frame::Auth(LimitedString(self.config.psk.clone()))),
                );
                self.phase = ClientPhase::AwaitingAuth;
            },
            (ClientPhase::AwaitingAuth, ClientEvent::Received(Frame::Auth(_))) => {
                actions.push(ClientAction::Send(Frame::Tunnels(self.config.published_ports())));
                self.phase = ClientPhase::AwaitingTunnels;
            },
            (ClientPhase::AwaitingTunnels, ClientEvent::Received(Frame::Tunnels(_))) => {
                self.phase = ClientPhase::Running;
                self.established = true;
            },
            (ClientPhase::AwaitingAuth, ClientEvent::Received(_))
            | (ClientPhase::AwaitingTunnels, ClientEvent::Received(_)) => {
                actions.push(ClientAction::AbortAll);
                assert(views(actions@) =~= seq![ClientActionView::AbortAll]);
                return self.leave(Err(Error::ConnectionRefused), actions);
            },
            _ => {},
        }
        assert(views(actions@) =~= old(self)@.push_tunnel_config(event@).1);
        actions
    }

    fn new_conn(&mut self, id: SessionId, port: u16) -> (actions: Vec<ClientAction>)
        ensures
            final(self)@ == old(self)@.new_conn(id, port).0,
            views(actions@) == old(self)@.new_conn(id, port).1,
    {
        let mut actions: Vec<ClientAction> = Vec::new();
        match self.config.tunnel(port) {
            Some(tunnel) => {
                actions.push(ClientAction::Connect { id, tunnel: tunnel.duplicate() });
                self.opening.push(Opening { id, port });
            },
            None => {
                actions.push(
                    ClientAction::Send(Frame::Redirector(RedirectorFrame::KillListener(id))),
                );
            },
        }
        assert(views(actions@) =~= old(self)@.new_conn(id, port).1);
        actions
    }

    fn new_redirector(&mut self, id: SessionId) -> (actions: Vec<ClientAction>)
        ensures
            final(self)@ == old(self)@.new_redirector(id).0,
            views(actions@) == old(self)@.new_redirector(id).1,
    {
        let mut actions: Vec<ClientAction> = Vec::new();
        match pending_port(&self.opening, id) {
            Some(port) => {
                settle(&mut self.opening, id);
                self.to_internal.push(id);
                self.handlers.push(id);
                actions.push(ClientAction::Spawn { id, port });
            },
            None => {},
        }
        assert(views(actions@) =~= old(self)@.new_redirector(id).1);
        actions
    }

    fn redirector_frame(&mut self, frame: RedirectorFrame) -> (actions: Vec<ClientAction>)
        ensures
            final(self)@ == old(self)@.redirector_frame(frame@).0,
            views(actions@) == old(self)@.redirector_frame(frame@).1,
    {
        match frame {
            RedirectorFrame::StartListener(id, port) => {
                if holds(&self.to_internal, id) || pending_port(&self.opening, id).is_some() {
                    let actions: Vec<ClientAction> = Vec::new();
                    assert(views(actions@) =~= Seq::empty());
                    actions
                } else {
                    self.new_conn(id, port)
                }
            },
            RedirectorFrame::Datagram(d) => {
                let mut actions: Vec<ClientAction> = Vec::new();
                let id = d.id;
                if holds(&self.to_internal, id) {
                    actions.push(ClientAction::Deliver { id, frame: RedirectorFrame::Datagram(d) });
                }
                assert(views(actions@) =~= old(self)@.redirector_frame(frame@).1);
                actions
            },
            RedirectorFrame::KillListener(id) => {
                settle(&mut self.opening, id);
                self.forget(id)
            },
        }
    }

    fn serve(&mut self, event: ClientEvent) -> (actions: Vec<ClientAction>)
        ensures
            final(self)@ == old(self)@.serve(event@).0,
            views(actions@) == old(self)@.serve(event@).1,
    {
        let mut actions: Vec<ClientAction> = Vec::new();
        match event {
            ClientEvent::Received(Frame::Heartbeat) => {
                actions.push(ClientAction::Send(Frame::Heartbeat));
            },
            ClientEvent::Received(Frame::Kthxbai) => {
                actions.push(ClientAction::AbortAll);
                assert(views(actions@) =~= seq![ClientActionView::AbortAll]);
                return self.leave(Ok(()), actions);
            },
            ClientEvent::Received(Frame::Redirector(frame)) => {
                return self.redirector_frame(frame);
            },
            ClientEvent::Outbound(frame) => {
                actions.push(ClientAction::Send(Frame::Redirector(frame)));
            },
            ClientEvent::HandlerDone(id) => {
                take_out_first(&mut self.handlers, id);
                return self.forget(id);
            },
            ClientEvent::BackendReady(id) => {
                return self.new_redirector(id);
            },
            ClientEvent::BackendFailed(id) => {
                if pending_port(&self.opening, id).is_some() {
                    settle(&mut self.opening, id);
                    actions.push(
                        ClientAction::Send(Frame::Redirector(RedirectorFrame::KillListener(id))),
                    );
                }
            },
            ClientEvent::DeliveryFailed(id) => {
                return self.forget(id);
            },
            _ => {},
        }
        assert(views(actions@) =~= old(self)@.serve(event@).1);
        actions
    }

    fn drain(&mut self, event: ClientEvent) -> (actions: Vec<ClientAction>)
        ensures
            final(self)@ == old(self)@.drain(event@).0,
            views(actions@) == old(self)@.drain(event@).1,
    {
        let mut actions: Vec<ClientAction> = Vec::new();
        match event {
            ClientEvent::HandlerDone(id) => {
                take_out_first(&mut self.handlers, id);
                if self.handlers.len() == 0 {
                    self.phase = ClientPhase::Terminated;
                    actions.push(ClientAction::Finish(self.outcome));
                }
            },
            _ => {},
        }
        assert(views(actions@) =~= old(self)@.drain(event@).1);
        actions
    }

    /// Takes one event: moves to the next state and returns what the I/O
    /// layer is to do, in order.
    pub fn step(&mut self, event: ClientEvent) -> (actions: Vec<ClientAction>)
        ensures
            final(self)@ == old(self)@.step(event@).0,
            views(actions@) == old(self)@.step(event@).1,
    {
        match self.phase {
            ClientPhase::Terminated => {
                let actions: Vec<ClientAction> = Vec::new();
                assert(views(actions@) =~= Seq::empty());
                actions
            },
            ClientPhase::Draining => self.drain(event),
            _ => match event {
                ClientEvent::Cancelled => {
                    let mut first: Vec<ClientAction> = Vec::new();
                    first.push(ClientAction::AbortAll);
                    first.push(ClientAction::Send(Frame::Kthxbai));
                    assert(views(first@) =~= seq![
                        ClientActionView::AbortAll,
                        ClientActionView::Send(FrameView::Kthxbai),
                    ]);
                    self.leave(Ok(()), first)
                },
                ClientEvent::TransportFailed(err) => {
                    let mut first: Vec<ClientAction> = Vec::new();
                    first.push(ClientAction::AbortAll);
                    assert(views(first@) =~= seq![ClientActionView::AbortAll]);
                    self.leave(Err(err.settle()), first)
                },
                other => {
                    if self.phase == ClientPhase::Running {
                        self.serve(other)
                    } else {
                        self.push_tunnel_config(other)
                    }
                },
            },
        }
    }

    /// Takes a run of events, one after the other, and returns all that the
    /// I/O layer is to do, in order.
    pub fn run(&mut self, events: Vec<ClientEvent>) -> (actions: Vec<ClientAction>)
        ensures
            final(self)@ == old(self)@.run(views(events@)).0,
            views(actions@) == old(self)@.run(views(events@)).1,
    {
        let mut actions: Vec<ClientAction> = Vec::new();
        let ghost all = events@;
        let ghost start = self@;
        proof {
            lemma_views_empty::<ClientAction>();
            assert(views(all.take(0)) =~= Seq::empty());
        }
        for event in it: events
            invariant
                it.seq() == all,
                self@ == start.run(views(all.take(it.index() as int))).0,
                views(actions@) == start.run(views(all.take(it.index() as int))).1,
        {
            let ghost seen = views(all.take(it.index() as int));
            let ghost now = views(all.take(it.index() + 1));
            let ghost done = actions@;
            assert(all[it.index() as int] == event);
            let mut more = self.step(event);
            proof {
                assert(now.drop_last() =~= seen);
                assert(now.last() == event@);
                lemma_views_add(done, more@);
            }
            actions.append(&mut more);
        }
        assert(all.take(all.len() as int) =~= all);
        actions
    }
}

} // verus!
