//! What holds of every run of a client.

use crate::client::{
    is_first, is_opening, settled, without, without_first, ClientActionView, ClientEventView,
    ClientPhase, ClientView, Opening, SessionState,
};
use crate::config::client::ConfigView;
use crate::net::frame::{FrameView, RedirectorFrameView, SessionId};
use vstd::prelude::*;

verus! {

/// No session is named twice in `pending`.
pub open spec fn opened_once(pending: Seq<Opening>) -> bool {
    forall|i: int, j: int|
        0 <= i < j < pending.len() ==> (#[trigger] pending[i]).id != (#[trigger] pending[j]).id
}

impl ClientView {
    /// What holds of the registries in every state that a client reaches:
    /// - a session that has a queue has a redirector task that was started
    ///   and not yet collected, and it has one queue only;
    /// - a session is opened once at a time, and not while it has a queue;
    /// - before the handshake is done there are no sessions and no tasks,
    ///   and from then on the connection counts as established;
    /// - a draining client has no queues, and tasks left to collect;
    /// - a terminated client has neither.
    pub open spec fn inv(self) -> bool {
        &&& forall|id: SessionId| #[trigger]
            self.to_internal.contains(id) ==> self.handlers.contains(id)
        &&& self.to_internal.no_duplicates()
        &&& opened_once(self.opening)
        &&& forall|id: SessionId| #[trigger]
            is_opening(self.opening, id) ==> !self.to_internal.contains(id)
        &&& (self.phase == ClientPhase::Dialing || self.phase == ClientPhase::AwaitingAuth
            || self.phase == ClientPhase::AwaitingTunnels || self.phase
            == ClientPhase::Terminated) ==> self.to_internal.len() == 0 && self.handlers.len()
            == 0 && self.opening.len() == 0
        &&& self.phase == ClientPhase::Draining ==> self.to_internal.len() == 0
            && self.opening.len() == 0 && self.handlers.len() > 0
        &&& (self.phase == ClientPhase::Dialing || self.phase == ClientPhase::AwaitingAuth
            || self.phase == ClientPhase::AwaitingTunnels) ==> !self.established
        &&& self.phase == ClientPhase::Running ==> self.established
    }

    /// The session has no queue and is not being opened.
    pub open spec fn lacks(self, id: SessionId) -> bool {
        !self.to_internal.contains(id) && !is_opening(self.opening, id)
    }
}

/// Taking `id` out of a sequence leaves the others, in their order, and no
/// `id`.
pub proof fn lemma_without(s: Seq<SessionId>, id: SessionId)
    ensures
        forall|x: SessionId| #[trigger]
            without(s, id).contains(x) <==> s.contains(x) && x != id,
        s.no_duplicates() ==> without(s, id).no_duplicates(),
        !s.contains(id) ==> without(s, id) == s,
        without(s, id).len() <= s.len(),
    decreases s.len(),
{
    if s.len() > 0 {
        let init = s.drop_last();
        lemma_without(init, id);
        let out = without(s, id);
        assert forall|x: SessionId| #[trigger] out.contains(x) <==> s.contains(x) && x
            != id by {
            if out.contains(x) {
                let i = choose|i: int| 0 <= i < out.len() && out[i] == x;
                if s.last() != id && i == out.len() - 1 {
                    assert(s[s.len() - 1] == x);
                } else {
                    assert(without(init, id)[i] == x);
                    assert(without(init, id).contains(x));
                    let k = choose|k: int| 0 <= k < init.len() && init[k] == x;
                    assert(s[k] == x);
                }
            }
            if s.contains(x) && x != id {
                let k = choose|k: int| 0 <= k < s.len() && s[k] == x;
                if k < init.len() {
                    assert(init[k] == x);
                    assert(without(init, id).contains(x));
                    let i = choose|i: int|
                        0 <= i < without(init, id).len() && without(init, id)[i] == x;
                    assert(out[i] == x);
                } else {
                    assert(out[out.len() - 1] == x);
                }
            }
        }
        if s.no_duplicates() {
            assert(init.no_duplicates());
            if s.last() != id {
                assert forall|i: int, j: int|
                    0 <= i < out.len() && 0 <= j < out.len() && i != j implies out[i]
                    != out[j] by {
                    if i == out.len() - 1 || j == out.len() - 1 {
                        let other = if i == out.len() - 1 {
                            j
                        } else {
                            i
                        };
                        assert(without(init, id)[other] == out[other]);
                        assert(without(init, id).contains(out[other]));
                        if out[other] == s.last() {
                            let k = choose|k: int| 0 <= k < init.len() && init[k] == s.last();
                            assert(s[k] == s[s.len() - 1]);
                        }
                    }
                }
            }
        }
        if !s.contains(id) {
            assert(s[s.len() - 1] != id);
            assert forall|k: int| 0 <= k < init.len() implies init[k] != id by {
                assert(s[k] == init[k]);
            }
            assert(out =~= s);
        }
    }
}

/// Taking the first `id` out of a sequence changes nothing for the others.
pub proof fn lemma_without_first(s: Seq<SessionId>, id: SessionId)
    ensures
        forall|x: SessionId|
            x != id ==> (#[trigger] without_first(s, id).contains(x) <==> s.contains(x)),
        forall|x: SessionId| #[trigger] without_first(s, id).contains(x) ==> s.contains(x),
        s.contains(id) ==> without_first(s, id).len() == s.len() - 1,
        !s.contains(id) ==> without_first(s, id) == s,
{
    if s.contains(id) {
        lemma_first_exists(s, id, s.len() as int);
        let at = choose|i: int| is_first(s, id, i);
        let out = s.remove(at);
        assert forall|x: SessionId| #[trigger] out.contains(x) implies s.contains(x) by {
            let i = choose|i: int| 0 <= i < out.len() && out[i] == x;
            if i < at {
                assert(s[i] == x);
            } else {
                assert(s[i + 1] == x);
            }
        }
        assert forall|x: SessionId| x != id && s.contains(x) implies #[trigger] out.contains(
            x,
        ) by {
            let k = choose|k: int| 0 <= k < s.len() && s[k] == x;
            if k < at {
                assert(out[k] == x);
            } else {
                assert(out[k - 1] == x);
            }
        }
    }
}

/// Where `id` stands among the first `n` items, it has a first place.
proof fn lemma_first_exists(s: Seq<SessionId>, id: SessionId, n: int)
    requires
        0 <= n <= s.len(),
        exists|i: int| 0 <= i < n && s[i] == id,
    ensures
        exists|i: int| is_first(s, id, i),
    decreases n,
{
    if exists|i: int| 0 <= i < n - 1 && s[i] == id {
        lemma_first_exists(s, id, n - 1);
    } else {
        assert(is_first(s, id, n - 1));
    }
}

/// Giving up the opening of `id` leaves the other openings, in their
/// order, and none of `id`.
pub proof fn lemma_settled(pending: Seq<Opening>, id: SessionId)
    ensures
        !is_opening(settled(pending, id), id),
        forall|x: SessionId|
            x != id ==> (#[trigger] is_opening(settled(pending, id), x) <==> is_opening(
                pending,
                x,
            )),
        opened_once(pending) ==> opened_once(settled(pending, id)),
        !is_opening(pending, id) ==> settled(pending, id) == pending,
        forall|i: int|
            0 <= i < settled(pending, id).len() ==> is_opening(
                pending,
                (#[trigger] settled(pending, id)[i]).id,
            ) && settled(pending, id)[i].id != id,
    decreases pending.len(),
{
    if pending.len() > 0 {
        let init = pending.drop_last();
        let last = pending.last();
        let out = settled(pending, id);
        let inner = settled(init, id);
        lemma_settled(init, id);
        assert forall|i: int| 0 <= i < out.len() implies is_opening(
            pending,
            (#[trigger] out[i]).id,
        ) && out[i].id != id by {
            if last.id != id && i == out.len() - 1 {
                assert(pending[pending.len() - 1].id == out[i].id);
            } else {
                assert(inner[i] == out[i]);
                let k = choose|k: int| 0 <= k < init.len() && (#[trigger] init[k]).id == inner[i].id;
                assert(pending[k].id == out[i].id);
            }
        }
        if is_opening(out, id) {
            let i = choose|i: int| 0 <= i < out.len() && (#[trigger] out[i]).id == id;
            assert(out[i].id != id);
        }
        assert forall|x: SessionId| x != id implies (#[trigger] is_opening(out, x) <==> is_opening(
            pending,
            x,
        )) by {
            if is_opening(out, x) {
                let i = choose|i: int| 0 <= i < out.len() && (#[trigger] out[i]).id == x;
                assert(is_opening(pending, out[i].id));
            }
            if is_opening(pending, x) {
                let k = choose|k: int| 0 <= k < pending.len() && (#[trigger] pending[k]).id == x;
                if k < init.len() {
                    assert(init[k].id == x);
                    assert(is_opening(init, x));
                    assert(is_opening(inner, x));
                    let i = choose|i: int| 0 <= i < inner.len() && (#[trigger] inner[i]).id == x;
                    assert(out[i].id == x);
                } else {
                    assert(out[out.len() - 1].id == x);
                }
            }
        }
        if opened_once(pending) {
            assert forall|i: int, j: int| 0 <= i < j < init.len() implies (#[trigger] init[i]).id
                != (#[trigger] init[j]).id by {
                assert(pending[i].id != pending[j].id);
            }
            if last.id != id {
                assert forall|i: int, j: int| 0 <= i < j < out.len() implies (#[trigger] out[i]).id
                    != (#[trigger] out[j]).id by {
                    if j == out.len() - 1 {
                        assert(inner[i] == out[i]);
                        assert(is_opening(init, inner[i].id));
                        let k = choose|k: int|
                            0 <= k < init.len() && (#[trigger] init[k]).id == inner[i].id;
                        assert(pending[k].id != pending[pending.len() - 1].id);
                    } else {
                        assert(inner[i] == out[i]);
                        assert(inner[j] == out[j]);
                    }
                }
            }
        }
        if !is_opening(pending, id) {
            assert(pending[pending.len() - 1].id != id);
            assert forall|k: int| 0 <= k < init.len() implies (#[trigger] init[k]).id != id by {
                assert(pending[k].id != id);
            }
            assert(!is_opening(init, id));
            assert(out =~= pending);
        }
    }
}

/// A client that was just made has sound registries.
pub proof fn lemma_initial_inv(config: ConfigView, peer_addr: SessionId)
    ensures
        ClientView::initial(config, peer_addr).inv(),
{
    let c = ClientView::initial(config, peer_addr);
    assert forall|id: SessionId| #[trigger] is_opening(c.opening, id) implies !c.to_internal.contains(
        id,
    ) by {}
}

proof fn lemma_leave_inv(
    s: ClientView,
    outcome: Result<(), crate::net::error::Error>,
    first: Seq<ClientActionView>,
)
    ensures
        s.leave(outcome, first).0.inv(),
{
    let c = s.leave(outcome, first).0;
    assert forall|id: SessionId| #[trigger] is_opening(c.opening, id) implies !c.to_internal.contains(
        id,
    ) by {}
}

proof fn lemma_forget_inv(s: ClientView, id: SessionId)
    requires
        s.inv(),
    ensures
        forall|x: SessionId| #[trigger]
            s.forget(id).0.to_internal.contains(x) ==> s.handlers.contains(x) && x != id,
        s.forget(id).0.to_internal.no_duplicates(),
        forall|x: SessionId| #[trigger]
            is_opening(s.opening, x) ==> !s.forget(id).0.to_internal.contains(x),
{
    lemma_without(s.to_internal, id);
}

/// One event leaves the registries sound.
pub proof fn lemma_step_keeps_inv(s: ClientView, event: ClientEventView)
    requires
        s.inv(),
    ensures
        s.step(event).0.inv(),
{
    let next = s.step(event).0;
    match s.phase {
        ClientPhase::Terminated => {},
        ClientPhase::Draining => {
            if let ClientEventView::HandlerDone(id) = event {
                lemma_without_first(s.handlers, id);
            }
        },
        _ => match event {
            ClientEventView::Cancelled => {
                lemma_leave_inv(
                    s,
                    Ok(()),
                    seq![ClientActionView::AbortAll, ClientActionView::Send(FrameView::Kthxbai)],
                );
            },
            ClientEventView::TransportFailed(err) => {
                lemma_leave_inv(s, Err(err.settled()), seq![ClientActionView::AbortAll]);
            },
            _ => {
                if s.phase == ClientPhase::Running {
                    lemma_serve_keeps_inv(s, event);
                } else {
                    lemma_leave_inv(
                        s,
                        Err(crate::net::error::Error::ConnectionRefused),
                        seq![ClientActionView::AbortAll],
                    );
                }
            },
        },
    }
}

proof fn lemma_serve_keeps_inv(s: ClientView, event: ClientEventView)
    requires
        s.inv(),
        s.phase == ClientPhase::Running,
    ensures
        s.serve(event).0.inv(),
{
    let next = s.serve(event).0;
    match event {
        ClientEventView::Received(FrameView::Kthxbai) => {
            lemma_leave_inv(s, Ok(()), seq![ClientActionView::AbortAll]);
        },
        ClientEventView::Received(FrameView::Redirector(frame)) => {
            match frame {
                RedirectorFrameView::StartListener(id, port) => {
                    if !(s.to_internal.contains(id) || is_opening(s.opening, id))
                        && s.config.tunnels.contains_key(port) {
                        lemma_push_opening(s.opening, Opening { id, port });
                        assert forall|x: SessionId| #[trigger]
                            is_opening(next.opening, x) implies !next.to_internal.contains(x) by {
                            if x != id {
                                assert(is_opening(s.opening, x));
                            }
                        }
                    }
                },
                RedirectorFrameView::Datagram(_) => {},
                RedirectorFrameView::KillListener(id) => {
                    lemma_forget_inv(s, id);
                    lemma_settled(s.opening, id);
                    assert forall|x: SessionId| #[trigger]
                        is_opening(next.opening, x) implies !next.to_internal.contains(x) by {
                        assert(is_opening(s.opening, x));
                    }
                },
            }
        },
        ClientEventView::HandlerDone(id) => {
            lemma_forget_inv(s, id);
            lemma_without_first(s.handlers, id);
            assert forall|x: SessionId| #[trigger]
                next.to_internal.contains(x) implies next.handlers.contains(x) by {
                assert(s.forget(id).0.to_internal.contains(x));
            }
        },
        ClientEventView::BackendReady(id) => {
            if is_opening(s.opening, id) {
                lemma_settled(s.opening, id);
                assert forall|x: SessionId| #[trigger]
                    next.to_internal.contains(x) implies next.handlers.contains(x) by {
                    let i = choose|i: int| 0 <= i < next.to_internal.len() && next.to_internal[i] == x;
                    if i < s.to_internal.len() {
                        assert(s.to_internal[i] == x);
                        assert(s.to_internal.contains(x));
                        let k = choose|k: int| 0 <= k < s.handlers.len() && s.handlers[k] == x;
                        assert(next.handlers[k] == x);
                    } else {
                        assert(next.handlers[next.handlers.len() - 1] == x);
                    }
                }
                assert(next.to_internal.no_duplicates()) by {
                    assert forall|i: int, j: int|
                        0 <= i < next.to_internal.len() && 0 <= j < next.to_internal.len() && i
                            != j implies next.to_internal[i] != next.to_internal[j] by {
                        if i == s.to_internal.len() {
                            assert(s.to_internal[j] == next.to_internal[j]);
                            assert(s.to_internal.contains(next.to_internal[j]));
                        } else if j == s.to_internal.len() {
                            assert(s.to_internal[i] == next.to_internal[i]);
                            assert(s.to_internal.contains(next.to_internal[i]));
                        }
                    }
                }
                assert forall|x: SessionId| #[trigger]
                    is_opening(next.opening, x) implies !next.to_internal.contains(x) by {
                    assert(x != id);
                    assert(is_opening(s.opening, x));
                    if next.to_internal.contains(x) {
                        let i = choose|i: int|
                            0 <= i < next.to_internal.len() && next.to_internal[i] == x;
                        assert(s.to_internal[i] == x);
                        assert(s.to_internal.contains(x));
                    }
                }
            }
        },
        ClientEventView::BackendFailed(id) => {
            if is_opening(s.opening, id) {
                lemma_settled(s.opening, id);
                assert forall|x: SessionId| #[trigger]
                    is_opening(next.opening, x) implies !next.to_internal.contains(x) by {
                    assert(is_opening(s.opening, x));
                }
            }
        },
        ClientEventView::DeliveryFailed(id) => {
            lemma_forget_inv(s, id);
        },
        _ => {},
    }
}

proof fn lemma_push_opening(pending: Seq<Opening>, o: Opening)
    requires
        opened_once(pending),
        !is_opening(pending, o.id),
    ensures
        opened_once(pending.push(o)),
        forall|x: SessionId| #[trigger]
            is_opening(pending.push(o), x) <==> x == o.id || is_opening(pending, x),
{
    let out = pending.push(o);
    assert forall|i: int, j: int| 0 <= i < j < out.len() implies (#[trigger] out[i]).id != (
    #[trigger] out[j]).id by {
        if j == pending.len() {
            assert(pending[i].id == out[i].id);
        } else {
            assert(pending[i] == out[i]);
            assert(pending[j] == out[j]);
        }
    }
    assert forall|x: SessionId| #[trigger]
        is_opening(out, x) <==> x == o.id || is_opening(pending, x) by {
        if is_opening(out, x) {
            let i = choose|i: int| 0 <= i < out.len() && (#[trigger] out[i]).id == x;
            if i < pending.len() {
                assert(pending[i].id == x);
            }
        }
        if x == o.id {
            assert(out[out.len() - 1].id == x);
        }
        if is_opening(pending, x) {
            let i = choose|i: int| 0 <= i < pending.len() && (#[trigger] pending[i]).id == x;
            assert(out[i].id == x);
        }
    }
}

/// A run of events leaves the registries sound.
pub proof fn lemma_run_keeps_inv(s: ClientView, events: Seq<ClientEventView>)
    requires
        s.inv(),
    ensures
        s.run(events).0.inv(),
    decreases events.len(),
{
    if events.len() > 0 {
        lemma_run_keeps_inv(s, events.drop_last());
        lemma_step_keeps_inv(s.run(events.drop_last()).0, events.last());
    }
}

/// Whatever a client is told after it was made, a session that has a queue
/// has a redirector task that was started and not yet collected, and it has
/// one queue only.
pub proof fn lemma_queue_implies_live_task(
    config: ConfigView,
    peer_addr: SessionId,
    events: Seq<ClientEventView>,
    id: SessionId,
)
    ensures
        ClientView::initial(config, peer_addr).run(events).0.to_internal.contains(id)
            ==> ClientView::initial(config, peer_addr).run(events).0.handlers.contains(id),
        ClientView::initial(config, peer_addr).run(events).0.to_internal.no_duplicates(),
{
    lemma_initial_inv(config, peer_addr);
    lemma_run_keeps_inv(ClientView::initial(config, peer_addr), events);
}

/// Once a client has returned, no session has a queue, no redirector task
/// is left, and no backend is being connected.
pub proof fn lemma_terminated_is_clean(
    config: ConfigView,
    peer_addr: SessionId,
    events: Seq<ClientEventView>,
)
    ensures
        ClientView::initial(config, peer_addr).run(events).0.phase == ClientPhase::Terminated ==> {
            &&& ClientView::initial(config, peer_addr).run(events).0.to_internal.len() == 0
            &&& ClientView::initial(config, peer_addr).run(events).0.handlers.len() == 0
            &&& ClientView::initial(config, peer_addr).run(events).0.opening.len() == 0
        },
{
    lemma_initial_inv(config, peer_addr);
    lemma_run_keeps_inv(ClientView::initial(config, peer_addr), events);
}

/// A client that has returned stays as it is and asks for nothing.
pub proof fn lemma_terminated_is_silent(s: ClientView, events: Seq<ClientEventView>)
    requires
        s.phase == ClientPhase::Terminated,
    ensures
        s.run(events) == (s, Seq::<ClientActionView>::empty()),
    decreases events.len(),
{
    if events.len() > 0 {
        lemma_terminated_is_silent(s, events.drop_last());
        assert(s.run(events).1 =~= Seq::<ClientActionView>::empty());
    }
}

/// `Finish` is asked for exactly when the client terminates, as the last
/// action of the step, and with the outcome that the client holds.
pub proof fn lemma_finish_marks_termination(s: ClientView, event: ClientEventView, i: int)
    requires
        0 <= i < s.step(event).1.len(),
    ensures
        s.step(event).1[i] matches ClientActionView::Finish(outcome) ==> {
            &&& s.phase != ClientPhase::Terminated
            &&& s.step(event).0.phase == ClientPhase::Terminated
            &&& s.step(event).0.outcome == outcome
            &&& i == s.step(event).1.len() - 1
        },
{
}

/// How far a client has come.
pub open spec fn progress(phase: ClientPhase) -> nat {
    match phase {
        ClientPhase::Dialing => 0,
        ClientPhase::AwaitingAuth => 1,
        ClientPhase::AwaitingTunnels => 2,
        ClientPhase::Running => 3,
        ClientPhase::Draining => 4,
        ClientPhase::Terminated => 5,
    }
}

/// A client never goes back: it shakes hands once, in the order of the
/// handshake, runs after the handshake only, and ends for good.
pub proof fn lemma_phases_only_advance(s: ClientView, event: ClientEventView)
    ensures
        progress(s.step(event).0.phase) >= progress(s.phase),
        s.step(event).0.phase == ClientPhase::AwaitingAuth ==> s.phase
            == ClientPhase::AwaitingAuth || (s.phase == ClientPhase::Dialing && event
            == ClientEventView::Start),
        s.step(event).0.phase == ClientPhase::AwaitingTunnels ==> s.phase
            == ClientPhase::AwaitingTunnels || (s.phase == ClientPhase::AwaitingAuth && event
            matches ClientEventView::Received(FrameView::Auth(_))),
        s.step(event).0.phase == ClientPhase::Running ==> s.phase == ClientPhase::Running || (
        s.phase == ClientPhase::AwaitingTunnels && event matches ClientEventView::Received(
            FrameView::Tunnels(_),
        )),
{
}

/// Over a run of events a client never goes back.
pub proof fn lemma_run_only_advances(s: ClientView, events: Seq<ClientEventView>)
    ensures
        progress(s.run(events).0.phase) >= progress(s.phase),
    decreases events.len(),
{
    if events.len() > 0 {
        lemma_run_only_advances(s, events.drop_last());
        lemma_phases_only_advance(s.run(events.drop_last()).0, events.last());
    }
}

/// The handshake frames leave at their place in the handshake and nowhere
/// else: the key when the handshake begins, the published ports in answer to
/// the server's `Auth`.
pub proof fn lemma_handshake_frames_are_sent_in_place(
    s: ClientView,
    event: ClientEventView,
    i: int,
)
    requires
        0 <= i < s.step(event).1.len(),
    ensures
        s.step(event).1[i] matches ClientActionView::Send(FrameView::Auth(key)) ==> s.phase
            == ClientPhase::Dialing && event == ClientEventView::Start && key == s.config.psk,
        s.step(event).1[i] matches ClientActionView::Send(FrameView::Tunnels(ports)) ==> s.phase
            == ClientPhase::AwaitingAuth && (event matches ClientEventView::Received(
            FrameView::Auth(_),
        )) && ports == crate::config::client::rising(s.config.tunnels.dom()),
{
}

/// A connection counts as established from the moment the server's
/// `Tunnels` ends the handshake, and only from then.
pub proof fn lemma_established_marks_the_handshake(s: ClientView, event: ClientEventView)
    ensures
        s.step(event).0.established <==> s.established || (s.phase
            == ClientPhase::AwaitingTunnels && event matches ClientEventView::Received(
            FrameView::Tunnels(_),
        )),
{
}

/// The life of a session runs one way. It becomes active only when the
/// backend that was asked for is connected; it is opened only by the
/// server's `StartListener`, and not while it is active; and it is closing
/// only after it was opened.
pub proof fn lemma_session_life(s: ClientView, event: ClientEventView, id: SessionId)
    requires
        s.inv(),
    ensures
        s.step(event).0.session(id) == SessionState::Active ==> s.session(id)
            == SessionState::Active || (s.session(id) == SessionState::Opening && event
            == ClientEventView::BackendReady(id)),
        s.step(event).0.session(id) == SessionState::Opening ==> s.session(id)
            == SessionState::Opening || (s.session(id) != SessionState::Active && (event
            matches ClientEventView::Received(
            FrameView::Redirector(RedirectorFrameView::StartListener(x, _)),
        ) && x == id)),
        s.step(event).0.session(id) == SessionState::Closing ==> s.session(id)
            != SessionState::Closed,
{
    let next = s.step(event).0;
    lemma_step_keeps_inv(s, event);
    if s.phase == ClientPhase::Running {
        match event {
            ClientEventView::Received(FrameView::Redirector(frame)) => {
                match frame {
                    RedirectorFrameView::StartListener(x, port) => {
                        if !(s.to_internal.contains(x) || is_opening(s.opening, x))
                            && s.config.tunnels.contains_key(port) {
                            lemma_push_opening(s.opening, Opening { id: x, port });
                        }
                    },
                    RedirectorFrameView::Datagram(_) => {},
                    RedirectorFrameView::KillListener(x) => {
                        lemma_without(s.to_internal, x);
                        lemma_settled(s.opening, x);
                        if x != id {
                            assert(is_opening(next.opening, id) <==> is_opening(s.opening, id));
                        }
                    },
                }
            },
            ClientEventView::HandlerDone(x) => {
                lemma_without(s.to_internal, x);
                lemma_without_first(s.handlers, x);
            },
            ClientEventView::DeliveryFailed(x) => {
                lemma_without(s.to_internal, x);
            },
            ClientEventView::BackendReady(x) => {
                if is_opening(s.opening, x) {
                    lemma_settled(s.opening, x);
                    if x != id {
                        assert(is_opening(next.opening, id) <==> is_opening(s.opening, id));
                    }
                    if next.to_internal.contains(id) {
                        let i = choose|i: int|
                            0 <= i < next.to_internal.len() && next.to_internal[i] == id;
                        if i < s.to_internal.len() {
                            assert(s.to_internal[i] == id);
                        }
                    }
                    if next.handlers.contains(id) {
                        let i = choose|i: int|
                            0 <= i < next.handlers.len() && next.handlers[i] == id;
                        if i < s.handlers.len() {
                            assert(s.handlers[i] == id);
                        }
                    }
                }
            },
            ClientEventView::BackendFailed(x) => {
                if is_opening(s.opening, x) {
                    lemma_settled(s.opening, x);
                    if x != id {
                        assert(is_opening(next.opening, id) <==> is_opening(s.opening, id));
                    }
                }
            },
            _ => {},
        }
    } else if s.phase == ClientPhase::Draining {
        if let ClientEventView::HandlerDone(x) = event {
            lemma_without_first(s.handlers, x);
        }
    }
}

/// A client that is draining or has returned asks for nothing but, once, to
/// finish: it sends no frame, connects no backend, starts no redirector and
/// delivers nothing, and its registries stay empty.
pub proof fn lemma_nothing_after_the_end(s: ClientView, events: Seq<ClientEventView>, i: int)
    requires
        s.inv(),
        s.phase == ClientPhase::Draining || s.phase == ClientPhase::Terminated,
    ensures
        s.run(events).0.phase == ClientPhase::Draining || s.run(events).0.phase
            == ClientPhase::Terminated,
        s.run(events).0.to_internal.len() == 0,
        s.run(events).0.opening.len() == 0,
        s.run(events).0.outcome == s.outcome,
        0 <= i < s.run(events).1.len() ==> s.run(events).1[i] == ClientActionView::Finish(
            s.outcome,
        ),
    decreases events.len(),
{
    if events.len() > 0 {
        let before = s.run(events.drop_last());
        lemma_nothing_after_the_end(s, events.drop_last(), i);
        lemma_run_keeps_inv(s, events.drop_last());
        if before.1.len() <= i < s.run(events).1.len() {
            assert(s.run(events).1[i] == before.0.step(events.last()).1[i - before.1.len()]);
        }
    }
}

/// The client makes up no payload: a session frame that it sends is either
/// the very frame that a redirector put on the queue to the server, or a
/// `KillListener`; and it sends no datagram outside the session frames.
pub proof fn lemma_client_originates_no_datagram(s: ClientView, event: ClientEventView, i: int)
    requires
        0 <= i < s.step(event).1.len(),
    ensures
        s.step(event).1[i] matches ClientActionView::Send(FrameView::Redirector(frame)) ==> event
            == ClientEventView::Outbound(frame) || frame is KillListener,
        !(s.step(event).1[i] matches ClientActionView::Send(FrameView::Datagram(_))),
{
}

/// What is delivered to a session is a datagram that the server sent for
/// that very session, and the session has a queue.
pub proof fn lemma_deliveries_bear_session_id(s: ClientView, event: ClientEventView, i: int)
    requires
        0 <= i < s.step(event).1.len(),
    ensures
        s.step(event).1[i] matches ClientActionView::Deliver { id, frame } ==> {
            &&& frame is Datagram
            &&& frame.id() == id
            &&& event == ClientEventView::Received(FrameView::Redirector(frame))
            &&& s.to_internal.contains(id)
        },
{
}

/// A `KillListener` from the server asks for no frame, and a second one for
/// the same session changes nothing and asks for nothing.
pub proof fn lemma_kill_listener_is_idempotent(s: ClientView, id: SessionId)
    ensures
        ({
            let kill = ClientEventView::Received(
                FrameView::Redirector(RedirectorFrameView::KillListener(id)),
            );
            &&& s.step(kill).0.step(kill) == (s.step(kill).0, Seq::<ClientActionView>::empty())
            &&& forall|i: int|
                0 <= i < s.step(kill).1.len() ==> !(#[trigger] s.step(kill).1[i]
                    is Send)
        }),
{
    let kill = ClientEventView::Received(
        FrameView::Redirector(RedirectorFrameView::KillListener(id)),
    );
    let once = s.step(kill).0;
    if s.phase == ClientPhase::Running {
        lemma_without(s.to_internal, id);
        lemma_settled(s.opening, id);
        lemma_without(once.to_internal, id);
        lemma_settled(once.opening, id);
        assert(once.step(kill).0 == once);
    }
}

/// The session has no queue and is not being opened after the server's
/// `KillListener` for it.
pub proof fn lemma_kill_listener_closes(s: ClientView, id: SessionId)
    requires
        s.inv(),
    ensures
        s.step(
            ClientEventView::Received(FrameView::Redirector(RedirectorFrameView::KillListener(id))),
        ).0.lacks(id),
{
    let kill = ClientEventView::Received(
        FrameView::Redirector(RedirectorFrameView::KillListener(id)),
    );
    lemma_without(s.to_internal, id);
    lemma_settled(s.opening, id);
    lemma_step_keeps_inv(s, kill);
    let next = s.step(kill).0;
    if next.phase != ClientPhase::Running {
        assert(next.to_internal.len() == 0);
        assert(next.opening.len() == 0);
    }
}

/// No event in `events` opens the session `id`.
pub open spec fn never_reopened(events: Seq<ClientEventView>, id: SessionId) -> bool {
    forall|i: int|
        0 <= i < events.len() ==> !(#[trigger] events[i] matches ClientEventView::Received(
            FrameView::Redirector(RedirectorFrameView::StartListener(x, _)),
        ) && x == id)
}

proof fn lemma_lacking_step(s: ClientView, event: ClientEventView, id: SessionId)
    requires
        s.lacks(id),
        !(event matches ClientEventView::Received(
            FrameView::Redirector(RedirectorFrameView::StartListener(x, _)),
        ) && x == id),
    ensures
        s.step(event).0.lacks(id),
        forall|i: int|
            0 <= i < s.step(event).1.len() ==> {
                &&& !(#[trigger] s.step(event).1[i] matches ClientActionView::Deliver {
                    id: x,
                    ..
                } && x == id)
                &&& !(s.step(event).1[i] matches ClientActionView::Spawn { id: x, .. } && x == id)
                &&& !(s.step(event).1[i] matches ClientActionView::Connect { id: x, .. } && x
                    == id)
            },
{
    let next = s.step(event).0;
    if s.phase == ClientPhase::Running {
        match event {
            ClientEventView::Received(FrameView::Redirector(frame)) => {
                match frame {
                    RedirectorFrameView::StartListener(x, port) => {
                        if !(s.to_internal.contains(x) || is_opening(s.opening, x))
                            && s.config.tunnels.contains_key(port) {
                            if is_opening(next.opening, id) {
                                let i = choose|i: int|
                                    0 <= i < next.opening.len() && (#[trigger] next.opening[i]).id
                                        == id;
                                if i < s.opening.len() {
                                    assert(s.opening[i].id == id);
                                }
                            }
                        }
                    },
                    RedirectorFrameView::Datagram(_) => {},
                    RedirectorFrameView::KillListener(x) => {
                        lemma_without(s.to_internal, x);
                        lemma_settled(s.opening, x);
                        if x != id {
                            assert(is_opening(next.opening, id) <==> is_opening(s.opening, id));
                        }
                    },
                }
            },
            ClientEventView::HandlerDone(x) => {
                lemma_without(s.to_internal, x);
            },
            ClientEventView::DeliveryFailed(x) => {
                lemma_without(s.to_internal, x);
            },
            ClientEventView::BackendReady(x) => {
                if is_opening(s.opening, x) {
                    lemma_settled(s.opening, x);
                    assert(x != id);
                    assert(is_opening(next.opening, id) <==> is_opening(s.opening, id));
                    if next.to_internal.contains(id) {
                        let i = choose|i: int|
                            0 <= i < next.to_internal.len() && next.to_internal[i] == id;
                        assert(s.to_internal[i] == id);
                    }
                }
            },
            ClientEventView::BackendFailed(x) => {
                if is_opening(s.opening, x) {
                    lemma_settled(s.opening, x);
                    assert(is_opening(next.opening, id) <==> is_opening(s.opening, id));
                }
            },
            _ => {},
        }
    }
}

/// After the server's `KillListener` for a session, nothing is delivered to
/// that session, and no backend is connected or redirector started for it,
/// until a `StartListener` opens it again.
pub proof fn lemma_nothing_delivered_after_kill(
    s: ClientView,
    id: SessionId,
    later: Seq<ClientEventView>,
    i: int,
)
    requires
        s.inv(),
        never_reopened(later, id),
        0 <= i < s.step(
            ClientEventView::Received(FrameView::Redirector(RedirectorFrameView::KillListener(id))),
        ).0.run(later).1.len(),
    ensures
        ({
            let action = s.step(
                ClientEventView::Received(
                    FrameView::Redirector(RedirectorFrameView::KillListener(id)),
                ),
            ).0.run(later).1[i];
            &&& !(action matches ClientActionView::Deliver { id: x, .. } && x == id)
            &&& !(action matches ClientActionView::Spawn { id: x, .. } && x == id)
            &&& !(action matches ClientActionView::Connect { id: x, .. } && x == id)
        }),
{
    lemma_kill_listener_closes(s, id);
    let killed = s.step(
        ClientEventView::Received(FrameView::Redirector(RedirectorFrameView::KillListener(id))),
    ).0;
    lemma_lacking_run(killed, later, id, i);
}

proof fn lemma_lacking_run(s: ClientView, events: Seq<ClientEventView>, id: SessionId, i: int)
    requires
        s.lacks(id),
        never_reopened(events, id),
    ensures
        s.run(events).0.lacks(id),
        0 <= i < s.run(events).1.len() ==> {
            &&& !(s.run(events).1[i] matches ClientActionView::Deliver { id: x, .. } && x == id)
            &&& !(s.run(events).1[i] matches ClientActionView::Spawn { id: x, .. } && x == id)
            &&& !(s.run(events).1[i] matches ClientActionView::Connect { id: x, .. } && x == id)
        },
    decreases events.len(),
{
    if events.len() > 0 {
        let init = events.drop_last();
        assert forall|k: int| 0 <= k < init.len() implies !(#[trigger] init[k]
            matches ClientEventView::Received(
            FrameView::Redirector(RedirectorFrameView::StartListener(x, _)),
        ) && x == id) by {
            assert(init[k] == events[k]);
        }
        lemma_lacking_run(s, init, id, i);
        let before = s.run(init);
        assert(events.last() == events[events.len() - 1]);
        lemma_lacking_step(before.0, events.last(), id);
        if before.1.len() <= i < s.run(events).1.len() {
            assert(s.run(events).1[i] == before.0.step(events.last()).1[i - before.1.len()]);
        }
    }
}

} // verus!
