//! What holds of every run of a redirector.

use crate::net::frame::{DatagramView, RedirectorFrameView, SessionId};
use crate::redirector::{
    chunk, chunk_count, datagrams, emits, RedirectorActionView, RedirectorEventView,
    RedirectorView, BUFFER_CAPACITY, IDLE_TIMEOUT,
};
use vstd::prelude::*;

verus! {

/// The payload of the datagrams among `actions`, in order.
pub open spec fn emitted_bytes(actions: Seq<RedirectorActionView>) -> Seq<u8>
    decreases actions.len(),
{
    if actions.len() == 0 {
        Seq::empty()
    } else {
        emitted_bytes(actions.drop_last()) + match actions.last() {
            RedirectorActionView::Emit(RedirectorFrameView::Datagram(d)) => d.data,
            _ => Seq::empty(),
        }
    }
}

/// The bytes that `actions` hand to the backend, in order.
pub open spec fn written_bytes(actions: Seq<RedirectorActionView>) -> Seq<u8>
    decreases actions.len(),
{
    if actions.len() == 0 {
        Seq::empty()
    } else {
        written_bytes(actions.drop_last()) + match actions.last() {
            RedirectorActionView::Write(data) => data,
            _ => Seq::empty(),
        }
    }
}

/// The bytes that the backend gave while the session ran, in the order of
/// the reads.
pub open spec fn bytes_read(s: RedirectorView, events: Seq<RedirectorEventView>) -> Seq<u8>
    decreases events.len(),
{
    if events.len() == 0 {
        Seq::empty()
    } else {
        bytes_read(s, events.drop_last()) + match events.last() {
            RedirectorEventView::BackendRead { data, .. } => if s.run(events.drop_last()).0.open {
                data
            } else {
                Seq::empty()
            },
            _ => Seq::empty(),
        }
    }
}

/// The payload of the datagrams that reached the session while it ran, in
/// the order of their arrival.
pub open spec fn bytes_delivered(s: RedirectorView, events: Seq<RedirectorEventView>) -> Seq<u8>
    decreases events.len(),
{
    if events.len() == 0 {
        Seq::empty()
    } else {
        bytes_delivered(s, events.drop_last()) + match events.last() {
            RedirectorEventView::Inbound(RedirectorFrameView::Datagram(d)) => if s.run(
                events.drop_last(),
            ).0.open {
                d.data
            } else {
                Seq::empty()
            },
            _ => Seq::empty(),
        }
    }
}

proof fn lemma_emitted_bytes_add(a: Seq<RedirectorActionView>, b: Seq<RedirectorActionView>)
    ensures
        emitted_bytes(a + b) == emitted_bytes(a) + emitted_bytes(b),
    decreases b.len(),
{
    if b.len() == 0 {
        assert(a + b =~= a);
        assert(emitted_bytes(a) + emitted_bytes(b) =~= emitted_bytes(a));
    } else {
        lemma_emitted_bytes_add(a, b.drop_last());
        assert((a + b).drop_last() =~= a + b.drop_last());
        assert((a + b).last() == b.last());
        let tail = match b.last() {
            RedirectorActionView::Emit(RedirectorFrameView::Datagram(d)) => d.data,
            _ => Seq::empty(),
        };
        assert(emitted_bytes(a + b) =~= emitted_bytes(a) + (emitted_bytes(b.drop_last()) + tail));
    }
}

proof fn lemma_written_bytes_add(a: Seq<RedirectorActionView>, b: Seq<RedirectorActionView>)
    ensures
        written_bytes(a + b) == written_bytes(a) + written_bytes(b),
    decreases b.len(),
{
    if b.len() == 0 {
        assert(a + b =~= a);
        assert(written_bytes(a) + written_bytes(b) =~= written_bytes(a));
    } else {
        lemma_written_bytes_add(a, b.drop_last());
        assert((a + b).drop_last() =~= a + b.drop_last());
        assert((a + b).last() == b.last());
        let tail = match b.last() {
            RedirectorActionView::Write(data) => data,
            _ => Seq::empty(),
        };
        assert(written_bytes(a + b) =~= written_bytes(a) + (written_bytes(b.drop_last()) + tail));
    }
}

/// The first `k` datagrams of `data` carry its first `k * BUFFER_CAPACITY`
/// bytes, or all of it.
proof fn lemma_pieces_rebuild_prefix(id: SessionId, port: u16, data: Seq<u8>, k: nat)
    requires
        k <= chunk_count(data.len()),
    ensures
        emitted_bytes(emits(datagrams(id, port, data)).take(k as int)) == data.take(
            if k * BUFFER_CAPACITY <= data.len() {
                k * BUFFER_CAPACITY
            } else {
                data.len() as int
            },
        ),
    decreases k,
{
    let all = emits(datagrams(id, port, data));
    if k == 0 {
        assert(all.take(0) =~= Seq::empty());
        assert(data.take(0) =~= Seq::empty());
    } else {
        lemma_pieces_rebuild_prefix(id, port, data, (k - 1) as nat);
        let upto = all.take(k as int);
        assert(upto.drop_last() =~= all.take(k - 1));
        assert(upto.last() == RedirectorActionView::Emit(
            RedirectorFrameView::Datagram(DatagramView { id, port, data: chunk(data, k - 1) }),
        ));
        assert((k - 1) * BUFFER_CAPACITY < data.len());
        let end = if k * BUFFER_CAPACITY <= data.len() {
            k * BUFFER_CAPACITY
        } else {
            data.len() as int
        };
        assert(data.take((k - 1) * BUFFER_CAPACITY) + chunk(data, k - 1) =~= data.take(end));
    }
}

/// The datagrams that a read is cut into carry what was read.
pub proof fn lemma_datagrams_carry_the_data(id: SessionId, port: u16, data: Seq<u8>)
    ensures
        emitted_bytes(emits(datagrams(id, port, data))) == data,
{
    let all = emits(datagrams(id, port, data));
    lemma_pieces_rebuild_prefix(id, port, data, chunk_count(data.len()));
    assert(all.take(all.len() as int) =~= all);
    assert(data.take(data.len() as int) =~= data);
}

/// A read of at most `BUFFER_CAPACITY` bytes leaves in one frame. A longer
/// one leaves in several: each but the last is full, the last is not empty,
/// and they follow each other in the order of the bytes.
pub proof fn lemma_frames_by_capacity(id: SessionId, port: u16, data: Seq<u8>)
    ensures
        0 < data.len() <= BUFFER_CAPACITY ==> datagrams(id, port, data) == seq![
            RedirectorFrameView::Datagram(DatagramView { id, port, data }),
        ],
        data.len() > BUFFER_CAPACITY ==> datagrams(id, port, data).len() >= 2,
        forall|i: int|
            0 <= i < datagrams(id, port, data).len() ==> {
                &&& #[trigger] datagrams(id, port, data)[i] == RedirectorFrameView::Datagram(
                    DatagramView { id, port, data: chunk(data, i) },
                )
                &&& 0 < chunk(data, i).len() <= BUFFER_CAPACITY
                &&& i + 1 < datagrams(id, port, data).len() ==> chunk(data, i).len()
                    == BUFFER_CAPACITY
                &&& chunk(data, i) == data.subrange(
                    i * BUFFER_CAPACITY,
                    i * BUFFER_CAPACITY + chunk(data, i).len(),
                )
            },
{
    if 0 < data.len() <= BUFFER_CAPACITY {
        assert(chunk(data, 0) =~= data);
        assert(datagrams(id, port, data) =~= seq![
            RedirectorFrameView::Datagram(DatagramView { id, port, data }),
        ]);
    }
}

proof fn lemma_step_emits_what_was_read(s: RedirectorView, e: RedirectorEventView)
    ensures
        emitted_bytes(s.step(e).1) == match e {
            RedirectorEventView::BackendRead { data, .. } => if s.open {
                data
            } else {
                Seq::empty()
            },
            _ => Seq::empty(),
        },
{
    let acts = s.step(e).1;
    if acts.len() == 0 {
        if s.open {
            if let RedirectorEventView::BackendRead { data, .. } = e {
                assert(chunk_count(data.len()) == 0);
                assert(data =~= Seq::empty());
            }
        }
    } else if let RedirectorEventView::BackendRead { data, .. } = e {
        if data.len() == 0 {
            reveal_with_fuel(emitted_bytes, 3);
            assert(emitted_bytes(acts) =~= Seq::empty());
        } else {
            lemma_datagrams_carry_the_data(s.id, s.port, data);
        }
    } else {
        reveal_with_fuel(emitted_bytes, 2);
        assert(emitted_bytes(acts) =~= Seq::empty());
    }
}

proof fn lemma_step_writes_what_arrived(s: RedirectorView, e: RedirectorEventView)
    ensures
        written_bytes(s.step(e).1) == match e {
            RedirectorEventView::Inbound(RedirectorFrameView::Datagram(d)) => if s.open {
                d.data
            } else {
                Seq::empty()
            },
            _ => Seq::empty(),
        },
{
    let acts = s.step(e).1;
    if acts.len() == 0 {
    } else if let RedirectorEventView::BackendRead { data, .. } = e {
        if data.len() == 0 {
            reveal_with_fuel(written_bytes, 3);
            assert(written_bytes(acts) =~= Seq::empty());
        } else {
            lemma_emits_write_nothing(datagrams(s.id, s.port, data), acts.len());
            assert(acts.take(acts.len() as int) =~= acts);
        }
    } else {
        reveal_with_fuel(written_bytes, 2);
        if let RedirectorEventView::Inbound(RedirectorFrameView::Datagram(d)) = e {
            assert(written_bytes(acts) =~= d.data);
        } else {
            assert(written_bytes(acts) =~= Seq::empty());
        }
    }
}

proof fn lemma_emits_write_nothing(frames: Seq<RedirectorFrameView>, k: nat)
    requires
        k <= frames.len(),
    ensures
        written_bytes(emits(frames).take(k as int)) == Seq::<u8>::empty(),
    decreases k,
{
    if k > 0 {
        lemma_emits_write_nothing(frames, (k - 1) as nat);
        assert(emits(frames).take(k as int).drop_last() =~= emits(frames).take(k - 1));
        assert(written_bytes(emits(frames).take(k as int)) =~= Seq::<u8>::empty());
    } else {
        assert(emits(frames).take(0) =~= Seq::empty());
    }
}

/// Every byte that the backend gives while the session runs leaves in the
/// datagrams of the session exactly once, in the order in which it was read.
pub proof fn lemma_backend_bytes_leave_once_in_order(
    s: RedirectorView,
    events: Seq<RedirectorEventView>,
)
    ensures
        emitted_bytes(s.run(events).1) == bytes_read(s, events),
    decreases events.len(),
{
    if events.len() > 0 {
        let before = s.run(events.drop_last());
        lemma_backend_bytes_leave_once_in_order(s, events.drop_last());
        lemma_step_emits_what_was_read(before.0, events.last());
        lemma_emitted_bytes_add(before.1, before.0.step(events.last()).1);
    }
}

/// The payload of every datagram that reaches a running session is handed to
/// the backend exactly once, in the order of arrival.
pub proof fn lemma_delivered_bytes_written_once_in_order(
    s: RedirectorView,
    events: Seq<RedirectorEventView>,
)
    ensures
        written_bytes(s.run(events).1) == bytes_delivered(s, events),
    decreases events.len(),
{
    if events.len() > 0 {
        let before = s.run(events.drop_last());
        lemma_delivered_bytes_written_once_in_order(s, events.drop_last());
        lemma_step_writes_what_arrived(before.0, events.last());
        lemma_written_bytes_add(before.1, before.0.step(events.last()).1);
    }
}

/// A session never changes its name or its port, and once closed it stays
/// closed.
pub proof fn lemma_identity_is_kept(s: RedirectorView, events: Seq<RedirectorEventView>)
    ensures
        s.run(events).0.id == s.id,
        s.run(events).0.port == s.port,
        !s.open ==> !s.run(events).0.open,
    decreases events.len(),
{
    if events.len() > 0 {
        lemma_identity_is_kept(s, events.drop_last());
    }
}

/// Every frame that a session puts on the queue to the client bears the
/// session's own name, and every datagram among them its port and between
/// one and `BUFFER_CAPACITY` bytes.
pub proof fn lemma_frames_bear_own_id(
    s: RedirectorView,
    events: Seq<RedirectorEventView>,
    i: int,
)
    requires
        0 <= i < s.run(events).1.len(),
    ensures
        s.run(events).1[i] matches RedirectorActionView::Emit(frame) ==> frame.id() == s.id,
        s.run(events).1[i] matches RedirectorActionView::Emit(
            RedirectorFrameView::Datagram(d),
        ) ==> d.port == s.port && 0 < d.data.len() <= BUFFER_CAPACITY,
    decreases events.len(),
{
    if events.len() > 0 {
        let before = s.run(events.drop_last());
        lemma_identity_is_kept(s, events.drop_last());
        if i < before.1.len() {
            lemma_frames_bear_own_id(s, events.drop_last(), i);
        } else {
            let j = i - before.1.len();
            let e = events.last();
            assert(s.run(events).1[i] == before.0.step(e).1[j]);
            if let RedirectorEventView::BackendRead { data, .. } = e {
                if before.0.open && data.len() > 0 {
                    lemma_frames_by_capacity(before.0.id, before.0.port, data);
                    assert(before.0.step(e).1[j] == RedirectorActionView::Emit(
                        datagrams(before.0.id, before.0.port, data)[j],
                    ));
                }
            }
        }
    }
}

/// A closed session asks for nothing, whatever it is told.
pub proof fn lemma_closed_is_silent(s: RedirectorView, events: Seq<RedirectorEventView>)
    requires
        !s.open,
    ensures
        s.run(events) == (s, Seq::<RedirectorActionView>::empty()),
    decreases events.len(),
{
    if events.len() > 0 {
        lemma_closed_is_silent(s, events.drop_last());
        assert(s.run(events).1 =~= Seq::<RedirectorActionView>::empty());
    }
}

/// Once a session has seen a `KillListener`, be it the client's or its own
/// at the end of the backend, it emits no frame any more.
pub proof fn lemma_nothing_after_kill(
    s: RedirectorView,
    event: RedirectorEventView,
    later: Seq<RedirectorEventView>,
)
    requires
        s.open,
        (event matches RedirectorEventView::Inbound(RedirectorFrameView::KillListener(_)))
            || exists|i: int|
            0 <= i < s.step(event).1.len() && (#[trigger] s.step(event).1[i]
                matches RedirectorActionView::Emit(RedirectorFrameView::KillListener(_))),
    ensures
        !s.step(event).0.open,
        s.step(event).0.run(later).1 == Seq::<RedirectorActionView>::empty(),
{
    if !(event matches RedirectorEventView::Inbound(RedirectorFrameView::KillListener(_))) {
        let i = choose|i: int|
            0 <= i < s.step(event).1.len() && (#[trigger] s.step(event).1[i]
                matches RedirectorActionView::Emit(RedirectorFrameView::KillListener(_)));
        if let RedirectorEventView::BackendRead { data, .. } = event {
            if data.len() > 0 {
                lemma_frames_by_capacity(s.id, s.port, data);
                assert(s.step(event).1[i] == RedirectorActionView::Emit(
                    datagrams(s.id, s.port, data)[i],
                ));
            }
        }
    }
    lemma_closed_is_silent(s.step(event).0, later);
}

/// A tick ends a running session if and only if `IDLE_TIMEOUT` or more has
/// passed since the last read or write at the backend.
pub proof fn lemma_idle_timeout_is_exact(s: RedirectorView, now: u64)
    requires
        s.open,
    ensures
        !s.step(RedirectorEventView::Tick { now }).0.open <==> now - s.last_activity
            >= IDLE_TIMEOUT,
        s.step(RedirectorEventView::Tick { now }).1 == if now - s.last_activity >= IDLE_TIMEOUT {
            seq![RedirectorActionView::Close]
        } else {
            Seq::empty()
        },
{
}

} // verus!
