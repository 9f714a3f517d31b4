use simple_tunnel::client::{Client, ClientAction, ClientEvent, ClientPhase, SessionState};
use simple_tunnel::config::client::{
    de_tunnels, default_mtu, localhost_ipv4, ChannelLimits, Config, CryptoConfig,
    TransportTimeouts, Tunnel,
};
use simple_tunnel::net::error::{Error, IoErrorKind};
use simple_tunnel::net::frame::{Datagram, Frame, LimitedString, RedirectorFrame, SessionId};

fn server() -> SessionId {
    SessionId::V4 { ip: 0x7f00_0001, port: 12000 }
}

fn peer(n: u16) -> SessionId {
    SessionId::V4 { ip: 0xcb00_7100 + n as u32, port: 40000 + n }
}

fn tunnel(remote_port: u16, local_port: u16) -> Tunnel {
    Tunnel { remote_port, local_hostname: localhost_ipv4(), local_port, crypto: None }
}

fn config() -> Config {
    Config {
        psk: String::from("abcd"),
        addr: String::from("127.0.0.1"),
        port: 12000,
        mtu: default_mtu(),
        tunnels: de_tunnels(vec![tunnel(10001, 8081), tunnel(10000, 8080)]),
        timeouts: TransportTimeouts { keepalive: None },
        channel_limits: ChannelLimits { core: 32 },
        crypto: None,
    }
}

fn received(frame: RedirectorFrame) -> ClientEvent {
    ClientEvent::Received(Frame::Redirector(frame))
}

fn kill(id: SessionId) -> RedirectorFrame {
    RedirectorFrame::KillListener(id)
}

fn datagram(id: SessionId, data: &[u8]) -> RedirectorFrame {
    RedirectorFrame::Datagram(Datagram { id, port: 10000, data: data.to_vec() })
}

fn running() -> Client {
    let mut c = Client::new(config(), server());
    c.run(vec![
        ClientEvent::Start,
        ClientEvent::Received(Frame::Auth(LimitedString(String::from("abcd")))),
        ClientEvent::Received(Frame::Tunnels(vec![10000, 10001])),
    ]);
    assert_eq!(c.phase(), ClientPhase::Running);
    c
}

fn with_session(id: SessionId) -> Client {
    let mut c = running();
    c.run(vec![
        received(RedirectorFrame::StartListener(id, 10000)),
        ClientEvent::BackendReady(id),
    ]);
    assert!(c.has_session(id));
    c
}

#[test]
fn a_new_client_has_done_nothing() {
    let c = Client::new(config(), server());
    assert_eq!(c.phase(), ClientPhase::Dialing);
    assert_eq!(c.peer_addr(), server());
    assert_eq!(c.outcome(), Ok(()));
    assert!(!c.established());
    assert_eq!(c.sessions(), 0);
    assert_eq!(c.live_handlers(), 0);
    assert_eq!(c.config().psk, "abcd");
}

#[test]
fn a_connection_is_established_by_the_handshake() {
    let mut c = Client::new(config(), server());
    c.step(ClientEvent::Start);
    assert!(!c.established());
    c.step(ClientEvent::Received(Frame::Auth(LimitedString(String::new()))));
    assert!(!c.established());
    c.step(ClientEvent::Received(Frame::Tunnels(vec![])));
    assert!(c.established());
    c.step(ClientEvent::TransportFailed(Error::ConnectionDead));
    assert_eq!(c.phase(), ClientPhase::Terminated);
    assert!(c.established());
}

#[test]
fn a_refused_handshake_establishes_nothing() {
    let mut c = Client::new(config(), server());
    c.step(ClientEvent::Start);
    c.step(ClientEvent::Received(Frame::Kthxbai));
    assert_eq!(c.phase(), ClientPhase::Terminated);
    assert!(!c.established());
}

#[test]
fn the_handshake_sends_the_key_first() {
    let mut c = Client::new(config(), server());
    assert_eq!(
        c.step(ClientEvent::Start),
        vec![ClientAction::Send(Frame::Auth(LimitedString(String::from("abcd"))))]
    );
    assert_eq!(c.phase(), ClientPhase::AwaitingAuth);
}

#[test]
fn the_servers_auth_is_answered_with_the_ports() {
    let mut c = Client::new(config(), server());
    c.step(ClientEvent::Start);
    assert_eq!(
        c.step(ClientEvent::Received(Frame::Auth(LimitedString(String::new())))),
        vec![ClientAction::Send(Frame::Tunnels(vec![10000, 10001]))]
    );
    assert_eq!(c.phase(), ClientPhase::AwaitingTunnels);
}

#[test]
fn the_servers_tunnels_end_the_handshake() {
    let mut c = Client::new(config(), server());
    c.step(ClientEvent::Start);
    c.step(ClientEvent::Received(Frame::Auth(LimitedString(String::new()))));
    assert_eq!(c.step(ClientEvent::Received(Frame::Tunnels(vec![]))), vec![]);
    assert_eq!(c.phase(), ClientPhase::Running);
}

#[test]
fn another_frame_in_place_of_auth_is_a_refusal() {
    for frame in [
        Frame::Tunnels(vec![10000]),
        Frame::Heartbeat,
        Frame::Kthxbai,
        Frame::NewProxy(1),
        Frame::Redirector(kill(peer(1))),
    ] {
        let mut c = Client::new(config(), server());
        c.step(ClientEvent::Start);
        assert_eq!(
            c.step(ClientEvent::Received(frame)),
            vec![ClientAction::AbortAll, ClientAction::Finish(Err(Error::ConnectionRefused))]
        );
        assert_eq!(c.phase(), ClientPhase::Terminated);
        assert_eq!(c.outcome(), Err(Error::ConnectionRefused));
    }
}

#[test]
fn another_frame_in_place_of_tunnels_is_a_refusal() {
    let mut c = Client::new(config(), server());
    c.step(ClientEvent::Start);
    c.step(ClientEvent::Received(Frame::Auth(LimitedString(String::new()))));
    assert_eq!(
        c.step(ClientEvent::Received(Frame::Auth(LimitedString(String::new())))),
        vec![ClientAction::AbortAll, ClientAction::Finish(Err(Error::ConnectionRefused))]
    );
    assert_eq!(c.phase(), ClientPhase::Terminated);
}

#[test]
fn a_reconnectable_failure_in_the_handshake_is_a_dead_connection() {
    let mut c = Client::new(config(), server());
    c.step(ClientEvent::Start);
    assert_eq!(
        c.step(ClientEvent::TransportFailed(Error::Io(IoErrorKind::ConnectionReset))),
        vec![ClientAction::AbortAll, ClientAction::Finish(Err(Error::ConnectionDead))]
    );
}

#[test]
fn frames_before_the_start_are_ignored() {
    let mut c = Client::new(config(), server());
    assert_eq!(c.step(ClientEvent::Received(Frame::Heartbeat)), vec![]);
    assert_eq!(c.step(received(RedirectorFrame::StartListener(peer(1), 10000))), vec![]);
    assert_eq!(c.phase(), ClientPhase::Dialing);
}

#[test]
fn a_heartbeat_is_echoed() {
    let mut c = running();
    assert_eq!(
        c.step(ClientEvent::Received(Frame::Heartbeat)),
        vec![ClientAction::Send(Frame::Heartbeat)]
    );
    assert_eq!(c.phase(), ClientPhase::Running);
}

#[test]
fn unexpected_frames_are_ignored_while_running() {
    let mut c = running();
    for frame in [
        Frame::Auth(LimitedString(String::from("x"))),
        Frame::Tunnels(vec![1]),
        Frame::NewProxy(7),
        Frame::Datagram(Datagram { id: peer(1), port: 1, data: vec![1] }),
    ] {
        assert_eq!(c.step(ClientEvent::Received(frame)), vec![]);
    }
    assert_eq!(c.step(ClientEvent::Start), vec![]);
    assert_eq!(c.phase(), ClientPhase::Running);
}

#[test]
fn the_servers_goodbye_ends_the_client_gracefully() {
    let mut c = running();
    assert_eq!(
        c.step(ClientEvent::Received(Frame::Kthxbai)),
        vec![ClientAction::AbortAll, ClientAction::Finish(Ok(()))]
    );
    assert_eq!(c.phase(), ClientPhase::Terminated);
    assert_eq!(c.outcome(), Ok(()));
}

#[test]
fn a_start_listener_connects_the_backend_of_its_tunnel() {
    let mut c = running();
    assert_eq!(
        c.step(received(RedirectorFrame::StartListener(peer(1), 10001))),
        vec![ClientAction::Connect { id: peer(1), tunnel: tunnel(10001, 8081) }]
    );
    assert!(!c.has_session(peer(1)));
    assert_eq!(c.live_handlers(), 0);
}

#[test]
fn a_connected_backend_gets_its_redirector() {
    let mut c = running();
    c.step(received(RedirectorFrame::StartListener(peer(1), 10001)));
    assert_eq!(
        c.step(ClientEvent::BackendReady(peer(1))),
        vec![ClientAction::Spawn { id: peer(1), port: 10001 }]
    );
    assert!(c.has_session(peer(1)));
    assert_eq!(c.sessions(), 1);
    assert_eq!(c.live_handlers(), 1);
}

#[test]
fn a_start_listener_for_an_unknown_port_is_answered_with_a_kill() {
    let mut c = running();
    assert_eq!(
        c.step(received(RedirectorFrame::StartListener(peer(1), 9))),
        vec![ClientAction::Send(Frame::Redirector(kill(peer(1))))]
    );
    assert_eq!(c.step(ClientEvent::BackendReady(peer(1))), vec![]);
    assert_eq!(c.sessions(), 0);
}

#[test]
fn a_start_listener_for_a_live_session_is_ignored() {
    let mut c = with_session(peer(1));
    assert_eq!(c.step(received(RedirectorFrame::StartListener(peer(1), 10000))), vec![]);
    assert_eq!(c.sessions(), 1);
    assert_eq!(c.live_handlers(), 1);
}

#[test]
fn a_start_listener_for_a_session_being_opened_is_ignored() {
    let mut c = running();
    c.step(received(RedirectorFrame::StartListener(peer(1), 10000)));
    assert_eq!(c.step(received(RedirectorFrame::StartListener(peer(1), 10001))), vec![]);
    assert_eq!(
        c.step(ClientEvent::BackendReady(peer(1))),
        vec![ClientAction::Spawn { id: peer(1), port: 10000 }]
    );
}

#[test]
fn a_backend_that_was_not_asked_for_is_passed_over() {
    let mut c = running();
    assert_eq!(c.step(ClientEvent::BackendReady(peer(1))), vec![]);
    assert_eq!(c.step(ClientEvent::BackendFailed(peer(1))), vec![]);
    assert_eq!(c.sessions(), 0);
    assert_eq!(c.live_handlers(), 0);
}

#[test]
fn a_refused_backend_is_answered_with_a_kill() {
    let mut c = running();
    c.step(received(RedirectorFrame::StartListener(peer(1), 10000)));
    assert_eq!(
        c.step(ClientEvent::BackendFailed(peer(1))),
        vec![ClientAction::Send(Frame::Redirector(kill(peer(1))))]
    );
    assert!(!c.has_session(peer(1)));
    assert_eq!(c.phase(), ClientPhase::Running);
    // The opening is over: a late answer changes nothing.
    assert_eq!(c.step(ClientEvent::BackendReady(peer(1))), vec![]);
}

#[test]
fn a_datagram_goes_to_the_queue_of_its_session() {
    let mut c = with_session(peer(1));
    assert_eq!(
        c.step(received(datagram(peer(1), b"GET /"))),
        vec![ClientAction::Deliver { id: peer(1), frame: datagram(peer(1), b"GET /") }]
    );
}

#[test]
fn a_datagram_without_a_session_is_dropped() {
    let mut c = with_session(peer(1));
    assert_eq!(c.step(received(datagram(peer(2), b"GET /"))), vec![]);
    assert_eq!(c.sessions(), 1);
}

#[test]
fn a_failed_delivery_removes_the_session() {
    let mut c = with_session(peer(1));
    assert_eq!(
        c.step(ClientEvent::DeliveryFailed(peer(1))),
        vec![ClientAction::Forget(peer(1))]
    );
    assert!(!c.has_session(peer(1)));
    assert_eq!(c.live_handlers(), 1);
    assert_eq!(c.step(received(datagram(peer(1), b"x"))), vec![]);
}

#[test]
fn a_kill_listener_removes_the_session_and_sends_nothing() {
    let mut c = with_session(peer(1));
    assert_eq!(c.step(received(kill(peer(1)))), vec![ClientAction::Forget(peer(1))]);
    assert!(!c.has_session(peer(1)));
    assert_eq!(c.live_handlers(), 1);
}

#[test]
fn a_second_kill_listener_does_nothing() {
    let mut c = with_session(peer(1));
    c.step(received(kill(peer(1))));
    assert_eq!(c.step(received(kill(peer(1)))), vec![]);
    assert_eq!(c.sessions(), 0);
    assert_eq!(c.live_handlers(), 1);
    assert_eq!(c.phase(), ClientPhase::Running);
}

#[test]
fn a_kill_listener_gives_up_an_opening() {
    let mut c = running();
    c.step(received(RedirectorFrame::StartListener(peer(1), 10000)));
    assert_eq!(c.step(received(kill(peer(1)))), vec![]);
    assert_eq!(c.step(ClientEvent::BackendReady(peer(1))), vec![]);
    assert!(!c.has_session(peer(1)));
    assert_eq!(c.live_handlers(), 0);
}

#[test]
fn no_datagram_reaches_a_killed_session() {
    let mut c = with_session(peer(1));
    let actions = c.run(vec![
        received(kill(peer(1))),
        received(datagram(peer(1), b"late")),
        ClientEvent::BackendReady(peer(1)),
        received(datagram(peer(1), b"later")),
    ]);
    assert_eq!(actions, vec![ClientAction::Forget(peer(1))]);
}

#[test]
fn a_killed_session_can_be_opened_again() {
    let mut c = with_session(peer(1));
    let actions = c.run(vec![
        received(kill(peer(1))),
        received(RedirectorFrame::StartListener(peer(1), 10000)),
        ClientEvent::BackendReady(peer(1)),
        received(datagram(peer(1), b"again")),
    ]);
    assert_eq!(
        actions,
        vec![
            ClientAction::Forget(peer(1)),
            ClientAction::Connect { id: peer(1), tunnel: tunnel(10000, 8080) },
            ClientAction::Spawn { id: peer(1), port: 10000 },
            ClientAction::Deliver { id: peer(1), frame: datagram(peer(1), b"again") },
        ]
    );
    assert_eq!(c.sessions(), 1);
    assert_eq!(c.live_handlers(), 2);
}

#[test]
fn what_a_redirector_emits_is_sent_as_it_is() {
    let mut c = with_session(peer(1));
    assert_eq!(
        c.step(ClientEvent::Outbound(datagram(peer(1), b"200 OK"))),
        vec![ClientAction::Send(Frame::Redirector(datagram(peer(1), b"200 OK")))]
    );
    assert_eq!(
        c.step(ClientEvent::Outbound(kill(peer(1)))),
        vec![ClientAction::Send(Frame::Redirector(kill(peer(1))))]
    );
    // The session stays until its task is collected.
    assert!(c.has_session(peer(1)));
}

#[test]
fn a_finished_task_removes_its_session_and_sends_nothing() {
    let mut c = with_session(peer(1));
    assert_eq!(
        c.step(ClientEvent::HandlerDone(peer(1))),
        vec![ClientAction::Forget(peer(1))]
    );
    assert_eq!(c.sessions(), 0);
    assert_eq!(c.live_handlers(), 0);
    assert_eq!(c.phase(), ClientPhase::Running);
}

#[test]
fn a_finished_task_of_a_forgotten_session_is_only_counted() {
    let mut c = with_session(peer(1));
    c.step(received(kill(peer(1))));
    assert_eq!(c.step(ClientEvent::HandlerDone(peer(1))), vec![]);
    assert_eq!(c.live_handlers(), 0);
}

#[test]
fn sessions_are_kept_apart() {
    let mut c = with_session(peer(1));
    c.run(vec![
        received(RedirectorFrame::StartListener(peer(2), 10001)),
        ClientEvent::BackendReady(peer(2)),
    ]);
    assert_eq!(c.sessions(), 2);
    assert_eq!(c.step(received(kill(peer(1)))), vec![ClientAction::Forget(peer(1))]);
    assert!(c.has_session(peer(2)));
    assert_eq!(
        c.step(received(datagram(peer(2), b"x"))),
        vec![ClientAction::Deliver { id: peer(2), frame: datagram(peer(2), b"x") }]
    );
}

#[test]
fn cancellation_without_tasks_returns_at_once() {
    let mut c = running();
    assert_eq!(
        c.step(ClientEvent::Cancelled),
        vec![
            ClientAction::AbortAll,
            ClientAction::Send(Frame::Kthxbai),
            ClientAction::Finish(Ok(())),
        ]
    );
    assert_eq!(c.phase(), ClientPhase::Terminated);
}

#[test]
fn cancellation_with_tasks_drains_first() {
    let mut c = with_session(peer(1));
    c.run(vec![
        received(RedirectorFrame::StartListener(peer(2), 10001)),
        ClientEvent::BackendReady(peer(2)),
    ]);
    assert_eq!(
        c.step(ClientEvent::Cancelled),
        vec![ClientAction::AbortAll, ClientAction::Send(Frame::Kthxbai)]
    );
    assert_eq!(c.phase(), ClientPhase::Draining);
    assert_eq!(c.sessions(), 0);
    assert_eq!(c.live_handlers(), 2);
    assert_eq!(c.step(ClientEvent::HandlerDone(peer(2))), vec![]);
    assert_eq!(c.phase(), ClientPhase::Draining);
    assert_eq!(c.step(ClientEvent::HandlerDone(peer(1))), vec![ClientAction::Finish(Ok(()))]);
    assert_eq!(c.phase(), ClientPhase::Terminated);
    assert_eq!(c.live_handlers(), 0);
}

#[test]
fn a_draining_client_sends_nothing() {
    let mut c = with_session(peer(1));
    c.step(ClientEvent::Cancelled);
    for event in [
        ClientEvent::Received(Frame::Heartbeat),
        received(RedirectorFrame::StartListener(peer(2), 10000)),
        received(datagram(peer(1), b"x")),
        ClientEvent::Outbound(datagram(peer(1), b"y")),
        ClientEvent::TransportFailed(Error::Io(IoErrorKind::Other)),
        ClientEvent::BackendReady(peer(1)),
        ClientEvent::Cancelled,
        ClientEvent::HandlerDone(peer(9)),
    ] {
        assert_eq!(c.step(event), vec![]);
        assert_eq!(c.phase(), ClientPhase::Draining);
    }
    assert_eq!(c.outcome(), Ok(()));
}

#[test]
fn a_reconnectable_failure_ends_with_a_dead_connection() {
    for kind in [
        IoErrorKind::ConnectionReset,
        IoErrorKind::ConnectionAborted,
        IoErrorKind::BrokenPipe,
    ] {
        let mut c = running();
        assert_eq!(
            c.step(ClientEvent::TransportFailed(Error::Io(kind))),
            vec![ClientAction::AbortAll, ClientAction::Finish(Err(Error::ConnectionDead))]
        );
    }
    let mut c = running();
    assert_eq!(
        c.step(ClientEvent::TransportFailed(Error::ConnectionDead)),
        vec![ClientAction::AbortAll, ClientAction::Finish(Err(Error::ConnectionDead))]
    );
}

#[test]
fn a_fatal_failure_ends_with_itself() {
    let mut c = with_session(peer(1));
    assert_eq!(
        c.step(ClientEvent::TransportFailed(Error::Io(IoErrorKind::InvalidData))),
        vec![ClientAction::AbortAll]
    );
    assert_eq!(c.phase(), ClientPhase::Draining);
    assert_eq!(
        c.step(ClientEvent::HandlerDone(peer(1))),
        vec![ClientAction::Finish(Err(Error::Io(IoErrorKind::InvalidData)))]
    );
    assert_eq!(c.outcome(), Err(Error::Io(IoErrorKind::InvalidData)));
}

#[test]
fn a_terminated_client_is_clean_and_silent() {
    let mut c = with_session(peer(1));
    c.run(vec![ClientEvent::Received(Frame::Kthxbai), ClientEvent::HandlerDone(peer(1))]);
    assert_eq!(c.phase(), ClientPhase::Terminated);
    assert_eq!(c.sessions(), 0);
    assert_eq!(c.live_handlers(), 0);
    let actions = c.run(vec![
        ClientEvent::Start,
        ClientEvent::Received(Frame::Heartbeat),
        received(RedirectorFrame::StartListener(peer(2), 10000)),
        ClientEvent::BackendReady(peer(2)),
        ClientEvent::Cancelled,
        ClientEvent::HandlerDone(peer(1)),
    ]);
    assert_eq!(actions, vec![]);
    assert_eq!(c.phase(), ClientPhase::Terminated);
    assert_eq!(c.sessions(), 0);
}

#[test]
fn a_tunnel_over_tls_is_handed_out_with_its_settings() {
    let crypto = CryptoConfig { sni_name: String::from("backend"), ca: Some(String::from("ca.pem")) };
    let secure = Tunnel {
        remote_port: 443,
        local_hostname: String::from("backend"),
        local_port: 8443,
        crypto: Some(crypto),
    };
    let mut cfg = config();
    cfg.tunnels = de_tunnels(vec![secure.clone()]);
    let mut c = Client::new(cfg, server());
    let actions = c.run(vec![
        ClientEvent::Start,
        ClientEvent::Received(Frame::Auth(LimitedString(String::new()))),
        ClientEvent::Received(Frame::Tunnels(vec![443])),
        received(RedirectorFrame::StartListener(peer(1), 443)),
    ]);
    assert_eq!(
        actions,
        vec![
            ClientAction::Send(Frame::Auth(LimitedString(String::from("abcd")))),
            ClientAction::Send(Frame::Tunnels(vec![443])),
            ClientAction::Connect { id: peer(1), tunnel: secure },
        ]
    );
}

#[test]
fn a_session_goes_through_its_states() {
    let mut c = running();
    assert_eq!(c.session(peer(1)), SessionState::Closed);
    c.step(received(RedirectorFrame::StartListener(peer(1), 10000)));
    assert_eq!(c.session(peer(1)), SessionState::Opening);
    c.step(ClientEvent::BackendReady(peer(1)));
    assert_eq!(c.session(peer(1)), SessionState::Active);
    c.step(received(kill(peer(1))));
    assert_eq!(c.session(peer(1)), SessionState::Closing);
    c.step(ClientEvent::HandlerDone(peer(1)));
    assert_eq!(c.session(peer(1)), SessionState::Closed);
    assert_eq!(c.session(peer(2)), SessionState::Closed);
}

#[test]
fn a_session_whose_task_ends_first_is_closed_at_once() {
    let mut c = with_session(peer(1));
    c.step(ClientEvent::HandlerDone(peer(1)));
    assert_eq!(c.session(peer(1)), SessionState::Closed);
}

#[test]
fn a_refused_backend_closes_the_opening() {
    let mut c = running();
    c.step(received(RedirectorFrame::StartListener(peer(1), 10000)));
    c.step(ClientEvent::BackendFailed(peer(1)));
    assert_eq!(c.session(peer(1)), SessionState::Closed);
}

#[test]
fn a_session_with_a_queue_always_has_a_task() {
    let ids = [peer(1), peer(2), peer(3)];
    let script = vec![
        ClientEvent::Start,
        ClientEvent::Received(Frame::Auth(LimitedString(String::new()))),
        ClientEvent::Received(Frame::Tunnels(vec![10000, 10001])),
        received(RedirectorFrame::StartListener(peer(1), 10000)),
        received(RedirectorFrame::StartListener(peer(2), 10001)),
        ClientEvent::BackendReady(peer(1)),
        received(datagram(peer(1), b"a")),
        ClientEvent::BackendReady(peer(2)),
        received(kill(peer(1))),
        received(RedirectorFrame::StartListener(peer(1), 10000)),
        ClientEvent::BackendReady(peer(1)),
        ClientEvent::HandlerDone(peer(1)),
        ClientEvent::DeliveryFailed(peer(2)),
        received(RedirectorFrame::StartListener(peer(3), 10000)),
        ClientEvent::BackendFailed(peer(3)),
        ClientEvent::HandlerDone(peer(1)),
        ClientEvent::Cancelled,
        ClientEvent::HandlerDone(peer(2)),
    ];
    let mut c = Client::new(config(), server());
    for event in script {
        c.step(event);
        for id in ids {
            assert!(!c.has_session(id) || c.has_task(id));
        }
    }
    assert_eq!(c.phase(), ClientPhase::Terminated);
    for id in ids {
        assert!(!c.has_session(id));
        assert!(!c.has_task(id));
    }
}

#[test]
fn a_task_may_outlive_its_queue() {
    let mut c = with_session(peer(1));
    c.step(received(kill(peer(1))));
    assert!(!c.has_session(peer(1)));
    assert!(c.has_task(peer(1)));
}
