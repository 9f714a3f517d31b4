use simple_tunnel::client::{Client, ClientAction, ClientEvent, ClientPhase};
use simple_tunnel::config::client::{
    de_psk, de_tunnels, default_mtu, localhost_ipv4, ChannelLimits, Config, CryptoConfig,
    TransportTimeouts, Tunnel,
};
use simple_tunnel::net::error::{Error, IoErrorKind};
use simple_tunnel::net::frame::{Datagram, Frame, LimitedString, RedirectorFrame, SessionId};
use simple_tunnel::net::transport::Transport;
use simple_tunnel::redirector::{Redirector, RedirectorAction, RedirectorEvent};
use simple_tunnel::retry::{RetryBudget, Verdict};

const SECOND: u64 = 1_000_000_000;

fn server() -> SessionId {
    SessionId::V4 { ip: 0x7f00_0001, port: 12000 }
}

fn visitor() -> SessionId {
    SessionId::V4 { ip: 0x7f00_0001, port: 54321 }
}

fn config(backend_port: u16, crypto: Option<CryptoConfig>) -> Config {
    Config {
        psk: de_psk(String::from("abcd")).unwrap(),
        addr: String::from("127.0.0.1"),
        port: 12000,
        mtu: default_mtu(),
        tunnels: de_tunnels(vec![Tunnel {
            remote_port: 10000,
            local_hostname: localhost_ipv4(),
            local_port: backend_port,
            crypto,
        }]),
        timeouts: TransportTimeouts { keepalive: None },
        channel_limits: ChannelLimits { core: 32 },
        crypto: None,
    }
}

fn handshake(c: &mut Client) {
    let actions = c.run(vec![
        ClientEvent::Start,
        ClientEvent::Received(Frame::Auth(LimitedString(String::from("abcd")))),
        ClientEvent::Received(Frame::Tunnels(vec![10000])),
    ]);
    assert_eq!(
        actions,
        vec![
            ClientAction::Send(Frame::Auth(LimitedString(String::from("abcd")))),
            ClientAction::Send(Frame::Tunnels(vec![10000])),
        ]
    );
    assert_eq!(c.phase(), ClientPhase::Running);
}

fn datagram(data: &[u8]) -> RedirectorFrame {
    RedirectorFrame::Datagram(Datagram { id: visitor(), port: 10000, data: data.to_vec() })
}

/// Plays one request and its answer through a client and the redirector of
/// the session, as the I/O layer would.
fn request_and_response(crypto: Option<CryptoConfig>) {
    let mut client = Client::new(config(8080, crypto.clone()), server());
    handshake(&mut client);

    // The visitor arrives at the published port.
    let open = client.step(ClientEvent::Received(Frame::Redirector(
        RedirectorFrame::StartListener(visitor(), 10000),
    )));
    assert_eq!(
        open,
        vec![ClientAction::Connect {
            id: visitor(),
            tunnel: Tunnel {
                remote_port: 10000,
                local_hostname: String::from("127.0.0.1"),
                local_port: 8080,
                crypto,
            },
        }]
    );
    assert_eq!(
        client.step(ClientEvent::BackendReady(visitor())),
        vec![ClientAction::Spawn { id: visitor(), port: 10000 }]
    );
    let mut redirector = Redirector::new(visitor(), 10000, 0);

    // The request travels to the backend.
    let request = b"GET / HTTP/1.1\r\n\r\n";
    let delivered = client.step(ClientEvent::Received(Frame::Redirector(datagram(request))));
    assert_eq!(
        delivered,
        vec![ClientAction::Deliver { id: visitor(), frame: datagram(request) }]
    );
    assert_eq!(
        redirector.step(RedirectorEvent::Inbound(datagram(request))),
        vec![RedirectorAction::Write(request.to_vec())]
    );
    redirector.step(RedirectorEvent::Written { now: SECOND });

    // The answer travels back.
    let response = b"HTTP/1.1 200 OK\r\n\r\n";
    let emitted = redirector
        .step(RedirectorEvent::BackendRead { data: response.to_vec(), now: 2 * SECOND });
    assert_eq!(emitted, vec![RedirectorAction::Emit(datagram(response))]);
    assert_eq!(
        client.step(ClientEvent::Outbound(datagram(response))),
        vec![ClientAction::Send(Frame::Redirector(datagram(response)))]
    );

    // Nobody said goodbye, and both sides go on.
    assert_eq!(client.phase(), ClientPhase::Running);
    assert!(client.has_session(visitor()));
    assert!(redirector.is_open());
}

#[test]
fn happy_path_over_a_plain_backend() {
    request_and_response(None);
}

#[test]
fn happy_path_over_a_tls_backend() {
    request_and_response(Some(CryptoConfig {
        sni_name: String::from("127.0.0.1"),
        ca: Some(String::from("tests/ca.pem")),
    }));
}

#[test]
fn a_new_client_shakes_hands_after_an_earlier_one_is_gone() {
    let mut first = Client::new(config(8080, None), server());
    handshake(&mut first);
    drop(first);
    let mut second = Client::new(config(8080, None), server());
    handshake(&mut second);
}

#[test]
fn a_dead_server_ends_the_client_within_the_budget() {
    let mut budget = RetryBudget::new();
    let mut attempts = 0;
    let mut last = Verdict::Exit;
    while budget.next_attempt() {
        attempts += 1;
        let mut client = Client::new(config(8080, None), server());
        client.step(ClientEvent::Start);
        // The server is gone: the stream ends before its answer.
        let mut transport = Transport::new(server());
        let failure = transport.read_frame(true).unwrap_err();
        assert_eq!(failure, Error::ConnectionDead);
        let actions = client.step(ClientEvent::TransportFailed(failure));
        assert_eq!(
            actions,
            vec![ClientAction::AbortAll, ClientAction::Finish(Err(Error::ConnectionDead))]
        );
        last = budget.after_client(client.established(), client.outcome());
        assert_eq!(last, Verdict::Reconnect);
    }
    assert_eq!(attempts, 5);
    assert_eq!(last, Verdict::Reconnect);
    assert_eq!(budget.left(), 0);
}

#[test]
fn a_server_that_dies_while_running_is_dialled_again() {
    let mut budget = RetryBudget::new();
    assert!(budget.next_attempt());
    let mut client = Client::new(config(8080, None), server());
    handshake(&mut client);
    let actions =
        client.step(ClientEvent::TransportFailed(Error::Io(IoErrorKind::ConnectionReset)));
    assert_eq!(
        actions,
        vec![ClientAction::AbortAll, ClientAction::Finish(Err(Error::ConnectionDead))]
    );
    assert_eq!(budget.left(), 4);
    assert_eq!(
        budget.after_client(client.established(), client.outcome()),
        Verdict::Reconnect
    );
    assert_eq!(budget.left(), 5);
}

#[test]
fn a_backend_that_refuses_costs_only_its_session() {
    let mut client = Client::new(config(1, None), server());
    handshake(&mut client);
    client.step(ClientEvent::Received(Frame::Redirector(RedirectorFrame::StartListener(
        visitor(),
        10000,
    ))));
    assert_eq!(
        client.step(ClientEvent::BackendFailed(visitor())),
        vec![ClientAction::Send(Frame::Redirector(RedirectorFrame::KillListener(visitor())))]
    );
    assert_eq!(client.phase(), ClientPhase::Running);
    assert!(!client.has_session(visitor()));
    assert_eq!(client.live_handlers(), 0);
    // The client goes on serving.
    assert_eq!(
        client.step(ClientEvent::Received(Frame::Heartbeat)),
        vec![ClientAction::Send(Frame::Heartbeat)]
    );
}

#[test]
fn an_idle_session_is_torn_down_from_the_client_side() {
    let mut client = Client::new(config(8080, None), server());
    handshake(&mut client);
    client.run(vec![
        ClientEvent::Received(Frame::Redirector(RedirectorFrame::StartListener(
            visitor(),
            10000,
        ))),
        ClientEvent::BackendReady(visitor()),
    ]);
    let mut redirector = Redirector::new(visitor(), 10000, 0);
    redirector.run(vec![
        RedirectorEvent::BackendRead { data: vec![b'a'], now: SECOND },
        RedirectorEvent::Inbound(datagram(b"b")),
        RedirectorEvent::Written { now: 2 * SECOND },
    ]);
    assert_eq!(redirector.step(RedirectorEvent::Tick { now: 301 * SECOND }), vec![]);
    assert_eq!(
        redirector.step(RedirectorEvent::Tick { now: 302 * SECOND }),
        vec![RedirectorAction::Close]
    );
    assert!(!redirector.is_open());
    // The task ends with its session id, and the client forgets the session.
    assert_eq!(
        client.step(ClientEvent::HandlerDone(redirector.id())),
        vec![ClientAction::Forget(visitor())]
    );
    assert!(!client.has_session(visitor()));
    assert_eq!(client.live_handlers(), 0);
}

#[test]
fn frames_cross_the_wire_in_their_envelopes() {
    let mut near = Transport::new(server());
    let far = Transport::new(visitor());
    let payloads: Vec<Vec<u8>> = vec![b"auth".to_vec(), Vec::new(), vec![0xff; 3000]];
    for payload in &payloads {
        near.receive(&far.write_frame(payload).unwrap());
    }
    for payload in &payloads {
        assert_eq!(near.read_frame(false), Ok(Some(payload.clone())));
    }
    assert_eq!(near.read_frame(false), Ok(None));
}
