use simple_tunnel::net::error::{reconnectable_err, Error, IoErrorKind};
use simple_tunnel::net::frame::{
    Auth, Datagram, Frame, LimitedString, RedirectorFrame, SessionId, PSK_LIMIT,
};

fn peer() -> SessionId {
    SessionId::V4 { ip: 0xc0a8_0001, port: 51000 }
}

#[test]
fn auth_new_keeps_the_key() {
    let auth = Auth::new(String::from("abcd"));
    assert_eq!(auth.psk.0, "abcd");
}

#[test]
fn auth_from_string_keeps_the_key() {
    let auth = Auth::from(String::from("swordfish"));
    assert_eq!(auth, Auth::new(String::from("swordfish")));
}

#[test]
fn limited_string_fits_up_to_its_limit() {
    assert_eq!(PSK_LIMIT, 512);
    assert!(LimitedString::<512>(String::new()).fits());
    assert!(LimitedString::<512>("k".repeat(512)).fits());
    assert!(!LimitedString::<512>("k".repeat(513)).fits());
}

#[test]
fn limited_string_counts_bytes_not_characters() {
    // Two bytes each in UTF-8.
    assert!(LimitedString::<4>("éé".to_string()).fits());
    assert!(!LimitedString::<4>("ééé".to_string()).fits());
}

#[test]
fn datagram_becomes_a_top_level_frame() {
    let d = Datagram { id: peer(), port: 10000, data: vec![1, 2, 3] };
    assert_eq!(Frame::from(d.clone()), Frame::Datagram(d));
}

#[test]
fn datagram_becomes_a_session_frame() {
    let d = Datagram { id: peer(), port: 10000, data: vec![9] };
    assert_eq!(RedirectorFrame::from(d.clone()), RedirectorFrame::Datagram(d));
}

#[test]
fn session_frame_becomes_a_frame() {
    let kill = RedirectorFrame::KillListener(peer());
    assert_eq!(Frame::from(kill.clone()), Frame::Redirector(kill));
}

#[test]
fn every_session_frame_names_its_session() {
    let other = SessionId::V6 { ip6: 1, port: 443, flowinfo: 0, scope_id: 0 };
    assert_eq!(RedirectorFrame::StartListener(peer(), 10000).id(), peer());
    assert_eq!(RedirectorFrame::KillListener(other).id(), other);
    let d = Datagram { id: other, port: 1, data: vec![] };
    assert_eq!(RedirectorFrame::Datagram(d).id(), other);
}

#[test]
fn session_ids_differ_by_any_field() {
    let a = SessionId::V6 { ip6: 1, port: 443, flowinfo: 0, scope_id: 0 };
    let b = SessionId::V6 { ip6: 1, port: 443, flowinfo: 0, scope_id: 7 };
    assert_ne!(a, b);
    assert_ne!(
        SessionId::V4 { ip: 1, port: 443 },
        SessionId::V4 { ip: 1, port: 444 }
    );
}

#[test]
fn three_kinds_are_reconnectable() {
    assert!(reconnectable_err(IoErrorKind::ConnectionReset));
    assert!(reconnectable_err(IoErrorKind::ConnectionAborted));
    assert!(reconnectable_err(IoErrorKind::BrokenPipe));
}

#[test]
fn other_kinds_are_fatal() {
    assert!(!reconnectable_err(IoErrorKind::InvalidInput));
    assert!(!reconnectable_err(IoErrorKind::InvalidData));
    assert!(!reconnectable_err(IoErrorKind::Other));
}

#[test]
fn errors_are_classified() {
    assert!(Error::ConnectionDead.is_reconnectable());
    assert!(!Error::ConnectionRefused.is_reconnectable());
    assert!(Error::Io(IoErrorKind::BrokenPipe).is_reconnectable());
    assert!(!Error::Io(IoErrorKind::Other).is_reconnectable());
}

#[test]
fn settle_collapses_reconnectable_failures() {
    assert_eq!(Error::Io(IoErrorKind::ConnectionReset).settle(), Error::ConnectionDead);
    assert_eq!(Error::ConnectionDead.settle(), Error::ConnectionDead);
    assert_eq!(Error::ConnectionRefused.settle(), Error::ConnectionRefused);
    assert_eq!(
        Error::Io(IoErrorKind::InvalidData).settle(),
        Error::Io(IoErrorKind::InvalidData)
    );
}

#[test]
fn write_failures_are_classified() {
    assert_eq!(Error::from_write_failure(IoErrorKind::BrokenPipe), Error::ConnectionDead);
    assert_eq!(
        Error::from_write_failure(IoErrorKind::Other),
        Error::Io(IoErrorKind::Other)
    );
}
