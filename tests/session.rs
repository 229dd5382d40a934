use chat_relay::client::{
    read_server_frame, send_password_challenge, write_message, InputLine, ServerReply,
};
use chat_relay::codec::{decode, encode, DecodeError};
use chat_relay::message::Message;
use chat_relay::registry::ConnectionRegistry;
use chat_relay::session::{
    handle_authentication, rejection_frame_bytes, ClientSession, SessionAction, SessionEvent,
    SessionState,
};

const KEY: &[u8; 32] = b"12345678901234567890123556789011";
const WRONG: &[u8; 32] = b"00000000000000000000000000000000";

fn admitted(reg: &mut ConnectionRegistry, addr: &[u8], name: &[u8]) -> ClientSession {
    let mut s = ClientSession::new(addr.to_vec());
    assert!(matches!(s.step(KEY, reg, SessionEvent::Accepted).unwrap(), SessionAction::Wait));
    let challenge = send_password_challenge(KEY, name).unwrap();
    match s.step(KEY, reg, SessionEvent::Frame(challenge)).unwrap() {
        SessionAction::Send(welcome) => match read_server_frame(KEY, &welcome) {
            ServerReply::Message(m) => {
                assert_eq!(m.username, name.to_vec());
                let mut expected = addr.to_vec();
                expected.extend_from_slice(b"\nSuccessfully authenticated");
                assert_eq!(m.data, expected);
            }
            _ => panic!("welcome frame does not decode"),
        },
        _ => panic!("challenge was not accepted"),
    }
    assert_eq!(s.state(), SessionState::Relaying);
    s
}

#[test]
fn correct_key_is_welcomed_and_registered() {
    let mut reg = ConnectionRegistry::new();
    let s = admitted(&mut reg, b"127.0.0.1:40000", b"alice");
    assert_eq!(s.username(), b"alice");
    assert_eq!(reg.snapshot(), vec![b"127.0.0.1:40000".to_vec()]);
}

#[test]
fn wrong_key_is_rejected_and_never_registered() {
    let mut reg = ConnectionRegistry::new();
    let mut s = ClientSession::new(b"127.0.0.1:40001".to_vec());
    s.step(KEY, &mut reg, SessionEvent::Accepted).unwrap();
    let challenge = send_password_challenge(WRONG, b"mallory").unwrap();
    match s.step(KEY, &mut reg, SessionEvent::Frame(challenge)).unwrap() {
        SessionAction::Reject(notice) => {
            assert_eq!(notice, rejection_frame_bytes());
            assert!(matches!(read_server_frame(WRONG, &notice), ServerReply::Rejected));
        }
        _ => panic!("wrong key was not rejected"),
    }
    assert_eq!(s.state(), SessionState::Closed);
    assert!(reg.snapshot().is_empty());
    let again = send_password_challenge(KEY, b"mallory").unwrap();
    assert!(matches!(s.step(KEY, &mut reg, SessionEvent::Frame(again)).unwrap(), SessionAction::Wait));
    assert!(reg.snapshot().is_empty());
    assert_eq!(s.state(), SessionState::Closed);
}

#[test]
fn garbage_challenge_is_rejected() {
    let mut reg = ConnectionRegistry::new();
    let iv = [3u8; 16];
    match handle_authentication(KEY, &[1u8; 20], b"127.0.0.1:1", &iv) {
        chat_relay::session::AuthOutcome::Rejected { reason, .. } => {
            assert_eq!(reason, DecodeError::Malformed)
        }
        _ => panic!("garbage accepted"),
    }
    assert!(reg.snapshot().is_empty());
    let _ = &mut reg;
}

#[test]
fn long_username_is_cut() {
    let mut reg = ConnectionRegistry::new();
    let mut s = ClientSession::new(b"127.0.0.1:40002".to_vec());
    s.step(KEY, &mut reg, SessionEvent::Accepted).unwrap();
    let challenge = send_password_challenge(KEY, b"averyveryverylongname").unwrap();
    assert!(matches!(s.step(KEY, &mut reg, SessionEvent::Frame(challenge)).unwrap(), SessionAction::Send(_)));
    assert_eq!(s.username(), b"averyveryv");
}

#[test]
fn three_clients_relay_hello() {
    let mut reg = ConnectionRegistry::new();
    let mut a = admitted(&mut reg, b"127.0.0.1:50001", b"A");
    let _b = admitted(&mut reg, b"127.0.0.1:50002", b"B");
    let _c = admitted(&mut reg, b"127.0.0.1:50003", b"C");
    let frame = encode(KEY, &Message::new(b"A".to_vec(), b"hello".to_vec())).unwrap();
    let forwarded = match a.step(KEY, &mut reg, SessionEvent::Frame(frame)).unwrap() {
        SessionAction::Forward(m) => m,
        _ => panic!("message not forwarded"),
    };
    reg.relay_message(a.addr(), &forwarded).unwrap();
    for addr in [&b"127.0.0.1:50002"[..], &b"127.0.0.1:50003"[..]] {
        let frames = reg.pending_frames(KEY, addr).unwrap();
        assert_eq!(frames.len(), 1);
        let m = decode(KEY, &frames[0]).unwrap();
        assert_eq!((m.username, m.data), (b"A".to_vec(), b"hello".to_vec()));
    }
    assert!(reg.pending_frames(KEY, b"127.0.0.1:50001").unwrap().is_empty());
}

#[test]
fn relaying_session_drops_bad_frames_and_leaves_on_disconnect() {
    let mut reg = ConnectionRegistry::new();
    let mut a = admitted(&mut reg, b"127.0.0.1:50010", b"A");
    let bad = encode(WRONG, &Message::new(b"A".to_vec(), b"x".to_vec())).unwrap();
    assert!(matches!(
        a.step(KEY, &mut reg, SessionEvent::Frame(bad)).unwrap(),
        SessionAction::Drop(DecodeError::BadPadding)
    ));
    assert_eq!(a.state(), SessionState::Relaying);
    assert!(matches!(a.step(KEY, &mut reg, SessionEvent::Disconnected).unwrap(), SessionAction::Close));
    assert_eq!(a.state(), SessionState::Closed);
    assert!(reg.snapshot().is_empty());
}

#[test]
fn connecting_session_closes_on_early_frame() {
    let mut reg = ConnectionRegistry::new();
    let mut s = ClientSession::new(b"127.0.0.1:1".to_vec());
    assert!(matches!(s.step(KEY, &mut reg, SessionEvent::Disconnected).unwrap(), SessionAction::Close));
    assert_eq!(s.state(), SessionState::Closed);
}

#[test]
fn typed_lines_are_classified() {
    assert!(matches!(write_message(b"   \n"), InputLine::Empty));
    assert!(matches!(write_message(b" :quit\n"), InputLine::Quit));
    match write_message(b"  hi there \r\n") {
        InputLine::Text(t) => assert_eq!(t, b"hi there".to_vec()),
        _ => panic!("text expected"),
    }
}

#[test]
fn unreadable_server_frame() {
    assert!(matches!(
        read_server_frame(KEY, &[9u8; 10]),
        ServerReply::Unreadable(DecodeError::Malformed)
    ));
}

#[test]
fn rejection_frame_carries_the_notice() {
    let notice = rejection_frame_bytes();
    let text = b"from server :\n\tIncorect password, please try again";
    assert_eq!(notice.len(), chat_relay::codec::MSG_SIZE);
    assert_eq!(&notice[..text.len()], &text[..]);
    assert!(notice[text.len()..].iter().all(|b| *b == 0));
}
