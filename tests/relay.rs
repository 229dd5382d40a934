use chat_relay::codec::{decode, encode, MAX_PAYLOAD};
use chat_relay::message::Message;
use chat_relay::registry::ConnectionRegistry;

const KEY: &[u8; 32] = b"12345678901234567890123556789011";

fn msg(username: &[u8], data: &[u8]) -> Message {
    Message::new(username.to_vec(), data.to_vec())
}

fn three_sessions() -> ConnectionRegistry {
    let mut r = ConnectionRegistry::new();
    r.register(b"127.0.0.1:5001".to_vec(), b"A".to_vec());
    r.register(b"127.0.0.1:5002".to_vec(), b"B".to_vec());
    r.register(b"127.0.0.1:5003".to_vec(), b"C".to_vec());
    r
}

fn texts(r: &mut ConnectionRegistry, addr: &[u8]) -> Vec<Vec<u8>> {
    r.take_pending(addr).into_iter().map(|m| m.data).collect()
}

#[test]
fn register_unregister_snapshot() {
    let mut r = three_sessions();
    assert_eq!(r.len(), 3);
    assert_eq!(
        r.snapshot(),
        vec![b"127.0.0.1:5001".to_vec(), b"127.0.0.1:5002".to_vec(), b"127.0.0.1:5003".to_vec()]
    );
    assert!(r.unregister(b"127.0.0.1:5002"));
    assert!(!r.unregister(b"127.0.0.1:5002"));
    assert!(!r.contains(b"127.0.0.1:5002"));
    assert_eq!(r.snapshot(), vec![b"127.0.0.1:5001".to_vec(), b"127.0.0.1:5003".to_vec()]);
}

#[test]
fn registering_an_address_again_replaces_it() {
    let mut r = three_sessions();
    r.relay_message(b"127.0.0.1:5002", &msg(b"B", b"queued")).unwrap();
    r.register(b"127.0.0.1:5001".to_vec(), b"A2".to_vec());
    assert_eq!(r.len(), 3);
    assert_eq!(r.snapshot()[2], b"127.0.0.1:5001".to_vec());
    assert!(texts(&mut r, b"127.0.0.1:5001").is_empty());
}

#[test]
fn relay_skips_the_sender() {
    let mut r = three_sessions();
    r.relay_message(b"127.0.0.1:5001", &msg(b"A", b"hello")).unwrap();
    assert!(texts(&mut r, b"127.0.0.1:5001").is_empty());
    assert_eq!(texts(&mut r, b"127.0.0.1:5002"), vec![b"hello".to_vec()]);
    assert_eq!(texts(&mut r, b"127.0.0.1:5003"), vec![b"hello".to_vec()]);
    assert!(texts(&mut r, b"127.0.0.1:5003").is_empty());
}

#[test]
fn relay_keeps_arrival_order() {
    let mut r = three_sessions();
    r.relay_message(b"127.0.0.1:5001", &msg(b"A", b"first")).unwrap();
    r.relay_message(b"127.0.0.1:5002", &msg(b"B", b"second")).unwrap();
    r.relay_message(b"127.0.0.1:5001", &msg(b"A", b"third")).unwrap();
    assert_eq!(
        texts(&mut r, b"127.0.0.1:5003"),
        vec![b"first".to_vec(), b"second".to_vec(), b"third".to_vec()]
    );
    assert_eq!(texts(&mut r, b"127.0.0.1:5001"), vec![b"second".to_vec()]);
    assert_eq!(texts(&mut r, b"127.0.0.1:5002"), vec![b"first".to_vec(), b"third".to_vec()]);
}

#[test]
fn oversized_message_is_not_relayed() {
    let mut r = three_sessions();
    let big = vec![1u8; MAX_PAYLOAD];
    assert!(r.relay_message(b"127.0.0.1:5001", &msg(b"A", &big)).is_err());
    assert!(texts(&mut r, b"127.0.0.1:5002").is_empty());
}

#[test]
fn pending_frames_decode_in_order_with_fresh_ivs() {
    let mut r = three_sessions();
    r.relay_message(b"127.0.0.1:5001", &msg(b"A", b"one")).unwrap();
    r.relay_message(b"127.0.0.1:5001", &msg(b"A", b"one")).unwrap();
    r.relay_message(b"127.0.0.1:5003", &msg(b"C", b"two")).unwrap();
    let frames = r.pending_frames(KEY, b"127.0.0.1:5002").unwrap();
    assert_eq!(frames.len(), 3);
    assert_ne!(frames[0][..16], frames[1][..16]);
    let got: Vec<Vec<u8>> = frames.iter().map(|f| decode(KEY, f).unwrap().data).collect();
    assert_eq!(got, vec![b"one".to_vec(), b"one".to_vec(), b"two".to_vec()]);
    assert!(r.pending_frames(KEY, b"127.0.0.1:5002").unwrap().is_empty());
    assert!(r.pending_frames(KEY, b"10.0.0.1:1").unwrap().is_empty());
    let _ = encode(KEY, &msg(b"x", b"y")).unwrap();
}
