use chat_relay::codec::{
    decode, deserialize_data, encode, encode_with_iv, DecodeError, EncodeError, MAX_PAYLOAD,
    MSG_SIZE, PLAINTEXT_LEN,
};
use chat_relay::message::{serialize_data, Message};

const KEY: &[u8; 32] = b"12345678901234567890123556789011";
const OTHER_KEY: &[u8; 32] = b"abcdefghijklmnopqrstuvwxyz012345";

fn msg(username: &[u8], data: &[u8]) -> Message {
    Message::new(username.to_vec(), data.to_vec())
}

#[test]
fn round_trip_plain_text() {
    let m = msg(b"alice", b"hello");
    let frame = encode(KEY, &m).unwrap();
    assert_eq!(frame.len(), MSG_SIZE);
    let back = decode(KEY, &frame).unwrap();
    assert_eq!(back.username, b"alice".to_vec());
    assert_eq!(back.data, b"hello".to_vec());
}

#[test]
fn round_trip_keeps_zero_bytes() {
    let m = msg(b"bob", &[0, 1, 0, 2, 0, 0, 0]);
    let frame = encode(KEY, &m).unwrap();
    let back = decode(KEY, &frame).unwrap();
    assert_eq!(back.data, vec![0, 1, 0, 2, 0, 0, 0]);
    let empty = decode(KEY, &encode(KEY, &msg(b"", b"")).unwrap()).unwrap();
    assert!(empty.username.is_empty() && empty.data.is_empty());
}

#[test]
fn round_trip_largest_payload() {
    let data = vec![0xabu8; MAX_PAYLOAD - 5];
    let m = msg(b"carol", &data);
    let frame = encode(KEY, &m).unwrap();
    assert_eq!(frame.len(), MSG_SIZE);
    assert_eq!(decode(KEY, &frame).unwrap().data, data);
}

#[test]
fn payload_too_large_is_refused() {
    let data = vec![1u8; MAX_PAYLOAD - 4];
    assert_eq!(encode(KEY, &msg(b"carol", &data)).err(), Some(EncodeError::PayloadTooLarge));
}

#[test]
fn frame_starts_with_iv_and_is_encrypted() {
    let iv = [7u8; 16];
    let m = msg(b"alice", b"hello");
    let frame = encode_with_iv(KEY, &iv, &m).unwrap();
    assert_eq!(&frame[..16], &iv[..]);
    let plain = serialize_data(&m);
    assert_ne!(&frame[16..16 + plain.len()], &plain[..]);
    assert_eq!(encode_with_iv(KEY, &iv, &m).unwrap(), frame);
}

#[test]
fn short_or_misaligned_frames_are_malformed() {
    assert_eq!(decode(KEY, &[0u8; 15]).err(), Some(DecodeError::Malformed));
    assert_eq!(decode(KEY, &[0u8; 16 + 17]).err(), Some(DecodeError::Malformed));
    let frame = encode(KEY, &msg(b"a", b"b")).unwrap();
    assert_eq!(decode(KEY, &frame[..MSG_SIZE - 1]).err(), Some(DecodeError::Malformed));
}

#[test]
fn wrong_key_gives_bad_padding() {
    for i in 0..20u8 {
        let iv = [i; 16];
        let m = msg(b"alice", b"secret text");
        let frame = encode_with_iv(KEY, &iv, &m).unwrap();
        assert_eq!(decode(OTHER_KEY, &frame).err(), Some(DecodeError::BadPadding));
    }
}

#[test]
fn iv_only_frame_is_bad_padding() {
    assert_eq!(decode(KEY, &[0u8; 16]).err(), Some(DecodeError::BadPadding));
}

#[test]
fn corrupted_frame_is_refused() {
    let mut frame = encode(KEY, &msg(b"alice", b"hello")).unwrap();
    frame[MSG_SIZE - 1] ^= 0x55;
    assert_eq!(decode(KEY, &frame).err(), Some(DecodeError::BadPadding));
}

#[test]
fn fresh_iv_for_every_encode() {
    let m = msg(b"alice", b"same text");
    let mut seen = std::collections::HashSet::new();
    for _ in 0..1000 {
        let frame = encode(KEY, &m).unwrap();
        assert!(seen.insert(frame[..16].to_vec()));
    }
}

#[test]
fn serialized_layout_matches_bincode() {
    let m = msg(b"alice", b"hi\0there");
    let expected = bincode::serialize(&(b"alice".to_vec(), b"hi\0there".to_vec())).unwrap();
    assert_eq!(serialize_data(&m), expected);
}

#[test]
fn plaintext_parsing() {
    let mut p = serialize_data(&msg(b"ab", b"cd"));
    p.resize(PLAINTEXT_LEN, 0);
    let m = deserialize_data(&p).unwrap();
    assert_eq!((m.username, m.data), (b"ab".to_vec(), b"cd".to_vec()));
    let mut dirty = p.clone();
    dirty[PLAINTEXT_LEN - 1] = 1;
    assert!(deserialize_data(&dirty).is_none());
    let mut too_long = p.clone();
    too_long[7] = 0xff;
    assert!(deserialize_data(&too_long).is_none());
    assert!(deserialize_data(&[0u8; 15]).is_none());
}
