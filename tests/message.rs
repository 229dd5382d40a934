use chat_relay::message::{remove_trailing_zeros, truncate, truncate_in_place, Message};

#[test]
fn trailing_zeros_go_inner_zeros_stay() {
    assert_eq!(remove_trailing_zeros(vec![1, 0, 2, 0, 0]), vec![1, 0, 2]);
    assert_eq!(remove_trailing_zeros(vec![0, 0, 0]), Vec::<u8>::new());
    assert_eq!(remove_trailing_zeros(vec![]), Vec::<u8>::new());
    assert_eq!(remove_trailing_zeros(vec![0, 5]), vec![0, 5]);
}

#[test]
fn truncate_counts_characters() {
    assert_eq!(truncate("hello world", 5), "hello");
    assert_eq!(truncate("hi", 5), "hi");
    assert_eq!(truncate("héllo", 2), "hé");
    assert_eq!(truncate("", 3), "");
}

#[test]
fn usernames_are_bounded() {
    assert_eq!(truncate_in_place("alice".to_string(), 10), b"alice".to_vec());
    assert_eq!(truncate_in_place("abcdefghijklmno".to_string(), 10), b"abcdefghij".to_vec());
    assert_eq!(truncate_in_place("abcdefghijklmno".to_string(), 3), b"abc".to_vec());
    assert_eq!(truncate_in_place("ééééééé".to_string(), 10), "ééééé".as_bytes().to_vec());
}

#[test]
fn message_clone_and_delete() {
    let mut m = Message::new(b"bob".to_vec(), b"data".to_vec());
    let c = m.clone();
    m.delete();
    assert!(m.username.is_empty() && m.data.is_empty());
    assert_eq!((c.username, c.data), (b"bob".to_vec(), b"data".to_vec()));
}
