use markov_music::chain::Chain;
use markov_music::error::StorageError;

#[test]
fn round_trip_restores_weights_and_ceiling() {
    let mut c = Chain::new(123456);
    c.set_weight("music/rock/a.mp3", "music/rock/b.mp3", 5);
    c.set_weight("music/rock/b.mp3", "music/jazz/c.mp3", 1);
    c.set_weight("music/jazz/c.mp3", "music/rock/a.mp3", 123456);
    let text = c.encode();
    let d = Chain::decode(text.as_str()).unwrap();
    assert_eq!(d.weight_max, 123456);
    assert_eq!(d.edge_count(), 3);
    assert_eq!(d.get_weight("music/rock/a.mp3", "music/rock/b.mp3"), 5);
    assert_eq!(d.get_weight("music/rock/b.mp3", "music/jazz/c.mp3"), 1);
    assert_eq!(d.get_weight("music/jazz/c.mp3", "music/rock/a.mp3"), 123456);
    assert!(!d.is_dirty());
}

#[test]
fn round_trip_survives_hostile_identifiers() {
    let mut c = Chain::new(10);
    c.set_weight("a b\nc", "7 7", 3);
    c.set_weight("", "12 x", 1);
    let text = c.encode();
    let d = Chain::decode(text.as_str()).unwrap();
    assert_eq!(d.get_weight("a b\nc", "7 7"), 3);
    assert_eq!(d.get_weight("", "12 x"), 1);
    assert_eq!(d.edge_count(), 2);
}

#[test]
fn round_trip_empty_store() {
    let c = Chain::new(77);
    let d = Chain::decode(c.encode().as_str()).unwrap();
    assert_eq!(d.weight_max, 77);
    assert_eq!(d.edge_count(), 0);
}

#[test]
fn encode_format_is_stable() {
    let mut c = Chain::new(100);
    c.set_weight("ab", "c", 9);
    assert_eq!(c.encode(), "100\n2 ab1 c9\n");
}

#[test]
fn decode_hand_written_text() {
    let d = Chain::decode("50\n1 a1 b7\n1 b1 a50\n").unwrap();
    assert_eq!(d.weight_max, 50);
    assert_eq!(d.get_weight("a", "b"), 7);
    assert_eq!(d.get_weight("b", "a"), 50);
}

#[test]
fn decode_rejects_negative_weight() {
    assert_eq!(Chain::decode("100\n1 a1 b-5\n").unwrap_err(), StorageError::Malformed);
}

#[test]
fn decode_rejects_duplicate_pair() {
    assert_eq!(Chain::decode("100\n1 a1 b1\n1 a1 b2\n").unwrap_err(), StorageError::Malformed);
}

#[test]
fn decode_rejects_weight_above_ceiling() {
    assert_eq!(Chain::decode("10\n1 a1 b11\n").unwrap_err(), StorageError::Malformed);
}

#[test]
fn decode_rejects_garbage_and_truncation() {
    assert_eq!(Chain::decode("").unwrap_err(), StorageError::Malformed);
    assert_eq!(Chain::decode("pepper").unwrap_err(), StorageError::Malformed);
    assert_eq!(Chain::decode("100").unwrap_err(), StorageError::Malformed);
    assert_eq!(Chain::decode("100\n1 a1 b").unwrap_err(), StorageError::Malformed);
    assert_eq!(Chain::decode("100\n5 a1 b1\n").unwrap_err(), StorageError::Malformed);
    assert_eq!(Chain::decode("100\n1 a1 b1").unwrap_err(), StorageError::Malformed);
}

#[test]
fn decode_accepts_weight_zero_edge() {
    let d = Chain::decode("9\n1 a1 b0\n").unwrap();
    assert_eq!(d.get_weight("a", "b"), 0);
    assert_eq!(d.edge_count(), 1);
}
