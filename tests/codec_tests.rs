use chat_core::codec::{decode_envelope, encode_envelope, topic_name, ENVELOPE_HEADER_LEN};
use chat_core::gateway::Envelope;

fn sample() -> Envelope {
    Envelope {
        channel_id: 0x0102030405060708,
        sender_id: 42,
        payload: b"hello".to_vec(),
        sequence_hint: u64::MAX,
        origin_instance: 7,
        origin_connection: 256,
    }
}

#[test]
fn envelope_round_trip() {
    let e = sample();
    let b = encode_envelope(&e);
    assert_eq!(b.len(), ENVELOPE_HEADER_LEN + 5);
    assert_eq!(b[0], 1);
    assert_eq!(&b[1..9], &[1, 2, 3, 4, 5, 6, 7, 8]);
    assert_eq!(&b[33..41], &[0, 0, 0, 0, 0, 0, 1, 0]);
    let d = decode_envelope(&b).unwrap();
    assert_eq!(d.channel_id, e.channel_id);
    assert_eq!(d.sender_id, 42);
    assert_eq!(d.sequence_hint, u64::MAX);
    assert_eq!(d.origin_instance, 7);
    assert_eq!(d.origin_connection, 256);
    assert_eq!(d.payload, b"hello".to_vec());
}

#[test]
fn empty_payload_round_trip() {
    let e = Envelope { payload: vec![], ..sample() };
    let b = encode_envelope(&e);
    assert_eq!(b.len(), ENVELOPE_HEADER_LEN);
    assert_eq!(decode_envelope(&b).unwrap().payload, Vec::<u8>::new());
}

#[test]
fn short_or_foreign_frames_are_refused() {
    let b = encode_envelope(&sample());
    assert!(decode_envelope(&b[..40].to_vec()).is_none());
    assert!(decode_envelope(&vec![]).is_none());
    let mut other = b.clone();
    other[0] = 2;
    assert!(decode_envelope(&other).is_none());
}

#[test]
fn topic_names() {
    assert_eq!(topic_name(0), b"channel:0".to_vec());
    assert_eq!(topic_name(1234), b"channel:1234".to_vec());
    assert_eq!(topic_name(u64::MAX), b"channel:18446744073709551615".to_vec());
}
