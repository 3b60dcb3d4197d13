use chat_core::queue::{ErrorCode, OutboundFrame};
use chat_core::wire::{decode_client_frame, encode_client_frame, encode_server_frame, ClientFrame};

fn channel_of(f: &ClientFrame) -> u64 {
    match f {
        ClientFrame::Subscribe { channel_id } => *channel_id,
        ClientFrame::Unsubscribe { channel_id } => *channel_id,
        ClientFrame::Message { channel_id, .. } => *channel_id,
    }
}

#[test]
fn decodes_client_frames() {
    let f = decode_client_frame(&b"1S42".to_vec()).unwrap();
    assert!(matches!(f, ClientFrame::Subscribe { channel_id: 42 }));
    let f = decode_client_frame(&b"1U0".to_vec()).unwrap();
    assert!(matches!(f, ClientFrame::Unsubscribe { channel_id: 0 }));
    match decode_client_frame(&b"1M7 hello world".to_vec()).unwrap() {
        ClientFrame::Message { channel_id, payload } => {
            assert_eq!(channel_id, 7);
            assert_eq!(payload, b"hello world".to_vec());
        }
        _ => panic!("expected a message"),
    }
    match decode_client_frame(&b"1M7 ".to_vec()).unwrap() {
        ClientFrame::Message { payload, .. } => assert!(payload.is_empty()),
        _ => panic!("expected a message"),
    }
}

#[test]
fn largest_channel_id() {
    let f = decode_client_frame(&b"1S18446744073709551615".to_vec()).unwrap();
    assert_eq!(channel_of(&f), u64::MAX);
    assert!(decode_client_frame(&b"1S18446744073709551616".to_vec()).is_none());
    assert!(decode_client_frame(&b"1S99999999999999999999".to_vec()).is_none());
}

#[test]
fn refuses_malformed_client_frames() {
    for bad in [
        &b""[..],
        b"1S",
        b"2S5",
        b"1Q5",
        b"1S05",
        b"1S5x",
        b"1S5 ",
        b"1M5",
        b"1M5x",
        b"1Mx 5",
    ] {
        assert!(decode_client_frame(&bad.to_vec()).is_none(), "{:?}", bad);
    }
}

#[test]
fn client_frames_round_trip() {
    let frames = vec![
        ClientFrame::Subscribe { channel_id: 0 },
        ClientFrame::Unsubscribe { channel_id: 1234567890 },
        ClientFrame::Message { channel_id: u64::MAX, payload: b"a b\n".to_vec() },
    ];
    for f in frames {
        let b = encode_client_frame(&f);
        let d = decode_client_frame(&b).unwrap();
        assert_eq!(channel_of(&d), channel_of(&f));
        assert_eq!(encode_client_frame(&d), b);
    }
    assert_eq!(encode_client_frame(&ClientFrame::Subscribe { channel_id: 10 }), b"1S10".to_vec());
}

#[test]
fn encodes_server_frames() {
    let e = OutboundFrame::Event { channel_id: 10, sender_id: 3, payload: b"hi".to_vec() };
    assert_eq!(encode_server_frame(&e), b"1E10 3 hi".to_vec());
    let x = OutboundFrame::Error { code: ErrorCode::PermissionDenied, detail: b"no".to_vec() };
    assert_eq!(encode_server_frame(&x), b"1X1 no".to_vec());
    let x = OutboundFrame::Error { code: ErrorCode::Malformed, detail: vec![] };
    assert_eq!(encode_server_frame(&x), b"1X2 ".to_vec());
    assert_eq!(encode_server_frame(&OutboundFrame::Ack), b"1A".to_vec());
}
