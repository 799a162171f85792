use bytes::BytesMut;
use chat::protocol::{Ask, ChatCodec, ChatMsg, CodecError, Reply, Request, Response};

fn encode_req(r: Request) -> BytesMut {
    let mut codec = ChatCodec;
    let mut b = BytesMut::new();
    codec.encode_request(r, &mut b);
    b
}

#[test]
fn request_frames_have_expected_bytes() {
    assert_eq!(&encode_req(Request::Users)[..], b"+:");
    assert_eq!(&encode_req(Request::Quit)[..], b"+$");
    assert_eq!(&encode_req(Request::Message(b"hi".to_vec()))[..], b"+#\x00\x02hi");
    assert_eq!(&encode_req(Request::JoinName(b"anna".to_vec()))[..], b"+&\x00\x04anna");
    assert_eq!(
        &encode_req(Request::ForkPeer { pname: b"bob".to_vec() })[..],
        b"+%\x00\x03bob"
    );
}

#[test]
fn response_frames_have_expected_bytes() {
    let mut codec = ChatCodec;
    let mut b = BytesMut::new();
    codec.encode_response(Response::UserMessage { id: 0x0102, msg: b"yo".to_vec() }, &mut b);
    assert_eq!(&b[..], b"-*\x01\x02\x00\x02yo");
    let mut b = BytesMut::new();
    codec.encode_response(
        Response::ForkPeerAckB { pid: 7, pname: b"b".to_vec(), addr: b"1.2.3.4:5".to_vec() },
        &mut b,
    );
    assert_eq!(&b[..], b"-^\x00\x07\x00\x01b\x00\x091.2.3.4:5");
}

#[test]
fn ask_and_reply_frames_have_expected_bytes() {
    let mut codec = ChatCodec;
    let mut b = BytesMut::new();
    codec.encode_ask(Ask::Hello(b"a".to_vec()), &mut b);
    codec.encode_reply(Reply::Note(b"n".to_vec()), &mut b);
    assert_eq!(&b[..], b"{*\x00\x01a}<\x00\x01n");
}

#[test]
fn long_payload_length_is_kept_to_16_bits() {
    let msg = vec![b'x'; 65536 + 3];
    let b = encode_req(Request::Message(msg));
    assert_eq!(&b[..4], b"+#\x00\x03");
    assert_eq!(b.len(), 4 + 65536 + 3);
}

#[test]
fn fewer_than_two_bytes_decode_nothing() {
    let mut codec = ChatCodec;
    let mut b = BytesMut::from(&b"+"[..]);
    assert!(codec.can_decode(&b));
    assert!(matches!(codec.decode(&mut b), Ok(None)));
    assert_eq!(&b[..], b"+");
    let mut e = BytesMut::new();
    assert!(matches!(codec.decode(&mut e), Ok(None)));
}

#[test]
fn request_roundtrip_with_trailing_frame() {
    let mut codec = ChatCodec;
    let mut b = encode_req(Request::Message(b"hello\nworld\n".to_vec()));
    codec.encode_request(Request::Users, &mut b);
    match codec.decode(&mut b) {
        Ok(Some(ChatMsg::Client(Request::Message(m)))) => assert_eq!(m, b"hello\nworld\n".to_vec()),
        other => panic!("unexpected {:?}", other),
    }
    assert!(matches!(codec.decode(&mut b), Ok(Some(ChatMsg::Client(Request::Users)))));
    assert!(b.is_empty());
}

#[test]
fn every_request_reads_back() {
    let mut codec = ChatCodec;
    for r in [
        Request::Users,
        Request::Quit,
        Request::Message(vec![]),
        Request::JoinName(b"z".to_vec()),
        Request::ForkPeer { pname: b"pp".to_vec() },
    ] {
        let mut b = encode_req(r.clone());
        match codec.decode(&mut b) {
            Ok(Some(ChatMsg::Client(back))) => assert_eq!(back, r),
            other => panic!("unexpected {:?}", other),
        }
        assert!(b.is_empty());
    }
}

#[test]
fn responses_read_back() {
    let mut codec = ChatCodec;
    let mut b = BytesMut::new();
    codec.encode_response(Response::JoinNameAck { id: 3, name: b"anna".to_vec() }, &mut b);
    codec.encode_response(Response::Notification(b"note".to_vec()), &mut b);
    codec.encode_response(Response::PeerUnavailable(b"bob".to_vec()), &mut b);
    codec.encode_response(
        Response::ForkPeerAckB { pid: 9, pname: b"bob".to_vec(), addr: b"127.0.0.1:43210".to_vec() },
        &mut b,
    );
    match codec.decode(&mut b) {
        Ok(Some(ChatMsg::Server(Response::JoinNameAck { id, name }))) => {
            assert_eq!(id, 3);
            assert_eq!(name, b"anna".to_vec());
        }
        other => panic!("unexpected {:?}", other),
    }
    match codec.decode(&mut b) {
        Ok(Some(ChatMsg::Server(Response::Notification(m)))) => assert_eq!(m, b"note".to_vec()),
        other => panic!("unexpected {:?}", other),
    }
    match codec.decode(&mut b) {
        Ok(Some(ChatMsg::Server(Response::PeerUnavailable(m)))) => assert_eq!(m, b"bob".to_vec()),
        other => panic!("unexpected {:?}", other),
    }
    match codec.decode(&mut b) {
        Ok(Some(ChatMsg::Server(Response::ForkPeerAckA { pid, pname, addr }))) => {
            assert_eq!(pid, 9);
            assert_eq!(pname, b"bob".to_vec());
            assert_eq!(addr, "127.0.0.1:43210".to_string());
        }
        other => panic!("unexpected {:?}", other),
    }
    assert!(b.is_empty());
}

#[test]
fn user_message_reads_back() {
    let mut codec = ChatCodec;
    let mut b = BytesMut::new();
    codec.encode_response(Response::UserMessage { id: 513, msg: b"m".to_vec() }, &mut b);
    match codec.decode(&mut b) {
        Ok(Some(ChatMsg::Server(Response::UserMessage { id, msg }))) => {
            assert_eq!(id, 513);
            assert_eq!(msg, b"m".to_vec());
        }
        other => panic!("unexpected {:?}", other),
    }
}

#[test]
fn fork_ack_with_non_utf8_address_is_an_error_and_consumed() {
    let mut codec = ChatCodec;
    let mut b = BytesMut::new();
    codec.encode_response(
        Response::ForkPeerAckB { pid: 1, pname: b"p".to_vec(), addr: vec![0xff, 0xfe] },
        &mut b,
    );
    codec.encode_request(Request::Quit, &mut b);
    assert_eq!(codec.decode(&mut b).unwrap_err(), CodecError::InvalidUtf8);
    assert!(matches!(codec.decode(&mut b), Ok(Some(ChatMsg::Client(Request::Quit)))));
}

#[test]
fn peer_frames_read_back() {
    let mut codec = ChatCodec;
    let mut b = BytesMut::new();
    codec.encode_ask(Ask::Leave(b"anna".to_vec()), &mut b);
    codec.encode_reply(Reply::Hello(b"bob".to_vec()), &mut b);
    match codec.decode(&mut b) {
        Ok(Some(ChatMsg::PeerA(a))) => assert_eq!(a, Ask::Leave(b"anna".to_vec())),
        other => panic!("unexpected {:?}", other),
    }
    match codec.decode(&mut b) {
        Ok(Some(ChatMsg::PeerB(Reply::Hello(n)))) => assert_eq!(n, b"bob".to_vec()),
        other => panic!("unexpected {:?}", other),
    }
}

#[test]
fn cut_short_or_unknown_frames_are_not_decodable() {
    let codec = ChatCodec;
    assert!(!codec.can_decode(&BytesMut::from(&b"+#\x00"[..])));
    assert!(!codec.can_decode(&BytesMut::from(&b"+#\x00\x05abc"[..])));
    assert!(!codec.can_decode(&BytesMut::from(&b"+!"[..])));
    assert!(!codec.can_decode(&BytesMut::from(&b"xx"[..])));
    assert!(!codec.can_decode(&BytesMut::from(&b"-^\x00\x01\x00\x01p\x00\x05ab"[..])));
    assert!(codec.can_decode(&BytesMut::from(&b"+#\x00\x03abc"[..])));
    assert!(codec.can_decode(&BytesMut::from(&b"-^\x00\x01\x00\x01p\x00\x02ab"[..])));
}

#[test]
fn addresses_encode_and_decode() {
    let mut b = BytesMut::new();
    chat::protocol::encode_addr(&"10.0.0.1:80".to_string(), &mut b);
    assert_eq!(&b[..], b"\x00\x0b10.0.0.1:80");
    assert_eq!(chat::protocol::decode_addr(&mut b).unwrap(), "10.0.0.1:80".to_string());
    assert!(b.is_empty());
    let mut bad = BytesMut::from(&b"\x00\x01\xff"[..]);
    assert_eq!(chat::protocol::decode_addr(&mut bad).unwrap_err(), CodecError::InvalidUtf8);
}
