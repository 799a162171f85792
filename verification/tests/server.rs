use chat::names::Names;
use chat::protocol::{Request, Response};
use chat::server::{
    disconnect_msg, find_peer, ChannelReceiver, ClientAction, ClientHandler, Delivery, MsgType,
    Outgoing,
};

#[test]
fn register_new_and_taken_names() {
    let mut names = Names::new();
    let mut h = ClientHandler::new();
    assert_eq!(h.client_id, u16::MAX);
    let (name, msgs) = h.register(1, "anna".to_string(), &mut names);
    assert_eq!(name, "anna");
    assert_eq!(h.msg_prefix, b"anna: ".to_vec());
    assert_eq!(msgs.len(), 1);
    assert!(matches!(&msgs[0], MsgType::Joined(1, m) if m == b"User anna joined\n"));
    let mut h2 = ClientHandler::new();
    let (name2, msgs2) = h2.register(2, "anna".to_string(), &mut names);
    assert_eq!(name2, "anna_2");
    assert!(matches!(&msgs2[0], MsgType::JoinedAck(2, m) if m == b"You have successfully joined as anna_2 \n"));
    assert!(matches!(&msgs2[1], MsgType::Joined(2, m) if m == b"User anna_2 joined\n"));
    assert_eq!(h2.msg_prefix, b"anna_2: ".to_vec());
}

#[test]
fn client_requests_become_server_messages() {
    let mut h = ClientHandler::new();
    h.client_id = 4;
    h.set_msg_prompt(b"bob".to_vec());
    match h.on_request(Request::Message(b"one\n\ntwo\n".to_vec())) {
        ClientAction::Forward(v) => {
            assert_eq!(v.len(), 2);
            assert!(matches!(&v[0], MsgType::Message(4, m) if m == b"bob: one"));
            assert!(matches!(&v[1], MsgType::Message(4, m) if m == b"bob: two"));
        }
        _ => panic!("expected forward"),
    }
    assert!(matches!(h.on_request(Request::Users), ClientAction::Forward(v) if matches!(v[..], [MsgType::Users(4)])));
    assert!(matches!(h.on_request(Request::Quit), ClientAction::Disconnect));
    assert!(matches!(h.on_request(Request::ForkPeer { pname: b"x".to_vec() }), ClientAction::LookupPeer(n) if n == b"x"));
    assert!(matches!(h.fork_answer(b"x".to_vec(), None), MsgType::PeerUnavailable(4, n) if n == b"x"));
    assert!(matches!(h.fork_answer(b"x".to_vec(), Some((9, b"a:1".to_vec()))), MsgType::ForkPeerAck(4, 9, n, a) if n == b"x" && a == b"a:1"));
}

#[test]
fn peers_are_found_by_name() {
    let entries = vec![
        (1u16, "1.1.1.1:1".to_string(), "anna".to_string()),
        (2u16, "2.2.2.2:2".to_string(), "bob".to_string()),
    ];
    assert_eq!(find_peer(&entries, &b"bob".to_vec()), Some((2, b"2.2.2.2:2".to_vec())));
    assert_eq!(find_peer(&entries, &b"carl".to_vec()), None);
    assert_eq!(find_peer(&entries, &vec![0xff]), None);
}

#[test]
fn leaving_is_announced() {
    let mut names = Names::new();
    names.insert("anna".to_string());
    let m = disconnect_msg(Some("anna".to_string()), &mut names);
    assert!(matches!(m, MsgType::Exited(t) if t == b"User anna has left\n"));
    assert!(!names.contains(&"anna".to_string()));
    assert!(matches!(disconnect_msg(None, &mut names), MsgType::Exited(t) if t.is_empty()));
}

#[test]
fn dispatch_routes_messages() {
    let mut names = Names::new();
    names.insert("anna".to_string());
    let out = ChannelReceiver::dispatch(MsgType::Joined(3, b"hi".to_vec()), &names);
    assert!(matches!(&out[0], Outgoing::BroadcastExcept(3, Response::Notification(m)) if m == b"hi"));
    assert!(matches!(&out[1], Outgoing::Requeue(MsgType::Users(3))));
    let out = ChannelReceiver::dispatch(MsgType::Users(3), &names);
    assert!(matches!(&out[0], Outgoing::Requeue(MsgType::MessageSingle(3, m)) if m == b"Users currently online: anna "));
    let out = ChannelReceiver::dispatch(MsgType::Message(5, b"x".to_vec()), &names);
    assert!(matches!(&out[0], Outgoing::BroadcastExcept(5, Response::UserMessage { id: 5, msg }) if msg == b"x"));
    let out = ChannelReceiver::dispatch(MsgType::Exited(b"bye".to_vec()), &names);
    assert!(matches!(&out[0], Outgoing::Broadcast(Response::Notification(m)) if m == b"bye"));
    let out = ChannelReceiver::dispatch(MsgType::JoinedAck(2, b"n".to_vec()), &names);
    assert!(matches!(&out[0], Outgoing::Send(2, Response::JoinNameAck { id: 2, name }) if name == b"n"));
    let out = ChannelReceiver::dispatch(MsgType::MessageSingle(2, b"s".to_vec()), &names);
    assert!(matches!(&out[0], Outgoing::Send(2, Response::UserMessage { id: 2, msg }) if msg == b"s"));
    let out = ChannelReceiver::dispatch(MsgType::ForkPeerAck(1, 2, b"p".to_vec(), b"a".to_vec()), &names);
    assert!(matches!(&out[0], Outgoing::Send(1, Response::ForkPeerAckB { pid: 2, pname, addr }) if pname == b"p" && addr == b"a"));
    let out = ChannelReceiver::dispatch(MsgType::PeerUnavailable(1, b"p".to_vec()), &names);
    assert!(matches!(&out[0], Outgoing::Send(1, Response::PeerUnavailable(n)) if n == b"p"));
}

#[test]
fn delivery_frames_and_recipients() {
    assert_eq!(Delivery::frame_bytes(Response::Notification(b"ok".to_vec())), b"-@\x00\x02ok".to_vec());
    assert_eq!(Delivery::recipients(&vec![1, 2, 3, 2], 2), vec![1, 3]);
    assert_eq!(Delivery::recipients(&vec![1, 2], 0), vec![1, 2]);
}
