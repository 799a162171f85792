use chat::peer::{
    local_msg_event, local_msg_of_ask, peer_hello_msg, peer_left_msg, reply_event,
    reply_for_local_msg, reply_for_reader_msg, spawn_allowed, PeerMsg, PeerNames, PeerServerStep,
};
use chat::peer::{event_step, EventAction, EventKind, PeerClient};
use chat::protocol::{Ask, Reply};
use chat::sessions::InputMsg;

#[test]
fn hello_and_left_texts() {
    let (name, msg) = peer_hello_msg(b"anna".to_vec());
    assert_eq!(name, "anna");
    assert_eq!(msg, b"Peer anna is ready to chat".to_vec());
    let (name, msg) = peer_hello_msg(vec![0xff]);
    assert_eq!(name, "");
    assert_eq!(msg, b"Peer  is ready to chat".to_vec());
    assert_eq!(peer_left_msg(b"bob".to_vec()), b"Peer bob has left".to_vec());
}

#[test]
fn peer_server_steps() {
    let own = "bob".to_string();
    let step = PeerServerStep::on_ask(&own, Ask::Hello(b"anna".to_vec()));
    assert!(!step.stop);
    assert!(matches!(&step.to_peer_b[..], [PeerMsg::Hello(n, m)] if n == "anna" && m == b"Peer anna is ready to chat"));
    assert!(matches!(&step.to_writer[..], [PeerMsg::Hello(n, m)] if n.is_empty() && m == b"bob"));
    let step = PeerServerStep::on_ask(&own, Ask::Note(b"<anna> a\n<anna> b\n".to_vec()));
    assert!(matches!(&step.to_peer_b[..], [PeerMsg::Note(a), PeerMsg::Note(b)] if a == b"<anna> a" && b == b"<anna> b"));
    assert!(step.to_writer.is_empty());
    let step = PeerServerStep::on_ask(&own, Ask::Leave(b"anna".to_vec()));
    assert!(step.stop);
    assert!(matches!(&step.to_peer_b[..], [PeerMsg::Leave(m)] if m == b"Peer anna has left"));
    assert!(matches!(&step.to_writer[..], [PeerMsg::Leave(m)] if m.is_empty()));
    let step = PeerServerStep::on_closed();
    assert!(matches!(&step.to_peer_b[..], [PeerMsg::Leave(m)] if m == b"Peer current has left"));
}

#[test]
fn writer_mappings() {
    assert!(matches!(local_msg_of_ask(Ask::Note(b"n".to_vec())), PeerMsg::Note(m) if m == b"n"));
    assert!(matches!(local_msg_of_ask(Ask::Leave(b"l".to_vec())), PeerMsg::Leave(m) if m == b"l"));
    assert!(matches!(reply_for_reader_msg(PeerMsg::Hello(String::new(), b"bob".to_vec())), Some(Reply::Hello(m)) if m == b"bob"));
    assert!(reply_for_reader_msg(PeerMsg::Leave(vec![])).is_none());
    assert!(matches!(reply_for_local_msg(PeerMsg::Leave(b"x".to_vec())), (Reply::Leave(m), true) if m == b"x"));
    assert!(matches!(reply_for_local_msg(PeerMsg::Note(b"y".to_vec())), (Reply::Note(m), false) if m == b"y"));
}

#[test]
fn displayed_lines() {
    assert_eq!(reply_event(Reply::Note(b"hey".to_vec())), (b"P-> hey".to_vec(), false));
    assert_eq!(
        reply_event(Reply::Hello(b"bob".to_vec())),
        (b"< Peer bob is ready to chat >".to_vec(), false)
    );
    assert_eq!(
        reply_event(Reply::Leave(b"bob".to_vec())),
        (b"< Session terminated as peer bob has left>".to_vec(), true)
    );
    let (line, stop, name) = local_msg_event(PeerMsg::Hello("anna".to_string(), b"Peer anna is ready to chat".to_vec()), 1012);
    assert_eq!(
        String::from_utf8(line).unwrap(),
        "< Peer anna is ready to chat, to chat, type: \\sw 12 (peer type B), to return to lobby, type: \\sw 0 >"
    );
    assert!(!stop);
    assert_eq!(name, Some("anna".to_string()));
    let (line, stop, name) = local_msg_event(PeerMsg::Leave(b"Peer anna has left".to_vec()), 1001);
    assert_eq!(line, b"< Session terminated as peer Peer anna has left has left>".to_vec());
    assert!(stop);
    assert_eq!(name, None);
    let (line, stop, name) = local_msg_event(PeerMsg::Note(b"hi".to_vec()), 1001);
    assert_eq!(line, b"P~> hi".to_vec());
    assert!(!stop);
    assert_eq!(name, None);
}

#[test]
fn second_session_with_same_peer_is_refused() {
    let mut names = PeerNames::new();
    assert!(spawn_allowed(Some("bob".to_string()), &mut names));
    assert!(!spawn_allowed(Some("bob".to_string()), &mut names));
    assert!(spawn_allowed(None, &mut names));
    assert!(names.contains("bob"));
}

#[test]
fn event_bus_steps() {
    assert!(matches!(event_step(true, EventKind::Spawn), (true, EventAction::StartPeer)));
    assert!(matches!(event_step(false, EventKind::Spawn), (false, EventAction::Ignore)));
    assert!(matches!(
        event_step(true, EventKind::NewSession(1001, "bob".to_string())),
        (true, EventAction::Forward(InputMsg::NewSession(1001, ref n))) if n == "bob"
    ));
    assert!(matches!(
        event_step(true, EventKind::UpdatedSessionName(1001, "bob".to_string())),
        (true, EventAction::ForwardThenInsert(InputMsg::UpdatedSessionName(1001, ref m), ref n)) if m == "bob" && n == "bob"
    ));
    assert!(matches!(
        event_step(false, EventKind::CloseSession(1001, "bob".to_string())),
        (false, EventAction::ForwardThenRemove(InputMsg::CloseSession(1001), ref n)) if n == "bob"
    ));
    assert!(matches!(event_step(true, EventKind::CloseLobby), (false, EventAction::Forward(InputMsg::CloseLobby))));
}

#[test]
fn lines_that_end_a_peer_session() {
    assert!(PeerClient::ends_session("\\leave"));
    assert!(PeerClient::ends_session("\\quit"));
    assert!(!PeerClient::ends_session("\\leave now"));
    assert!(!PeerClient::ends_session("bye"));
}

#[test]
fn closing_peer_name_prefers_the_known_one() {
    let mut a = PeerClient::new("anna".to_string(), Some("bob".to_string()), 1001);
    assert_eq!(a.closing_peer_name(Some("carl".to_string())), Some("bob".to_string()));
    assert_eq!(a.peer_name, None);
    let mut b = PeerClient::new("anna".to_string(), None, 1002);
    assert_eq!(b.closing_peer_name(Some("carl".to_string())), Some("carl".to_string()));
    assert_eq!(b.closing_peer_name(None), None);
}
