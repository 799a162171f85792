use chat::client::{Client, ClientEvent};
use chat::ids::{io_id, is_lobby, lobby_id, session_id, PeerServer};
use chat::input::{cmdline_input_in_range, parse_cmdline_input, InputCmd, InputReader, ReaderError};
use chat::peer::{PeerClient, PeerNames};
use chat::protocol::{Ask, ChatMsg, Request, Response};
use chat::sessions::InputBase;
use chat::text::{message_lines, parse_u16_bytes};

#[test]
fn ids_and_sessions() {
    assert_eq!(lobby_id(), 1000);
    assert!(is_lobby(1000));
    assert!(!is_lobby(1001));
    assert_eq!(session_id(1003), 3);
    assert_eq!(io_id(3), 1003);
    assert_eq!(session_id(io_id(42)), 42);
}

#[test]
fn peer_ports_cycle_through_four() {
    assert_eq!(PeerServer::peer_port(0), 43310);
    assert_eq!(PeerServer::peer_port(1), 43311);
    assert_eq!(PeerServer::peer_port(6), 43312);
    assert_eq!(PeerServer::peer_port(7), 43313);
    assert_eq!(PeerServer::peer_port(65535), 43313);
}

#[test]
fn interleave_cuts_into_64_byte_lines() {
    assert_eq!(InputReader::interleave_newlines("", None), Vec::<u8>::new());
    assert_eq!(InputReader::interleave_newlines("hi", None), b"hi\n".to_vec());
    let line = "a".repeat(130);
    let out = InputReader::interleave_newlines(&line, None);
    let mut expected = Vec::new();
    expected.extend(std::iter::repeat(b'a').take(64));
    expected.push(b'\n');
    expected.extend(std::iter::repeat(b'a').take(64));
    expected.push(b'\n');
    expected.extend(b"aa\n");
    assert_eq!(out, expected);
    let out = InputReader::interleave_newlines("ab", Some(b"<me> ".to_vec()));
    assert_eq!(out, b"<me> ab\n".to_vec());
}

#[test]
fn split_lines_round_trips_interleaved_text() {
    let line = "b".repeat(70);
    let sent = InputReader::interleave_newlines(&line, Some(b"h: ".to_vec()));
    let lines = message_lines(&sent);
    assert_eq!(lines.len(), 2);
    let mut first = b"h: ".to_vec();
    first.extend(std::iter::repeat(b'b').take(64));
    assert_eq!(lines[0], first);
    assert_eq!(lines[1], b"h: bbbbbb".to_vec());
}

#[test]
fn message_lines_skips_empty_pieces() {
    assert_eq!(message_lines(b"\n\na\n\nbc"), vec![b"a".to_vec(), b"bc".to_vec()]);
    assert_eq!(message_lines(b""), Vec::<Vec<u8>>::new());
    assert_eq!(message_lines(b"\n"), Vec::<Vec<u8>>::new());
}

#[test]
fn parse_u16_like_std() {
    for s in ["0", "+12", "65535", "", "+", "-1", "65536", "1a", " 1", "007"] {
        assert_eq!(parse_u16_bytes(s.as_bytes()), s.parse::<u16>().ok(), "{:?}", s);
    }
}

#[test]
fn cmdline_commands() {
    assert!(matches!(parse_cmdline_input("\\lobby".to_string()), Some(InputCmd::Switch(1000))));
    assert!(matches!(parse_cmdline_input("\\lob".to_string()), Some(InputCmd::Switch(1000))));
    assert!(matches!(parse_cmdline_input("\\ss".to_string()), Some(InputCmd::Sessions)));
    assert!(matches!(parse_cmdline_input("\\sessions".to_string()), Some(InputCmd::Sessions)));
    assert!(matches!(parse_cmdline_input("\\sw 2".to_string()), Some(InputCmd::Switch(1002))));
    assert!(matches!(parse_cmdline_input("\\switch 5 x".to_string()), Some(InputCmd::Switch(1005))));
    assert!(matches!(parse_cmdline_input("\\sw abc".to_string()), Some(InputCmd::Switch(1000))));
    assert!(parse_cmdline_input("\\sw".to_string()).is_none());
    assert!(matches!(parse_cmdline_input("\\quit".to_string()), Some(InputCmd::Quit)));
    match parse_cmdline_input("hello there".to_string()) {
        Some(InputCmd::Other(l)) => assert_eq!(l, "hello there"),
        other => panic!("unexpected {:?}", other),
    }
}

#[test]
fn switch_numbers_out_of_range_are_flagged() {
    assert!(cmdline_input_in_range(&"\\sw 64535".to_string()));
    assert!(!cmdline_input_in_range(&"\\sw 64536".to_string()));
    assert!(cmdline_input_in_range(&"plain".to_string()));
}

#[test]
fn client_parse_input() {
    assert_eq!(Client::parse_input("anna", "\\quit".to_string()), Some(Request::Quit));
    assert_eq!(Client::parse_input("anna", "\\users".to_string()), Some(Request::Users));
    assert_eq!(
        Client::parse_input("anna", "\\fork bob".to_string()),
        Some(Request::ForkPeer { pname: b"bob".to_vec() })
    );
    assert_eq!(Client::parse_input("anna", "\\fork anna".to_string()), None);
    assert_eq!(Client::parse_input("anna", "\\fork".to_string()), None);
    assert_eq!(
        Client::parse_input("anna", "hey".to_string()),
        Some(Request::Message(b"hey\n".to_vec()))
    );
}

#[test]
fn no_second_fork_to_same_peer() {
    let mut peers = PeerNames::new();
    assert!(peers.insert("bob".to_string()));
    assert_eq!(Client::cmd_request("anna", "\\fork bob".to_string(), &peers), None);
    assert_eq!(
        Client::cmd_request("anna", "\\fork carl".to_string(), &peers),
        Some(Request::ForkPeer { pname: b"carl".to_vec() })
    );
    assert!(!peers.insert("bob".to_string()));
    assert!(peers.remove("bob"));
    assert!(!peers.contains("bob"));
    assert!(!peers.remove("bob"));
}

#[test]
fn peer_client_parse_input() {
    assert_eq!(
        PeerClient::parse_input("anna", "\\leave".to_string()),
        Some(Ask::Leave(b"anna".to_vec()))
    );
    assert_eq!(
        PeerClient::parse_input("anna", "\\quit".to_string()),
        Some(Ask::Leave(b"anna".to_vec()))
    );
    assert_eq!(
        PeerClient::parse_input("anna", "hi".to_string()),
        Some(Ask::Note(b"<anna> hi\n".to_vec()))
    );
}

#[test]
fn reader_outcomes() {
    let mut base = InputBase::new(1000);
    base.switch_line("typed".to_string());
    assert_eq!(InputReader::read_outcome(true, 1000, 1000, &base), Ok(Some("typed".to_string())));
    assert_eq!(InputReader::read_outcome(true, 1001, 1000, &base), Ok(None));
    assert_eq!(InputReader::read_outcome(true, 1001, 1001, &base), Ok(None));
    assert_eq!(InputReader::read_outcome(false, 1000, 1000, &base), Err(ReaderError::NoNewLines));
}

#[test]
fn server_frames_become_client_events() {
    match Client::server_event(ChatMsg::Server(Response::UserMessage { id: 12, msg: b"hi".to_vec() })) {
        ClientEvent::Show(l) => assert_eq!(l, b"> 12 hi".to_vec()),
        _ => panic!(),
    }
    match Client::server_event(ChatMsg::Server(Response::Notification(b"note".to_vec()))) {
        ClientEvent::Show(l) => assert_eq!(l, b">>> note".to_vec()),
        _ => panic!(),
    }
    match Client::server_event(ChatMsg::Server(Response::PeerUnavailable(b"bob".to_vec()))) {
        ClientEvent::Show(l) => assert_eq!(l, b">>> Unable to fork into private session as peer bob unavailable".to_vec()),
        _ => panic!(),
    }
    match Client::server_event(ChatMsg::Server(Response::ForkPeerAckA { pid: 3, pname: b"bob".to_vec(), addr: "127.0.0.1:1".to_string() })) {
        ClientEvent::ForkPeer(pid, name, addr) => {
            assert_eq!(pid, 3);
            assert_eq!(name, "bob");
            assert_eq!(addr, "127.0.0.1:1");
        }
        _ => panic!(),
    }
}

#[test]
fn quit_and_lost_input_end_peer_sessions() {
    assert!(!Client::shutdown_aborts_peers(1));
    assert!(Client::shutdown_aborts_peers(2));
    assert!(Client::shutdown_aborts_peers(3));
}

#[test]
fn join_ack_sets_name_and_id() {
    let mut c = Client::new(1000);
    c.register_ack(ChatMsg::Server(Response::JoinNameAck { id: 5, name: b"anna".to_vec() }));
    assert_eq!(c.id, 5);
    assert_eq!(c.name, "anna");
    c.register_ack(ChatMsg::Server(Response::Notification(b"x".to_vec())));
    assert_eq!(c.id, 5);
}

#[test]
fn fork_to_self_is_recognised() {
    assert!(Client::fork_target_is_self("anna", &"\\fork anna".to_string()));
    assert!(Client::fork_target_is_self("anna", &"\\fork anna extra".to_string()));
    assert!(!Client::fork_target_is_self("anna", &"\\fork bob".to_string()));
    assert!(!Client::fork_target_is_self("anna", &"\\fork".to_string()));
    assert!(!Client::fork_target_is_self("anna", &"hello anna".to_string()));
}

#[test]
fn quit_line_is_recognised() {
    assert!(Client::is_quit_line("\\quit"));
    assert!(!Client::is_quit_line("\\quit "));
    assert!(!Client::is_quit_line("quit"));
}
