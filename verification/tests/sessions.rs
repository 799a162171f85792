use chat::input::InputCmd;
use chat::sessions::{auto_switch_notice, auto_switch_target, session_line, switch_notice, HandlerState, InputAction, InputBase, InputMsg};

#[test]
fn table_starts_with_the_lobby() {
    let base = InputBase::new(1000);
    assert!(base.contains_id(1000));
    assert_eq!(base.get_line_if_id_matches(1000), Some("empty".to_string()));
    let entries = base.session_entries();
    assert_eq!(entries, vec![(1000, "main lobby".to_string())]);
}

#[test]
fn ids_are_handed_out_in_turn() {
    let mut base = InputBase::new(1000);
    assert_eq!(base.get_next_id(), 1000);
    assert_eq!(base.get_next_id(), 1001);
    assert!(base.contains_id(1001));
    let mut wrap = InputBase::new(65535);
    assert_eq!(wrap.get_next_id(), 65535);
    assert_eq!(wrap.get_next_id(), 0);
}

#[test]
fn switching_and_closing_sessions() {
    let mut base = InputBase::new(1000);
    base.get_next_id();
    let id = base.get_next_id();
    assert!(!base.switch_id(2000));
    assert!(base.new_session(id, "bob".to_string()));
    assert_eq!(base.get_line_if_id_matches(id), Some("empty".to_string()));
    assert!(base.update_session_name(id, "bobby".to_string()));
    assert!(base.close_session(id));
    assert!(!base.contains_id(id));
    assert_eq!(base.get_line_if_id_matches(1000), Some("empty".to_string()));
    assert!(base.close_lobby());
    assert!(!base.close_lobby());
    assert!(!base.switch_id_line(1000, "x".to_string()));
}

#[test]
fn handler_other_and_switch() {
    let mut base = InputBase::new(1000);
    base.get_next_id();
    let mut st = HandlerState::new();
    let acts = st.on_cmd(&mut base, InputCmd::Other("hello".to_string()));
    assert_eq!(acts, vec![InputAction::Notify(1, 1000)]);
    assert_eq!(base.get_line_if_id_matches(1000), Some("hello".to_string()));
    let acts = st.on_cmd(&mut base, InputCmd::Switch(1005));
    assert_eq!(acts, vec![InputAction::InvalidSwitch]);
    let acts = st.on_cmd(&mut base, InputCmd::Sessions);
    assert_eq!(acts, vec![InputAction::DisplaySessions(1000)]);
}

#[test]
fn handler_quit_from_lobby_notifies_twice() {
    let mut base = InputBase::new(1000);
    let mut st = HandlerState::new();
    let acts = st.on_cmd(&mut base, InputCmd::Quit);
    assert_eq!(acts, vec![InputAction::Notify(1, 1000), InputAction::Notify(2, 1000)]);
    assert!(st.quit);
    assert_eq!(base.get_line_if_id_matches(1000), Some("\\quit".to_string()));
}

#[test]
fn handler_quit_from_peer_session_goes_back_to_lobby() {
    let mut base = InputBase::new(1000);
    base.get_next_id();
    let id = base.get_next_id();
    let mut st = HandlerState::new();
    assert!(!st.on_msg(&mut base, InputMsg::NewSession(id, "bob".to_string())));
    assert_eq!(st.current_id, id);
    let acts = st.on_cmd(&mut base, InputCmd::Quit);
    assert_eq!(acts, vec![InputAction::Notify(1, id), InputAction::PauseThenFinishQuit]);
    let acts = st.finish_quit(&mut base);
    assert_eq!(acts, vec![InputAction::Notify(2, 1000)]);
    assert_eq!(st.current_id, 1000);
    assert!(st.on_msg(&mut base, InputMsg::CloseLobby));
}

#[test]
fn handler_close_session_returns_to_lobby() {
    let mut base = InputBase::new(1000);
    base.get_next_id();
    let id = base.get_next_id();
    let mut st = HandlerState::new();
    st.on_msg(&mut base, InputMsg::NewSession(id, "bob".to_string()));
    st.on_msg(&mut base, InputMsg::UpdatedSessionName(id, "robert".to_string()));
    st.on_msg(&mut base, InputMsg::CloseSession(id));
    assert_eq!(st.current_id, 1000);
    assert!(!base.contains_id(id));
}

#[test]
fn session_lines_and_notices() {
    assert_eq!(session_line(1000, &"main lobby".to_string(), 1000), b"*0, broadcast chat in main lobby".to_vec());
    assert_eq!(session_line(1003, &"bob".to_string(), 1000), b" 3, peer chat --> bob".to_vec());
    assert_eq!(switch_notice(1000), b">>> Auto switched back to main lobby 0".to_vec());
    assert_eq!(switch_notice(1002), b">>> Auto switched to session 2, for lobby do: \\lob".to_vec());
}

#[test]
fn auto_switch_notices() {
    let mut base = InputBase::new(1000);
    base.get_next_id();
    let id = base.get_next_id();
    let open = InputMsg::NewSession(id, "bob".to_string());
    assert_eq!(auto_switch_target(&base, &open), Some(id));
    assert_eq!(
        auto_switch_notice(&base, &open),
        Some(b">>> Auto switched to session 1, for lobby do: \\lob".to_vec())
    );
    let unknown = InputMsg::NewSession(2000, "x".to_string());
    assert_eq!(auto_switch_target(&base, &unknown), None);
    let close = InputMsg::CloseSession(id);
    assert_eq!(auto_switch_notice(&base, &close), Some(b">>> Auto switched back to main lobby 0".to_vec()));
    assert_eq!(auto_switch_notice(&base, &InputMsg::CloseLobby), None);
    base.close_lobby();
    assert_eq!(auto_switch_target(&base, &close), None);
}

#[test]
fn announced_numbers_rise_by_one_over_a_run() {
    let mut base = InputBase::new(1000);
    base.get_next_id();
    let id = base.get_next_id();
    let mut st = HandlerState::new();
    let mut seen = Vec::new();
    let cmds = vec![
        InputCmd::Other("a".to_string()),
        InputCmd::Sessions,
        InputCmd::Switch(4000),
        InputCmd::Switch(id),
        InputCmd::Other("b".to_string()),
    ];
    for c in cmds {
        for a in st.on_cmd(&mut base, c) {
            if let InputAction::Notify(k, i) = a {
                seen.push((k, i));
            }
        }
    }
    let acts = st.on_cmd(&mut base, InputCmd::Quit);
    assert_eq!(acts, vec![InputAction::Notify(3, id), InputAction::PauseThenFinishQuit]);
    seen.push((3, id));
    for a in st.finish_quit(&mut base) {
        if let InputAction::Notify(k, i) = a {
            seen.push((k, i));
        }
    }
    assert_eq!(seen, vec![(1, 1000), (2, id), (3, id), (4, 1000)]);
    assert_eq!(st.seq_no, 4);
}

#[test]
fn only_announcing_commands_need_room() {
    let mut st = HandlerState::new();
    st.seq_no = 65535;
    assert!(st.can_take(&InputCmd::Sessions));
    assert!(st.can_take(&InputCmd::Switch(1000)));
    assert!(!st.can_take(&InputCmd::Other("x".to_string())));
    st.seq_no = 65534;
    assert!(st.can_take(&InputCmd::Other("x".to_string())));
    assert!(!st.can_take(&InputCmd::Quit));
    st.current_id = 1001;
    assert!(st.can_take(&InputCmd::Quit));
    let mut base = InputBase::new(1000);
    st.current_id = 1000;
    st.seq_no = 65535;
    assert_eq!(st.on_cmd(&mut base, InputCmd::Sessions), vec![InputAction::DisplaySessions(1000)]);
}
