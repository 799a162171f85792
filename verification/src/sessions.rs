//! The input handler's session table: which chat sessions are open, which one the typed
//! input goes to, the last line typed, and the next io id to hand out.

use std::collections::HashMap;
use vstd::prelude::*;
use vstd::std_specs::iter::IteratorSpec;
use vstd::string::*;
use vstd::utf8::*;

use crate::ids::{is_lobby, lobby_id, session_id, IO_ID_LOBBY, IO_ID_OFFSET};
use crate::input::{InputCmd, InputCmdView};
use crate::text::{append_range, concat_text, decimal, decimal_bytes};

verus! {

broadcast use vstd::std_specs::hash::group_hash_axioms;

/// The session table.
pub struct InputBase {
    current: (u16, String),
    sessions: HashMap<u16, String>,
    counter: u16,
}

/// The session table as mathematics.
pub struct InputView {
    /// The io id that typed input goes to.
    pub current_id: u16,
    /// The last line typed (or the command that ended the input).
    pub line: Seq<char>,
    /// The open sessions, each with its name.
    pub sessions: Map<u16, Seq<char>>,
    /// The next io id to hand out.
    pub counter: u16,
}

/// The names of a session map, as text.
pub open spec fn sessions_view(m: Map<u16, String>) -> Map<u16, Seq<char>> {
    m.map_values(|s: String| s@)
}

impl View for InputBase {
    type V = InputView;

    closed spec fn view(&self) -> InputView {
        InputView {
            current_id: self.current.0,
            line: self.current.1@,
            sessions: sessions_view(self.sessions@),
            counter: self.counter,
        }
    }
}

/// Switching the typed input to a session: only to an open one.
pub open spec fn switch_spec(v: InputView, id: u16) -> (InputView, bool) {
    if v.sessions.contains_key(id) {
        (InputView { current_id: id, ..v }, true)
    } else {
        (v, false)
    }
}

impl InputBase {
    /// A table with only the lobby (`seed_id`, named `main lobby`) open and current, the
    /// line `empty`, and `seed_id` as the next io id.
    pub fn new(seed_id: u16) -> (b: InputBase)
        ensures
            b@.current_id == seed_id,
            b@.line == "empty"@,
            b@.sessions == Map::<u16, Seq<char>>::empty().insert(seed_id, "main lobby"@),
            b@.counter == seed_id,
    {
        let mut sessions: HashMap<u16, String> = HashMap::new();
        sessions.insert(seed_id, String::from_str("main lobby"));
        let b = InputBase { current: (seed_id, String::from_str("empty")), sessions, counter: seed_id };
        assert(sessions_view(b.sessions@) =~= Map::<u16, Seq<char>>::empty().insert(
            seed_id,
            "main lobby"@,
        ));
        b
    }

    /// Hands out the next io id: the counter moves on by one (wrapping past 65535), and a
    /// new id other than the lobby's is opened as a session with an empty name.
    pub fn get_next_id(&mut self) -> (id: u16)
        ensures
            id == old(self)@.counter,
            final(self)@ == (InputView {
                counter: (if id == u16::MAX { 0 } else { (id + 1) as u16 }),
                sessions: if id == IO_ID_OFFSET {
                    old(self)@.sessions
                } else {
                    old(self)@.sessions.insert(id, Seq::empty())
                },
                ..old(self)@
            }),
    {
        let new_id = self.counter;
        self.counter = self.counter.wrapping_add(1);
        if !is_lobby(new_id) {
            self.sessions.insert(new_id, String::new());
        }
        proof {
            assert(sessions_view(self.sessions@) =~= (if new_id == IO_ID_OFFSET {
                old(self)@.sessions
            } else {
                old(self)@.sessions.insert(new_id, Seq::empty())
            }));
        }
        new_id
    }

    /// Whether a session is open.
    pub fn contains_id(&self, id: u16) -> (b: bool)
        ensures
            b == self@.sessions.contains_key(id),
    {
        self.sessions.contains_key(&id)
    }

    /// Switches the typed input to session `switch_id` when it is open; `true` if so.
    pub fn switch_id(&mut self, switch_id: u16) -> (switched: bool)
        ensures
            (final(self)@, switched) == switch_spec(old(self)@, switch_id),
    {
        if self.contains_id(switch_id) {
            self.current.0 = switch_id;
            true
        } else {
            false
        }
    }

    /// Switches the typed input to session `switch_id` and sets the line, when the session
    /// is open; `true` if so.
    pub fn switch_id_line(&mut self, switch_id: u16, line: String) -> (switched: bool)
        ensures
            switched == old(self)@.sessions.contains_key(switch_id),
            final(self)@ == (if switched {
                InputView { current_id: switch_id, line: line@, ..old(self)@ }
            } else {
                old(self)@
            }),
    {
        if self.contains_id(switch_id) {
            self.current = (switch_id, line);
            true
        } else {
            false
        }
    }

    /// Sets the line typed.
    pub fn switch_line(&mut self, line: String)
        ensures
            final(self)@ == (InputView { line: line@, ..old(self)@ }),
    {
        self.current.1 = line;
    }

    /// The line typed, if the typed input goes to session `match_id`.
    pub fn get_line_if_id_matches(&self, match_id: u16) -> (line: Option<String>)
        ensures
            match line {
                Some(l) => match_id == self@.current_id && l@ == self@.line,
                None => match_id != self@.current_id,
            },
    {
        if match_id == self.current.0 {
            Some(self.current.1.clone())
        } else {
            None
        }
    }

    /// Closes session `id`; `true` if it was open.
    pub fn remove_id(&mut self, id: u16) -> (removed: bool)
        ensures
            removed == old(self)@.sessions.contains_key(id),
            final(self)@ == (InputView { sessions: old(self)@.sessions.remove(id), ..old(self)@ }),
    {
        let r = self.sessions.remove(&id).is_some();
        proof {
            assert(sessions_view(self.sessions@) =~= old(self)@.sessions.remove(id));
        }
        r
    }

    /// Opens a new session: switches the typed input to it (it must already have an io
    /// id) and names it; `true` if so.
    pub fn new_session(&mut self, io_id: u16, name: String) -> (opened: bool)
        ensures
            opened == old(self)@.sessions.contains_key(io_id),
            final(self)@ == (if opened {
                InputView {
                    current_id: io_id,
                    sessions: old(self)@.sessions.insert(io_id, name@),
                    ..old(self)@
                }
            } else {
                old(self)@
            }),
    {
        if self.switch_id(io_id) {
            let r = self.sessions.insert(io_id, name).is_some();
            proof {
                assert(sessions_view(self.sessions@) =~= old(self)@.sessions.insert(io_id, name@));
            }
            r
        } else {
            false
        }
    }

    /// Names session `io_id` (opening it if it was not); `true` if it was open.
    pub fn update_session_name(&mut self, io_id: u16, name: String) -> (was_open: bool)
        ensures
            was_open == old(self)@.sessions.contains_key(io_id),
            final(self)@ == (InputView {
                sessions: old(self)@.sessions.insert(io_id, name@),
                ..old(self)@
            }),
    {
        let r = self.sessions.insert(io_id, name).is_some();
        proof {
            assert(sessions_view(self.sessions@) =~= old(self)@.sessions.insert(io_id, name@));
        }
        r
    }

    /// Closes session `io_id` after switching the typed input back to the lobby; `true`
    /// when both happened. Nothing is closed when the lobby is not open.
    pub fn close_session(&mut self, io_id: u16) -> (closed: bool)
        ensures
            ({
                let (switched, ok) = switch_spec(old(self)@, IO_ID_LOBBY);
                &&& closed == (ok && old(self)@.sessions.contains_key(io_id))
                &&& final(self)@ == (if ok {
                    InputView { sessions: switched.sessions.remove(io_id), ..switched }
                } else {
                    old(self)@
                })
            }),
    {
        if self.switch_id(lobby_id()) {
            self.remove_id(io_id)
        } else {
            false
        }
    }

    /// Closes the lobby session; `true` if it was open.
    pub fn close_lobby(&mut self) -> (closed: bool)
        ensures
            closed == old(self)@.sessions.contains_key(IO_ID_LOBBY),
            final(self)@ == (InputView {
                sessions: old(self)@.sessions.remove(IO_ID_LOBBY),
                ..old(self)@
            }),
    {
        self.remove_id(lobby_id())
    }

    /// Every open session with its name, each once, in the table's own order.
    pub fn session_entries(&self) -> (entries: Vec<(u16, String)>)
        ensures
            entries@.len() == self@.sessions.dom().len(),
            forall|i: int|
                0 <= i < entries@.len() ==> self@.sessions.contains_key(#[trigger] entries@[i].0)
                    && self@.sessions[entries@[i].0] == entries@[i].1@,
            forall|k: u16|
                self@.sessions.contains_key(k) ==> exists|i: int|
                    0 <= i < entries@.len() && #[trigger] entries@[i].0 == k,
    {
        let mut out: Vec<(u16, String)> = Vec::new();
        let ghost rem = vstd::std_specs::hash::spec_hash_map_iter(&self.sessions).remaining();
        proof {
            vstd::std_specs::hash::axiom_spec_hash_map_iter(&self.sessions);
        }
        let iter = self.sessions.iter();
        for (k, v) in it: iter
            invariant
                it.seq() == rem,
                rem.len() == self.sessions@.dom().len(),
                forall|kk: u16| #[trigger] self.sessions@.contains_key(kk) ==> rem.contains((&kk, &self.sessions@[kk])),
                out@.len() == it.index(),
                forall|i: int|
                    0 <= i < it.index() ==> (#[trigger] out@[i]).0 == *it.seq()[i].0 && out@[i].1@ == (
                    *it.seq()[i].1)@,
        {
            out.push((*k, v.clone()));
        }
        proof {
            assert(self@.sessions.dom() =~= self.sessions@.dom());
            assert(out@.len() == rem.len());
            assert forall|kk: u16| self@.sessions.contains_key(kk) implies exists|i: int|
                0 <= i < out@.len() && #[trigger] out@[i].0 == kk by {
                assert(self.sessions@.contains_key(kk));
                assert(rem.contains((&kk, &self.sessions@[kk])));
                let i = choose|i: int| 0 <= i < rem.len() && rem[i] == (&kk, &self.sessions@[kk]);
                assert(out@[i].0 == kk);
            }
        }
        out
    }
}

/// What the rest of the client tells the input handler.
#[derive(Debug)]
pub enum InputMsg {
    NewSession(u16, String),
    UpdatedSessionName(u16, String),
    CloseSession(u16),
    CloseLobby,
}

pub enum InputMsgView {
    NewSession(u16, Seq<char>),
    UpdatedSessionName(u16, Seq<char>),
    CloseSession(u16),
    CloseLobby,
}

impl View for InputMsg {
    type V = InputMsgView;

    open spec fn view(&self) -> InputMsgView {
        match self {
            InputMsg::NewSession(id, n) => InputMsgView::NewSession(*id, n@),
            InputMsg::UpdatedSessionName(id, n) => InputMsgView::UpdatedSessionName(*id, n@),
            InputMsg::CloseSession(id) => InputMsgView::CloseSession(*id),
            InputMsg::CloseLobby => InputMsgView::CloseLobby,
        }
    }
}

/// What the input handler's task must do after a step.
#[derive(Debug, PartialEq, Eq)]
pub enum InputAction {
    /// Show the open sessions, marking this io id as current.
    DisplaySessions(u16),
    /// Report that the session asked for is not open.
    InvalidSwitch,
    /// Tell the input readers that a line is ready: the change number and the io id it is for.
    Notify(u16, u16),
    /// Wait a moment for the last line to be read, then call `finish_quit`.
    PauseThenFinishQuit,
}

/// The input handler's own state: whether the user has quit, the io id typed input goes
/// to, and the number of lines announced so far.
pub struct HandlerState {
    pub quit: bool,
    pub current_id: u16,
    pub seq_no: u16,
}

/// What `HandlerState::on_cmd` does to the handler and the table, and the actions it asks
/// for.
pub open spec fn cmd_step(s: HandlerState, b: InputView, c: InputCmdView) -> (HandlerState, InputView, Seq<InputAction>) {
    match c {
        InputCmdView::Sessions => (s, b, seq![InputAction::DisplaySessions(s.current_id)]),
        InputCmdView::Switch(id) => {
            let (after, ok) = switch_spec(b, id);
            (
                HandlerState { current_id: if ok { id } else { s.current_id }, ..s },
                after,
                if ok { Seq::empty() } else { seq![InputAction::InvalidSwitch] },
            )
        },
        InputCmdView::Quit => {
            let quit_base = InputView { line: "\\quit"@, ..b };
            if s.current_id != IO_ID_LOBBY {
                (
                    HandlerState { quit: true, seq_no: (s.seq_no + 1) as u16, ..s },
                    quit_base,
                    seq![
                        InputAction::Notify((s.seq_no + 1) as u16, s.current_id),
                        InputAction::PauseThenFinishQuit,
                    ],
                )
            } else {
                (
                    HandlerState { quit: true, seq_no: (s.seq_no + 2) as u16, ..s },
                    quit_base,
                    seq![
                        InputAction::Notify((s.seq_no + 1) as u16, IO_ID_LOBBY),
                        InputAction::Notify((s.seq_no + 2) as u16, IO_ID_LOBBY),
                    ],
                )
            }
        },
        InputCmdView::Other(line) => (
            HandlerState { seq_no: (s.seq_no + 1) as u16, ..s },
            InputView { line, ..b },
            seq![InputAction::Notify((s.seq_no + 1) as u16, s.current_id)],
        ),
    }
}

/// How many lines `HandlerState::on_cmd` announces for a command, typing to `current_id`:
/// one for a typed line, two for a quit in the lobby and one for a quit elsewhere (the
/// second comes with `finish_quit`), none for a listing or a switch.
pub open spec fn cmd_notes(current_id: u16, c: InputCmdView) -> nat {
    match c {
        InputCmdView::Other(_) => 1,
        InputCmdView::Quit => if current_id == IO_ID_LOBBY { 2 } else { 1 },
        _ => 0,
    }
}

/// What `HandlerState::finish_quit` does: typed input moves to the lobby with the quit line
/// when the lobby is open, and one more line is announced.
pub open spec fn finish_step(s: HandlerState, b: InputView) -> (HandlerState, InputView, Seq<InputAction>) {
    let open = b.sessions.contains_key(IO_ID_LOBBY);
    let cur = if open { IO_ID_LOBBY } else { s.current_id };
    (
        HandlerState { current_id: cur, seq_no: (s.seq_no + 1) as u16, ..s },
        if open { InputView { current_id: IO_ID_LOBBY, line: "\\quit"@, ..b } } else { b },
        seq![InputAction::Notify((s.seq_no + 1) as u16, cur)],
    )
}

/// What `HandlerState::on_msg` does to the handler and the table.
pub open spec fn msg_step(s: HandlerState, b: InputView, m: InputMsgView) -> (HandlerState, InputView) {
    match m {
        InputMsgView::NewSession(id, name) => if b.sessions.contains_key(id) {
            (
                HandlerState { current_id: id, ..s },
                InputView { current_id: id, sessions: b.sessions.insert(id, name), ..b },
            )
        } else {
            (s, b)
        },
        InputMsgView::UpdatedSessionName(id, name) => (
            s,
            InputView { sessions: b.sessions.insert(id, name), ..b },
        ),
        InputMsgView::CloseSession(id) => {
            let (switched, ok) = switch_spec(b, IO_ID_LOBBY);
            if ok {
                (
                    HandlerState {
                        current_id: if b.sessions.contains_key(id) { IO_ID_LOBBY } else { s.current_id },
                        ..s
                    },
                    InputView { sessions: switched.sessions.remove(id), ..switched },
                )
            } else {
                (s, b)
            }
        },
        InputMsgView::CloseLobby => (s, InputView { sessions: b.sessions.remove(IO_ID_LOBBY), ..b }),
    }
}

impl HandlerState {
    /// The state at start: not quit, typing to the lobby, nothing announced.
    pub fn new() -> (s: HandlerState)
        ensures
            !s.quit,
            s.current_id == IO_ID_LOBBY,
            s.seq_no == 0,
    {
        HandlerState { quit: false, current_id: IO_ID_LOBBY, seq_no: 0 }
    }

    /// The handler and the table agree on where typed input goes.
    pub open spec fn agrees(&self, base: InputView) -> bool {
        self.current_id == base.current_id
    }

    /// Whether `on_cmd` can take this command: the change number has room for the lines it
    /// announces.
    pub fn can_take(&self, cmd: &InputCmd) -> (ok: bool)
        ensures
            ok == (self.seq_no + cmd_notes(self.current_id, cmd@) <= u16::MAX),
    {
        match cmd {
            InputCmd::Other(_) => self.seq_no < u16::MAX,
            InputCmd::Quit => if self.current_id == IO_ID_LOBBY {
                self.seq_no < u16::MAX - 1
            } else {
                self.seq_no < u16::MAX
            },
            _ => true,
        }
    }

    /// Takes a command read from the keyboard:
    /// - `Sessions` shows the open sessions;
    /// - `Switch` moves typed input to an open session, or reports that it is not open;
    /// - `Quit` records the quit line, announces it, and (away from the lobby) asks for a
    ///   pause before announcing it to the lobby too;
    /// - any other line is recorded and announced.
    pub fn on_cmd(&mut self, base: &mut InputBase, cmd: InputCmd) -> (actions: Vec<InputAction>)
        requires
            !old(self).quit,
            old(self).seq_no + cmd_notes(old(self).current_id, cmd@) <= u16::MAX,
        ensures
            (*final(self), final(base)@, actions@) == cmd_step(*old(self), old(base)@, cmd@),
            old(self).agrees(old(base)@) ==> final(self).agrees(final(base)@),
            match cmd@ {
                InputCmdView::Sessions => actions@ == seq![InputAction::DisplaySessions(old(self).current_id)]
                    && *final(self) == *old(self) && final(base)@ == old(base)@,
                InputCmdView::Switch(id) => {
                    let (after, ok) = switch_spec(old(base)@, id);
                    &&& final(base)@ == after
                    &&& final(self).current_id == (if ok { id } else { old(self).current_id })
                    &&& final(self).seq_no == old(self).seq_no && final(self).quit == old(self).quit
                    &&& actions@ == (if ok { Seq::empty() } else { seq![InputAction::InvalidSwitch] })
                },
                InputCmdView::Quit => {
                    &&& final(base)@ == (InputView { line: "\\quit"@, ..old(base)@ })
                    &&& final(self).quit
                    &&& final(self).current_id == old(self).current_id
                    &&& if old(self).current_id != IO_ID_LOBBY {
                        &&& final(self).seq_no == old(self).seq_no + 1
                        &&& actions@ == seq![
                            InputAction::Notify((old(self).seq_no + 1) as u16, old(self).current_id),
                            InputAction::PauseThenFinishQuit,
                        ]
                    } else {
                        &&& final(self).seq_no == old(self).seq_no + 2
                        &&& actions@ == seq![
                            InputAction::Notify((old(self).seq_no + 1) as u16, IO_ID_LOBBY),
                            InputAction::Notify((old(self).seq_no + 2) as u16, IO_ID_LOBBY),
                        ]
                    }
                },
                InputCmdView::Other(line) => {
                    &&& final(base)@ == (InputView { line, ..old(base)@ })
                    &&& final(self).seq_no == old(self).seq_no + 1
                    &&& final(self).current_id == old(self).current_id && final(self).quit == old(self).quit
                    &&& actions@ == seq![InputAction::Notify((old(self).seq_no + 1) as u16, old(self).current_id)]
                },
            },
    {
        let mut actions: Vec<InputAction> = Vec::new();
        match cmd {
            InputCmd::Sessions => {
                actions.push(InputAction::DisplaySessions(self.current_id));
            },
            InputCmd::Switch(switch_id) => {
                if base.switch_id(switch_id) {
                    self.current_id = switch_id;
                } else {
                    actions.push(InputAction::InvalidSwitch);
                }
            },
            InputCmd::Quit => {
                base.switch_line(String::from_str("\\quit"));
                self.seq_no = self.seq_no + 1;
                actions.push(InputAction::Notify(self.seq_no, self.current_id));
                self.quit = true;
                if self.current_id != IO_ID_LOBBY {
                    actions.push(InputAction::PauseThenFinishQuit);
                } else {
                    self.seq_no = self.seq_no + 1;
                    actions.push(InputAction::Notify(self.seq_no, self.current_id));
                }
            },
            InputCmd::Other(line) => {
                base.switch_line(line);
                self.seq_no = self.seq_no + 1;
                actions.push(InputAction::Notify(self.seq_no, self.current_id));
            },
        }
        actions
    }

    /// After the pause that a quit away from the lobby asks for: typed input moves to the
    /// lobby (when it is open) with the quit line, and that is announced.
    pub fn finish_quit(&mut self, base: &mut InputBase) -> (actions: Vec<InputAction>)
        requires
            old(self).seq_no + 1 <= u16::MAX,
        ensures
            (*final(self), final(base)@, actions@) == finish_step(*old(self), old(base)@),
            old(self).agrees(old(base)@) ==> final(self).agrees(final(base)@),
            ({
                let open = old(base)@.sessions.contains_key(IO_ID_LOBBY);
                &&& final(base)@ == (if open {
                    InputView { current_id: IO_ID_LOBBY, line: "\\quit"@, ..old(base)@ }
                } else {
                    old(base)@
                })
                &&& final(self).current_id == (if open { IO_ID_LOBBY } else { old(self).current_id })
                &&& final(self).seq_no == old(self).seq_no + 1
                &&& final(self).quit == old(self).quit
                &&& actions@ == seq![InputAction::Notify((old(self).seq_no + 1) as u16, final(self).current_id)]
            }),
    {
        if base.switch_id_line(IO_ID_LOBBY, String::from_str("\\quit")) {
            self.current_id = IO_ID_LOBBY;
        }
        self.seq_no = self.seq_no + 1;
        let mut actions: Vec<InputAction> = Vec::new();
        actions.push(InputAction::Notify(self.seq_no, self.current_id));
        actions
    }

    /// Takes a message from the rest of the client; returns whether the handler is done
    /// (the user has quit):
    /// - a new session becomes current once it is named;
    /// - a session's name is updated;
    /// - a closed session sends typed input back to the lobby;
    /// - the lobby is closed.
    pub fn on_msg(&mut self, base: &mut InputBase, msg: InputMsg) -> (done: bool)
        ensures
            (*final(self), final(base)@) == msg_step(*old(self), old(base)@, msg@),
            done == old(self).quit,
            final(self).quit == old(self).quit,
            final(self).seq_no == old(self).seq_no,
            (old(self).agrees(old(base)@) && !(msg matches InputMsg::CloseSession(id)
                && !old(base)@.sessions.contains_key(id))) ==> final(self).agrees(final(base)@),
            match msg {
                InputMsg::NewSession(id, name) => {
                    let opened = old(base)@.sessions.contains_key(id);
                    &&& final(base)@ == (if opened {
                        InputView {
                            current_id: id,
                            sessions: old(base)@.sessions.insert(id, name@),
                            ..old(base)@
                        }
                    } else {
                        old(base)@
                    })
                    &&& final(self).current_id == (if opened { id } else { old(self).current_id })
                },
                InputMsg::UpdatedSessionName(id, name) => {
                    &&& final(base)@ == (InputView {
                        sessions: old(base)@.sessions.insert(id, name@),
                        ..old(base)@
                    })
                    &&& final(self).current_id == old(self).current_id
                },
                InputMsg::CloseSession(id) => {
                    let (switched, ok) = switch_spec(old(base)@, IO_ID_LOBBY);
                    let closed = ok && old(base)@.sessions.contains_key(id);
                    &&& final(base)@ == (if ok {
                        InputView { sessions: switched.sessions.remove(id), ..switched }
                    } else {
                        old(base)@
                    })
                    &&& final(self).current_id == (if closed { IO_ID_LOBBY } else { old(self).current_id })
                },
                InputMsg::CloseLobby => {
                    &&& final(base)@ == (InputView {
                        sessions: old(base)@.sessions.remove(IO_ID_LOBBY),
                        ..old(base)@
                    })
                    &&& final(self).current_id == old(self).current_id
                },
            },
    {
        match msg {
            InputMsg::NewSession(id, name) => {
                if base.new_session(id, name) {
                    self.current_id = id;
                }
            },
            InputMsg::UpdatedSessionName(id, name) => {
                base.update_session_name(id, name);
            },
            InputMsg::CloseSession(id) => {
                if base.close_session(id) {
                    self.current_id = IO_ID_LOBBY;
                }
            },
            InputMsg::CloseLobby => {
                base.close_lobby();
            },
        }
        self.quit
    }
}

/// One event that the input handler's task takes: a command typed by the user, or a
/// message from the rest of the client.
pub enum HandlerEvent {
    Cmd(InputCmdView),
    Msg(InputMsgView),
}

/// How the handler's task takes one event: commands are no longer read once the user has
/// quit; a quit away from the lobby is finished (after its pause) before the next event;
/// a message is applied.
pub open spec fn handle_event(s: HandlerState, b: InputView, e: HandlerEvent) -> (HandlerState, InputView, Seq<InputAction>) {
    match e {
        HandlerEvent::Cmd(c) => if s.quit {
            (s, b, Seq::empty())
        } else {
            let (s1, b1, a1) = cmd_step(s, b, c);
            if c is Quit && s.current_id != IO_ID_LOBBY {
                let (s2, b2, a2) = finish_step(s1, b1);
                (s2, b2, a1 + a2)
            } else {
                (s1, b1, a1)
            }
        },
        HandlerEvent::Msg(m) => {
            let (s1, b1) = msg_step(s, b, m);
            (s1, b1, Seq::empty())
        },
    }
}

/// Where the handler's task stands after a run of events: its state, the table, every
/// action asked for, and whether the task has ended (a message taken after the quit ends
/// it; later events are not taken).
pub struct HandlerRun {
    pub state: HandlerState,
    pub base: InputView,
    pub actions: Seq<InputAction>,
    pub done: bool,
}

/// The handler's task taking the events in order, from state `s` and table `b`.
pub open spec fn run_events(s: HandlerState, b: InputView, evs: Seq<HandlerEvent>) -> HandlerRun
    decreases evs.len(),
{
    if evs.len() == 0 {
        HandlerRun { state: s, base: b, actions: Seq::empty(), done: false }
    } else {
        let r = run_events(s, b, evs.drop_last());
        if r.done {
            r
        } else {
            let (s1, b1, a1) = handle_event(r.state, r.base, evs.last());
            HandlerRun {
                state: s1,
                base: b1,
                actions: r.actions + a1,
                done: evs.last() is Msg && r.state.quit,
            }
        }
    }
}

/// The values sent to the input readers among some actions: each announced line's change
/// number and io id, in order.
pub open spec fn notes(a: Seq<InputAction>) -> Seq<(u16, u16)>
    decreases a.len(),
{
    if a.len() == 0 {
        Seq::empty()
    } else {
        match a.last() {
            InputAction::Notify(k, id) => notes(a.drop_last()).push((k, id)),
            _ => notes(a.drop_last()),
        }
    }
}

/// The announced values of two runs of actions are those of each, in turn.
pub proof fn lemma_notes_concat(a: Seq<InputAction>, c: Seq<InputAction>)
    ensures
        notes(a + c) == notes(a) + notes(c),
    decreases c.len(),
{
    if c.len() == 0 {
        assert(a + c =~= a);
        assert(notes(a) + notes(c) =~= notes(a));
    } else {
        lemma_notes_concat(a, c.drop_last());
        assert((a + c).drop_last() =~= a + c.drop_last());
        assert((a + c).last() == c.last());
        match c.last() {
            InputAction::Notify(k, id) => {
                assert(notes(a) + notes(c) =~= (notes(a) + notes(c.drop_last())).push((k, id)));
            },
            _ => {},
        }
    }
}

/// What one event announces to the input readers: a typed line, once, for the current
/// session, after it is recorded; a quit, twice, first for the current session and then
/// for the lobby (or the current session when the lobby is closed); nothing for a
/// sessions listing, a switch, a message, or any command after the quit. A switch to a
/// session that is not open changes nothing. The change number moves on by one for each
/// value announced.
pub proof fn law_handler_event(s: HandlerState, b: InputView, e: HandlerEvent)
    requires
        s.seq_no + notes(handle_event(s, b, e).2).len() <= u16::MAX,
    ensures
        ({
            let (s1, b1, a) = handle_event(s, b, e);
            &&& s1.seq_no == s.seq_no + notes(a).len()
            &&& match e {
                HandlerEvent::Cmd(InputCmdView::Other(line)) => if s.quit {
                    notes(a) == Seq::<(u16, u16)>::empty()
                } else {
                    notes(a) == seq![((s.seq_no + 1) as u16, s.current_id)] && b1.line == line
                },
                HandlerEvent::Cmd(InputCmdView::Quit) => if s.quit {
                    notes(a) == Seq::<(u16, u16)>::empty()
                } else {
                    &&& s1.quit
                    &&& notes(a) == seq![
                        ((s.seq_no + 1) as u16, s.current_id),
                        (
                            (s.seq_no + 2) as u16,
                            if s.current_id == IO_ID_LOBBY || b.sessions.contains_key(IO_ID_LOBBY) {
                                IO_ID_LOBBY
                            } else {
                                s.current_id
                            },
                        ),
                    ]
                },
                HandlerEvent::Cmd(InputCmdView::Switch(id)) => {
                    &&& notes(a) == Seq::<(u16, u16)>::empty()
                    &&& !b.sessions.contains_key(id) ==> s1 == s && b1 == b
                },
                _ => notes(a) == Seq::<(u16, u16)>::empty(),
            }
        }),
{
    reveal_with_fuel(notes, 3);
    let (s1, b1, a) = handle_event(s, b, e);
    match e {
        HandlerEvent::Cmd(c) => {
            if !s.quit && c is Quit && s.current_id != IO_ID_LOBBY {
                let (sa, ba, a1) = cmd_step(s, b, c);
                let (sb, bb, a2) = finish_step(sa, ba);
                lemma_notes_concat(a1, a2);
                assert(notes(a1) =~= seq![((s.seq_no + 1) as u16, s.current_id)]);
                assert(notes(a2) =~= seq![((s.seq_no + 2) as u16, sb.current_id)]);
            }
        },
        HandlerEvent::Msg(m) => {},
    }
}

/// Over any run of events the values announced to the input readers carry the change
/// numbers one after another, from one past the handler's number at the start, and the
/// handler's number ends at the last of them; each event adds what `law_handler_event`
/// says, and once the task has ended nothing more is announced.
pub proof fn law_handler_run(s: HandlerState, b: InputView, evs: Seq<HandlerEvent>)
    requires
        s.seq_no + notes(run_events(s, b, evs).actions).len() <= u16::MAX,
    ensures
        ({
            let r = run_events(s, b, evs);
            let ns = notes(r.actions);
            &&& r.state.seq_no == s.seq_no + ns.len()
            &&& ns.len() <= 2 * evs.len()
            &&& forall|i: int| 0 <= i < ns.len() ==> (#[trigger] ns[i]).0 == s.seq_no + i + 1
        }),
    decreases evs.len(),
{
    if evs.len() > 0 {
        let prev = evs.drop_last();
        let r = run_events(s, b, prev);
        if !r.done {
            let (s1, b1, a1) = handle_event(r.state, r.base, evs.last());
            lemma_notes_concat(r.actions, a1);
            assert(run_events(s, b, evs).actions == r.actions + a1);
        }
        law_handler_run(s, b, prev);
        if !r.done {
            let e = evs.last();
            law_handler_event(r.state, r.base, e);
            let (s1, b1, a1) = handle_event(r.state, r.base, e);
            let ns = notes(r.actions + a1);
            assert forall|i: int| 0 <= i < ns.len() implies (#[trigger] ns[i]).0 == s.seq_no + i + 1 by {
                if i >= notes(r.actions).len() {
                    let j = i - notes(r.actions).len();
                    assert(ns[i] == notes(a1)[j]);
                } else {
                    assert(ns[i] == notes(r.actions)[i]);
                }
            }
        }
    }
}

/// The line listing one session: `*` for the current one (a space otherwise), its session
/// id, and `, broadcast chat in {name}` for the lobby or `, peer chat --> {name}` for a
/// peer session.
pub open spec fn session_line_spec(k: u16, name: Seq<char>, current_id: u16) -> Seq<u8> {
    (if k == current_id { encode_utf8("*"@) } else { encode_utf8(" "@) }) + decimal(
        (k - IO_ID_OFFSET) as nat,
    ) + (if k == IO_ID_OFFSET {
        encode_utf8(", broadcast chat in "@)
    } else {
        encode_utf8(", peer chat --> "@)
    }) + encode_utf8(name)
}

/// The note shown when typed input is moved automatically to session `id`:
/// `>>> Auto switched back to main lobby {sid}` for the lobby,
/// `>>> Auto switched to session {sid}, for lobby do: \lob` otherwise.
pub open spec fn switch_notice_spec(id: u16) -> Seq<u8> {
    if id == IO_ID_OFFSET {
        encode_utf8(">>> Auto switched back to main lobby "@) + decimal((id - IO_ID_OFFSET) as nat)
    } else {
        encode_utf8(">>> Auto switched to session "@) + decimal((id - IO_ID_OFFSET) as nat)
            + encode_utf8(", for lobby do: \\lob"@)
    }
}

/// The session a message moves typed input to, if any: a new session that is open, or the
/// lobby, when it is open, on a session's closing.
pub open spec fn auto_switch_spec(b: InputView, m: InputMsgView) -> Option<u16> {
    match m {
        InputMsgView::NewSession(id, _) => if b.sessions.contains_key(id) {
            Some(id)
        } else {
            None
        },
        InputMsgView::CloseSession(_) => if b.sessions.contains_key(IO_ID_LOBBY) {
            Some(IO_ID_LOBBY)
        } else {
            None
        },
        _ => None,
    }
}

/// The session a message moves typed input to, if any.
pub fn auto_switch_target(base: &InputBase, msg: &InputMsg) -> (t: Option<u16>)
    ensures
        t == auto_switch_spec(base@, msg@),
{
    match msg {
        InputMsg::NewSession(id, _) => if base.contains_id(*id) {
            Some(*id)
        } else {
            None
        },
        InputMsg::CloseSession(_) => if base.contains_id(IO_ID_LOBBY) {
            Some(IO_ID_LOBBY)
        } else {
            None
        },
        _ => None,
    }
}

/// The note shown for a message that moves typed input to another session, if it does.
pub fn auto_switch_notice(base: &InputBase, msg: &InputMsg) -> (note: Option<Vec<u8>>)
    requires
        auto_switch_spec(base@, msg@) matches Some(id) ==> id >= IO_ID_OFFSET,
    ensures
        match auto_switch_spec(base@, msg@) {
            Some(id) => note matches Some(n) && n@ == switch_notice_spec(id),
            None => note is None,
        },
{
    match auto_switch_target(base, msg) {
        Some(id) => Some(switch_notice(id)),
        None => None,
    }
}

/// A session's listing line starts with `*` exactly when the session is the one typed
/// input goes to, and with a space otherwise, whatever the session.
pub proof fn law_star_marks_current(k: u16, name: Seq<char>, current_id: u16)
    ensures
        session_line_spec(k, name, current_id).len() > 0,
        session_line_spec(k, name, current_id)[0] == (if k == current_id { 42u8 } else { 32u8 }),
{
    reveal_strlit("*");
    reveal_strlit(" ");
    assert("*"@ =~= seq!['*']);
    assert(" "@ =~= seq![' ']);
    assert(('*' as u32) == 42u32);
    assert((' ' as u32) == 32u32);
    assert((42u32 & 0x7Fu32) as u8 == 42u8) by (bit_vector);
    assert((32u32 & 0x7Fu32) as u8 == 32u8) by (bit_vector);
    assert(encode_utf8(seq!['*']) =~= seq![42u8]) by {
        assert(seq!['*'].drop_first() =~= Seq::<char>::empty());
        reveal_with_fuel(encode_utf8, 2);
    }
    assert(encode_utf8(seq![' ']) =~= seq![32u8]) by {
        assert(seq![' '].drop_first() =~= Seq::<char>::empty());
        reveal_with_fuel(encode_utf8, 2);
    }
}

/// The line listing one session.
pub fn session_line(k: u16, name: &String, current_id: u16) -> (line: Vec<u8>)
    requires
        k >= IO_ID_OFFSET,
    ensures
        line@ == session_line_spec(k, name@, current_id),
        line@.len() > 0,
        line@[0] == (if k == current_id { 42u8 } else { 32u8 }),
{
    proof {
        law_star_marks_current(k, name@, current_id);
    }
    let digits = decimal_bytes(session_id(k) as u64);
    let head = if k == current_id { "*" } else { " " };
    let tail = if is_lobby(k) { ", broadcast chat in " } else { ", peer chat --> " };
    let mut line = concat_text(head, &digits, tail);
    let n = name.as_str().as_bytes();
    append_range(&mut line, n, 0, n.len());
    assert(n@.subrange(0, n@.len() as int) =~= n@);
    line
}

/// The note shown when typed input is moved automatically to session `id`.
pub fn switch_notice(id: u16) -> (note: Vec<u8>)
    requires
        id >= IO_ID_OFFSET,
    ensures
        note@ == switch_notice_spec(id),
{
    let digits = decimal_bytes(session_id(id) as u64);
    if is_lobby(id) {
        let note = concat_text(">>> Auto switched back to main lobby ", &digits, "");
        proof {
            reveal_strlit("");
            assert(note@ =~= switch_notice_spec(id));
        }
        note
    } else {
        concat_text(">>> Auto switched to session ", &digits, ", for lobby do: \\lob")
    }
}

} // verus!
