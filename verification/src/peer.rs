//! Private peer sessions: the peer client's reading of typed lines, and what the peer
//! server and the peer writers pass on for each message.

use vstd::prelude::*;
use vstd::string::*;
use vstd::utf8::*;

use crate::ids::{session_id, IO_ID_OFFSET};
use crate::protocol::{Ask, AskView, ChatMsg, Reply, ReplyView};
use crate::sessions::{InputMsg, InputMsgView};
use crate::text::{decimal, decimal_bytes};
use crate::text::{
    append_range, concat_text, interleaved, lines_view, message_lines, nonempty_lines,
    num_chunks, str_eq, string_from_utf8,
};

verus! {

/// A message between a peer server and the peer client on the same node.
#[derive(Debug)]
pub enum PeerMsg {
    Hello(String, Vec<u8>),
    Note(Vec<u8>),
    Leave(Vec<u8>),
}

/// A message between a peer server and a peer client, as first drafted (a hello
/// carries only bytes).
#[derive(Debug)]
pub enum PeerMsgType {
    Hello(Vec<u8>),
    Note(Vec<u8>),
    Leave(Vec<u8>),
}

pub enum PeerMsgView {
    Hello(Seq<char>, Seq<u8>),
    Note(Seq<u8>),
    Leave(Seq<u8>),
}

impl View for PeerMsg {
    type V = PeerMsgView;

    open spec fn view(&self) -> PeerMsgView {
        match self {
            PeerMsg::Hello(n, m) => PeerMsgView::Hello(n@, m@),
            PeerMsg::Note(m) => PeerMsgView::Note(m@),
            PeerMsg::Leave(m) => PeerMsgView::Leave(m@),
        }
    }
}

/// The header put before each line a peer types: `<name> `.
pub open spec fn note_header(name: Seq<char>) -> Seq<u8> {
    seq![60u8] + encode_utf8(name) + seq![62u8, 32u8]
}

/// What a line typed in a peer session is sent as: `\leave` or `\quit` leaves (carrying
/// one's name), anything else is a note cut into lines of at most 64 bytes, each headed
/// `<name> `.
pub open spec fn peer_ask(name: Seq<char>, line: Seq<char>) -> AskView {
    if line == "\\leave"@ || line == "\\quit"@ {
        AskView::Leave(encode_utf8(name))
    } else {
        AskView::Note(interleaved(encode_utf8(line), note_header(name)))
    }
}

/// A peer session this client opens: the address of the peer's server, the user's name
/// and the peer's name.
#[derive(Debug)]
pub struct PeerA(pub String, pub String, pub String);

/// A peer client: the user's name, the peer's name when known, and the session's io id.
pub struct PeerClient {
    pub name: String,
    pub peer_name: Option<String>,
    pub io_id: u16,
}

impl PeerClient {
    pub fn new(name: String, peer_name: Option<String>, io_id: u16) -> (c: PeerClient)
        ensures
            c.name == name,
            c.peer_name == peer_name,
            c.io_id == io_id,
    {
        PeerClient { name, peer_name, io_id }
    }

    /// The peer's name to forget when the session closes: the one the client was made
    /// with, or else the one heard in the peer's hello. The client no longer holds it.
    pub fn closing_peer_name(&mut self, heard: Option<String>) -> (n: Option<String>)
        ensures
            n == (match old(self).peer_name {
                Some(p) => Some(p),
                None => heard,
            }),
            final(self).peer_name is None,
            final(self).name == old(self).name,
            final(self).io_id == old(self).io_id,
    {
        match self.peer_name.take() {
            Some(p) => Some(p),
            None => heard,
        }
    }

    /// Whether a line typed in a peer session ends it: `\leave` or `\quit`.
    pub fn ends_session(line: &str) -> (b: bool)
        ensures
            b == (line@ == "\\leave"@ || line@ == "\\quit"@),
    {
        str_eq(line, "\\leave") || str_eq(line, "\\quit")
    }

    /// Reads a line typed in a peer session as what to send the peer.
    pub fn parse_input(name: &str, line: String) -> (ask: Option<Ask>)
        ensures
            ask matches Some(a) && a@ == peer_ask(name@, line@),
    {
        if str_eq(line.as_str(), "\\leave") || str_eq(line.as_str(), "\\quit") {
            Some(Ask::Leave(name.as_bytes_vec()))
        } else {
            let name_bytes = name.as_bytes();
            let mut header: Vec<u8> = Vec::new();
            header.push(60u8);
            append_range(&mut header, name_bytes, 0, name_bytes.len());
            header.push(62u8);
            header.push(32u8);
            assert(name_bytes@.subrange(0, name_bytes@.len() as int) =~= name_bytes@);
            assert(header@ =~= note_header(name@));
            let msg = crate::input::InputReader::interleave_newlines(line.as_str(), Some(header));
            Some(Ask::Note(msg))
        }
    }
}

/// Text bytes as `String::from_utf8(..).unwrap_or_default()` keeps them: unchanged when
/// they are UTF-8, none otherwise.
pub open spec fn lossy(b: Seq<u8>) -> Seq<u8> {
    if valid_utf8(b) {
        b
    } else {
        Seq::empty()
    }
}

/// `Peer {name} is ready to chat`.
pub open spec fn peer_hello_text(name: Seq<u8>) -> Seq<u8> {
    encode_utf8("Peer "@) + lossy(name) + encode_utf8(" is ready to chat"@)
}

/// `Peer {name} has left`.
pub open spec fn peer_left_text(name: Seq<u8>) -> Seq<u8> {
    encode_utf8("Peer "@) + lossy(name) + encode_utf8(" has left"@)
}

/// The text of some bytes, or the empty text when they are not UTF-8; with its bytes.
pub(crate) fn text_or_empty(b: Vec<u8>) -> (r: (String, Vec<u8>))
    ensures
        r.0@ == (if valid_utf8(b@) { decode_utf8(b@) } else { Seq::empty() }),
        r.1@ == lossy(b@),
        r.1@ == encode_utf8(r.0@),
{
    match string_from_utf8(b) {
        Some(s) => {
            let bytes = s.as_str().as_bytes_vec();
            proof {
                decode_utf8_encode_utf8(b@);
            }
            (s, bytes)
        },
        None => {
            let s = String::new();
            let bytes = s.as_str().as_bytes_vec();
            assert(encode_utf8(Seq::<char>::empty()) =~= Seq::<u8>::empty());
            (s, bytes)
        },
    }
}

/// `Peer {name} has left`, with the name's bytes kept when they are UTF-8.
pub fn peer_left_msg(name: Vec<u8>) -> (msg: Vec<u8>)
    ensures
        msg@ == peer_left_text(name@),
{
    let (_, bytes) = text_or_empty(name);
    concat_text("Peer ", &bytes, " has left")
}

/// `Peer {name} is ready to chat`, with the name's text (empty when its bytes are not
/// UTF-8).
pub fn peer_hello_msg(name: Vec<u8>) -> (r: (String, Vec<u8>))
    ensures
        r.0@ == (if valid_utf8(name@) { decode_utf8(name@) } else { Seq::empty() }),
        r.1@ == peer_hello_text(name@),
{
    let (text, bytes) = text_or_empty(name);
    let msg = concat_text("Peer ", &bytes, " is ready to chat");
    (text, msg)
}

/// The views of a list of peer messages.
pub open spec fn peer_msgs_view(v: Seq<PeerMsg>) -> Seq<PeerMsgView> {
    v.map_values(|m: PeerMsg| m@)
}

/// What the peer server does with one message from the peer that opened the session:
/// messages for the local peer client, messages for the server's writer, and whether
/// reading stops.
pub struct PeerServerStep {
    pub to_peer_b: Vec<PeerMsg>,
    pub to_writer: Vec<PeerMsg>,
    pub stop: bool,
}

/// The step for an ask from the opening peer, at a peer server whose user is `own`:
/// - a hello greets the local client with `Peer {name} is ready to chat` and answers with
///   the user's own name;
/// - a leave tells the local client `Peer {name} has left`, tells the writer to stop, and
///   stops reading;
/// - a note passes each of its non-empty lines to the local client.
pub open spec fn peer_server_step(own: Seq<char>, ask: AskView) -> (Seq<PeerMsgView>, Seq<
    PeerMsgView,
>, bool) {
    match ask {
        AskView::Hello(name) => (
            seq![
                PeerMsgView::Hello(
                    if valid_utf8(name) { decode_utf8(name) } else { Seq::empty() },
                    peer_hello_text(name),
                ),
            ],
            seq![PeerMsgView::Hello(Seq::empty(), encode_utf8(own))],
            false,
        ),
        AskView::Leave(name) => (
            seq![PeerMsgView::Leave(peer_left_text(name))],
            seq![PeerMsgView::Leave(Seq::empty())],
            true,
        ),
        AskView::Note(msg) => (
            nonempty_lines(msg).map_values(|l: Seq<u8>| PeerMsgView::Note(l)),
            Seq::empty(),
            false,
        ),
    }
}

/// The peer server stops reading for an ask exactly when the ask is a leave: a hello or a
/// note keeps it reading, so every later note of the session is still passed on. A note
/// sends the writer nothing.
pub proof fn law_peer_server_stops_only_on_leave(own: Seq<char>, ask: AskView)
    ensures
        peer_server_step(own, ask).2 <==> ask is Leave,
        ask is Note ==> peer_server_step(own, ask).1.len() == 0,
{
}

/// A note for each line, in order.
fn notes_of(lines: Vec<Vec<u8>>) -> (notes: Vec<PeerMsg>)
    ensures
        peer_msgs_view(notes@) == lines_view(lines@).map_values(|l: Seq<u8>| PeerMsgView::Note(l)),
{
    let ghost all = lines_view(lines@).map_values(|l: Seq<u8>| PeerMsgView::Note(l));
    let mut notes: Vec<PeerMsg> = Vec::new();
    let mut rest = lines;
    while rest.len() > 0
        invariant
            peer_msgs_view(notes@) + lines_view(rest@).map_values(|l: Seq<u8>| PeerMsgView::Note(l))
                == all,
        decreases rest@.len(),
    {
        let ghost before_rest = rest@;
        let ghost before_notes = notes@;
        let line = rest.remove(0);
        notes.push(PeerMsg::Note(line));
        assert(peer_msgs_view(notes@) =~= peer_msgs_view(before_notes).push(PeerMsgView::Note(line@)));
        assert(lines_view(before_rest).map_values(|l: Seq<u8>| PeerMsgView::Note(l)) =~= seq![
            PeerMsgView::Note(line@),
        ] + lines_view(rest@).map_values(|l: Seq<u8>| PeerMsgView::Note(l)));
        assert(peer_msgs_view(notes@) + lines_view(rest@).map_values(
            |l: Seq<u8>| PeerMsgView::Note(l),
        ) =~= peer_msgs_view(before_notes) + lines_view(before_rest).map_values(
            |l: Seq<u8>| PeerMsgView::Note(l),
        ));
    }
    assert(lines_view(rest@).map_values(|l: Seq<u8>| PeerMsgView::Note(l)) =~= Seq::<PeerMsgView>::empty());
    assert(peer_msgs_view(notes@) =~= all);
    notes
}

impl PeerServerStep {
    /// The step's messages for the local peer client, for the writer, and whether it stops.
    pub open spec fn view(&self) -> (Seq<PeerMsgView>, Seq<PeerMsgView>, bool) {
        (peer_msgs_view(self.to_peer_b@), peer_msgs_view(self.to_writer@), self.stop)
    }

    /// The step for an ask from the opening peer, at a peer server whose user is `own`.
    pub fn on_ask(own: &String, ask: Ask) -> (step: PeerServerStep)
        ensures
            step.view() == peer_server_step(own@, ask@),
            step.stop == (ask@ is Leave),
    {
        proof {
            law_peer_server_stops_only_on_leave(own@, ask@);
        }
        match ask {
            Ask::Hello(name) => {
                let (text, hello) = peer_hello_msg(name);
                let mut to_peer_b: Vec<PeerMsg> = Vec::new();
                to_peer_b.push(PeerMsg::Hello(text, hello));
                let mut to_writer: Vec<PeerMsg> = Vec::new();
                to_writer.push(PeerMsg::Hello(String::new(), own.as_str().as_bytes_vec()));
                let step = PeerServerStep { to_peer_b, to_writer, stop: false };
                assert(step.view().0 =~= peer_server_step(own@, ask@).0);
                assert(step.view().1 =~= peer_server_step(own@, ask@).1);
                step
            },
            Ask::Leave(name) => {
                let left = peer_left_msg(name);
                let mut to_peer_b: Vec<PeerMsg> = Vec::new();
                to_peer_b.push(PeerMsg::Leave(left));
                let mut to_writer: Vec<PeerMsg> = Vec::new();
                to_writer.push(PeerMsg::Leave(Vec::new()));
                let step = PeerServerStep { to_peer_b, to_writer, stop: true };
                assert(step.view().0 =~= peer_server_step(own@, ask@).0);
                assert(step.view().1 =~= peer_server_step(own@, ask@).1);
                step
            },
            Ask::Note(msg) => {
                let lines = message_lines(msg.as_slice());
                let to_peer_b = notes_of(lines);
                let step = PeerServerStep { to_peer_b, to_writer: Vec::new(), stop: false };
                assert(step.view().1 =~= peer_server_step(own@, ask@).1);
                step
            },
        }
    }

    /// The step when the opening peer's connection closes: the local client is told
    /// `Peer current has left`, and reading stops.
    pub fn on_closed() -> (step: PeerServerStep)
        ensures
            step.view() == (
                seq![PeerMsgView::Leave(peer_left_text(encode_utf8("current"@)))],
                Seq::<PeerMsgView>::empty(),
                true,
            ),
    {
        let name = "current".as_bytes_vec();
        proof {
            reveal_strlit("current");
        }
        let left = peer_left_msg(name);
        let mut to_peer_b: Vec<PeerMsg> = Vec::new();
        to_peer_b.push(PeerMsg::Leave(left));
        let step = PeerServerStep { to_peer_b, to_writer: Vec::new(), stop: true };
        assert(step.view().0 =~= seq![PeerMsgView::Leave(peer_left_text(encode_utf8("current"@)))]);
        assert(step.view().1 =~= Seq::<PeerMsgView>::empty());
        step
    }
}

/// The names of the peers a client has a private session with; each at most once.
pub struct PeerNames {
    names: Vec<String>,
}

impl View for PeerNames {
    type V = Set<Seq<char>>;

    closed spec fn view(&self) -> Set<Seq<char>> {
        self.names@.map_values(|s: String| s@).to_set()
    }
}

impl PeerNames {
    /// No peer name is held twice.
    pub closed spec fn wf(&self) -> bool {
        self.names@.map_values(|s: String| s@).no_duplicates()
    }

    /// No peers yet.
    pub fn new() -> (p: PeerNames)
        ensures
            p.wf(),
            p@ == Set::<Seq<char>>::empty(),
    {
        let p = PeerNames { names: Vec::new() };
        assert(p.names@.map_values(|s: String| s@) =~= Seq::<Seq<char>>::empty());
        p
    }

    fn position(&self, peer_name: &str) -> (pos: Option<usize>)
        ensures
            match pos {
                Some(i) => i < self.names@.len() && self.names@[i as int]@ == peer_name@,
                None => !self@.contains(peer_name@),
            },
    {
        let mut i: usize = 0;
        while i < self.names.len()
            invariant
                i <= self.names@.len(),
                forall|j: int| 0 <= j < i ==> (#[trigger] self.names@[j])@ != peer_name@,
            decreases self.names@.len() - i,
        {
            if str_eq(self.names[i].as_str(), peer_name) {
                return Some(i);
            }
            i = i + 1;
        }
        proof {
            if self@.contains(peer_name@) {
                let v = self.names@.map_values(|s: String| s@);
                assert(v.contains(peer_name@));
                let j = choose|j: int| 0 <= j < v.len() && v[j] == peer_name@;
                assert(self.names@[j]@ == peer_name@);
            }
        }
        None
    }

    /// Whether there is a session with this peer.
    pub fn contains(&self, peer_name: &str) -> (b: bool)
        ensures
            b == self@.contains(peer_name@),
    {
        match self.position(peer_name) {
            Some(i) => {
                proof {
                    let v = self.names@.map_values(|s: String| s@);
                    assert(v[i as int] == peer_name@);
                }
                true
            },
            None => false,
        }
    }

    /// Records a peer; `true` when it was not recorded yet (as `HashSet::insert`).
    pub fn insert(&mut self, peer_name: String) -> (new: bool)
        requires
            old(self).wf(),
        ensures
            final(self).wf(),
            new == !old(self)@.contains(peer_name@),
            final(self)@ == old(self)@.insert(peer_name@),
    {
        if self.contains(peer_name.as_str()) {
            proof {
                assert(old(self)@.insert(peer_name@) =~= old(self)@);
            }
            false
        } else {
            let ghost before = self.names@.map_values(|s: String| s@);
            let ghost name = peer_name@;
            self.names.push(peer_name);
            proof {
                let after = self.names@.map_values(|s: String| s@);
                assert(after =~= before.push(name));
                assert(after.no_duplicates()) by {
                    assert forall|a: int, b: int| 0 <= a < after.len() && 0 <= b < after.len() && a != b implies after[a] != after[b] by {
                        if a == before.len() {
                            assert(after[b] == before[b]);
                        } else if b == before.len() {
                            assert(after[a] == before[a]);
                        } else {
                            assert(after[a] == before[a] && after[b] == before[b]);
                        }
                    }
                }
                assert(after.to_set() =~= before.to_set().insert(name)) by {
                    assert forall|x: Seq<char>| after.to_set().contains(x) <==> before.to_set().insert(name).contains(x) by {
                        if after.contains(x) {
                            let k = choose|k: int| 0 <= k < after.len() && after[k] == x;
                            if k < before.len() {
                                assert(before[k] == x);
                            }
                        }
                        if before.contains(x) {
                            let k = choose|k: int| 0 <= k < before.len() && before[k] == x;
                            assert(after[k] == x);
                        }
                        if x == name {
                            assert(after[before.len() as int] == x);
                        }
                    }
                }
            }
            true
        }
    }

    /// Forgets a peer; `true` when it was recorded (as `HashSet::remove`).
    pub fn remove(&mut self, peer_name: &str) -> (removed: bool)
        requires
            old(self).wf(),
        ensures
            final(self).wf(),
            removed == old(self)@.contains(peer_name@),
            final(self)@ == old(self)@.remove(peer_name@),
    {
        match self.position(peer_name) {
            Some(i) => {
                let ghost before = self.names@.map_values(|s: String| s@);
                self.names.remove(i);
                proof {
                    let after = self.names@.map_values(|s: String| s@);
                    assert(after =~= before.remove(i as int));
                    assert(before[i as int] == peer_name@);
                    assert(after.no_duplicates()) by {
                        assert forall|a: int, b: int| 0 <= a < after.len() && 0 <= b < after.len() && a != b implies after[a] != after[b] by {
                            let a2 = if a < i { a } else { a + 1 };
                            let b2 = if b < i { b } else { b + 1 };
                            assert(after[a] == before[a2]);
                            assert(after[b] == before[b2]);
                        }
                    }
                    assert(after.to_set() =~= before.to_set().remove(peer_name@)) by {
                        assert forall|x: Seq<char>| after.to_set().contains(x) <==> before.to_set().remove(peer_name@).contains(x) by {
                            if after.contains(x) {
                                let k = choose|k: int| 0 <= k < after.len() && after[k] == x;
                                let k2 = if k < i { k } else { k + 1 };
                                assert(before[k2] == x);
                                assert(k2 != i);
                            }
                            if before.contains(x) && x != peer_name@ {
                                let k = choose|k: int| 0 <= k < before.len() && before[k] == x;
                                assert(k != i);
                                let k2 = if k < i { k } else { k - 1 };
                                assert(after[k2] == x);
                            }
                        }
                    }
                    assert(before.contains(peer_name@));
                }
                true
            },
            None => {
                proof {
                    assert(old(self)@.remove(peer_name@) =~= old(self)@);
                }
                false
            },
        }
    }
}

/// The local message a peer client of the accepting side sends its peer server for an
/// ask typed by its user (a hello is never typed).
pub fn local_msg_of_ask(ask: Ask) -> (m: PeerMsg)
    requires
        !(ask@ is Hello),
    ensures
        m@ == match ask@ {
            AskView::Note(b) => PeerMsgView::Note(b),
            AskView::Leave(b) => PeerMsgView::Leave(b),
            AskView::Hello(b) => PeerMsgView::Leave(b),
        },
{
    match ask {
        Ask::Note(m) => PeerMsg::Note(m),
        Ask::Leave(m) => PeerMsg::Leave(m),
        Ask::Hello(m) => PeerMsg::Leave(m),
    }
}

/// What the peer server's writer sends the opening peer for a message from its own reader:
/// a hello is answered with a reply hello; a leave ends the writer (`None`). The reader
/// never hands it a note.
pub fn reply_for_reader_msg(m: PeerMsg) -> (r: Option<Reply>)
    requires
        !(m@ is Note),
    ensures
        match m@ {
            PeerMsgView::Hello(_, b) => r matches Some(x) && x@ == ReplyView::Hello(b),
            _ => r is None,
        },
{
    match m {
        PeerMsg::Hello(_, b) => Some(Reply::Hello(b)),
        _ => None,
    }
}

/// What the peer server's writer sends the opening peer for a message from the local
/// peer client, and whether the writer then stops: a leave is passed on and ends it; a
/// note is passed on. The local client never sends a hello.
pub fn reply_for_local_msg(m: PeerMsg) -> (r: (Reply, bool))
    requires
        !(m@ is Hello),
    ensures
        match m@ {
            PeerMsgView::Leave(b) => r.0@ == ReplyView::Leave(b) && r.1,
            PeerMsgView::Note(b) => r.0@ == ReplyView::Note(b) && !r.1,
            PeerMsgView::Hello(..) => true,
        },
{
    match m {
        PeerMsg::Leave(b) => (Reply::Leave(b), true),
        PeerMsg::Note(b) => (Reply::Note(b), false),
        PeerMsg::Hello(_, b) => (Reply::Leave(b), true),
    }
}

/// The line shown for a reply from the accepting peer, and whether the session ends:
/// - a leave shows `< Session terminated as peer {msg} has left>` and ends it;
/// - a hello shows `< Peer {name} is ready to chat >`;
/// - a note shows `P-> {msg}`.
pub open spec fn reply_display(r: ReplyView) -> (Seq<u8>, bool) {
    match r {
        ReplyView::Leave(m) => (
            encode_utf8("< Session terminated as peer "@) + lossy(m) + encode_utf8(" has left>"@),
            true,
        ),
        ReplyView::Hello(n) => (encode_utf8("< "@) + peer_hello_text(n) + encode_utf8(" >"@), false),
        ReplyView::Note(m) => (encode_utf8("P-> "@) + lossy(m), false),
    }
}

/// The line shown for a reply from the accepting peer, and whether the session ends.
pub fn reply_event(r: Reply) -> (ev: (Vec<u8>, bool))
    ensures
        (ev.0@, ev.1) == reply_display(r@),
{
    match r {
        Reply::Leave(m) => {
            let (_, text) = text_or_empty(m);
            (concat_text("< Session terminated as peer ", &text, " has left>"), true)
        },
        Reply::Hello(n) => {
            let (_, hello) = peer_hello_msg(n);
            (concat_text("< ", &hello, " >"), false)
        },
        Reply::Note(m) => {
            let (_, text) = text_or_empty(m);
            let out = concat_text("P-> ", &text, "");
            proof {
                reveal_strlit("");
                assert(out@ =~= encode_utf8("P-> "@) + lossy(m@));
            }
            (out, false)
        },
    }
}

/// The line shown for a message from the local peer server, whether the session ends,
/// and the peer's name when the message is the opening peer's hello:
/// - a leave shows `< Session terminated as peer {name} has left>` and ends it;
/// - a hello shows `< {greeting}, to chat, type: \sw {session} (peer type B), to return to
///   lobby, type: \sw 0 >`;
/// - a note shows `P~> {msg}`.
pub open spec fn local_display(m: PeerMsgView, io_id: u16) -> (Seq<u8>, bool, Option<Seq<char>>) {
    match m {
        PeerMsgView::Leave(n) => (
            encode_utf8("< Session terminated as peer "@) + lossy(n) + encode_utf8(" has left>"@),
            true,
            None,
        ),
        PeerMsgView::Hello(name, msg) => (
            encode_utf8("< "@) + lossy(msg) + encode_utf8(", to chat, type: \\sw "@) + decimal(
                (io_id - IO_ID_OFFSET) as nat,
            ) + encode_utf8(" (peer type B), to return to lobby, type: \\sw 0 >"@),
            false,
            Some(name),
        ),
        PeerMsgView::Note(msg) => (encode_utf8("P~> "@) + lossy(msg), false, None),
    }
}

/// The line shown for a message from the local peer server, whether the session ends,
/// and the opening peer's name when it says hello.
pub fn local_msg_event(m: PeerMsg, io_id: u16) -> (ev: (Vec<u8>, bool, Option<String>))
    requires
        io_id >= IO_ID_OFFSET,
    ensures
        (ev.0@, ev.1, match ev.2 {
            Some(n) => Some(n@),
            None => None,
        }) == local_display(m@, io_id),
{
    match m {
        PeerMsg::Leave(n) => {
            let (_, text) = text_or_empty(n);
            (concat_text("< Session terminated as peer ", &text, " has left>"), true, None)
        },
        PeerMsg::Hello(name, msg) => {
            let (_, text) = text_or_empty(msg);
            let mut line = concat_text("< ", &text, ", to chat, type: \\sw ");
            let digits = decimal_bytes(session_id(io_id) as u64);
            append_range(&mut line, digits.as_slice(), 0, digits.len());
            let tail = " (peer type B), to return to lobby, type: \\sw 0 >".as_bytes();
            append_range(&mut line, tail, 0, tail.len());
            proof {
                assert(digits@.subrange(0, digits@.len() as int) =~= digits@);
                assert(tail@.subrange(0, tail@.len() as int) =~= tail@);
            }
            (line, false, Some(name))
        },
        PeerMsg::Note(msg) => {
            let (_, text) = text_or_empty(msg);
            let out = concat_text("P~> ", &text, "");
            proof {
                reveal_strlit("");
                assert(out@ =~= encode_utf8("P~> "@) + lossy(msg@));
            }
            (out, false, None)
        },
    }
}

/// Whether a peer session may be started: one the client opens (`Some(peer name)`) only
/// with a peer it has no session with yet, which is then recorded; one it accepts
/// (`None`) always.
pub fn spawn_allowed(peer_name: Option<String>, names: &mut PeerNames) -> (ok: bool)
    requires
        old(names).wf(),
    ensures
        final(names).wf(),
        match peer_name {
            Some(n) => ok == !old(names)@.contains(n@) && final(names)@ == old(names)@.insert(n@),
            None => ok && final(names)@ == old(names)@,
        },
{
    match peer_name {
        Some(n) => names.insert(n),
        None => true,
    }
}

/// An event on the client's event bus, as the bus decides on it (the peer that a spawn
/// starts stays with the caller).
pub enum EventKind {
    Spawn,
    NewSession(u16, String),
    UpdatedSessionName(u16, String),
    CloseSession(u16, String),
    CloseLobby,
}

pub enum EventKindView {
    Spawn,
    NewSession(u16, Seq<char>),
    UpdatedSessionName(u16, Seq<char>),
    CloseSession(u16, Seq<char>),
    CloseLobby,
}

impl View for EventKind {
    type V = EventKindView;

    open spec fn view(&self) -> EventKindView {
        match self {
            EventKind::Spawn => EventKindView::Spawn,
            EventKind::NewSession(id, n) => EventKindView::NewSession(*id, n@),
            EventKind::UpdatedSessionName(id, n) => EventKindView::UpdatedSessionName(*id, n@),
            EventKind::CloseSession(id, n) => EventKindView::CloseSession(*id, n@),
            EventKind::CloseLobby => EventKindView::CloseLobby,
        }
    }
}

/// What the event bus does with one event.
pub enum EventAction {
    /// Start the peer session.
    StartPeer,
    /// Drop the event.
    Ignore,
    /// Pass this message on to the input handler.
    Forward(InputMsg),
    /// Pass this message on to the input handler and, when that succeeds, record the peer.
    ForwardThenInsert(InputMsg, String),
    /// Pass this message on to the input handler and, when that succeeds, forget the peer.
    ForwardThenRemove(InputMsg, String),
}

pub enum EventActionView {
    StartPeer,
    Ignore,
    Forward(InputMsgView),
    ForwardThenInsert(InputMsgView, Seq<char>),
    ForwardThenRemove(InputMsgView, Seq<char>),
}

impl View for EventAction {
    type V = EventActionView;

    open spec fn view(&self) -> EventActionView {
        match self {
            EventAction::StartPeer => EventActionView::StartPeer,
            EventAction::Ignore => EventActionView::Ignore,
            EventAction::Forward(m) => EventActionView::Forward(m@),
            EventAction::ForwardThenInsert(m, n) => EventActionView::ForwardThenInsert(m@, n@),
            EventAction::ForwardThenRemove(m, n) => EventActionView::ForwardThenRemove(m@, n@),
        }
    }
}

/// What the event bus does with an event while peers may (`spawning`) or may no longer be
/// started: a spawn starts the peer only while spawning is on; a new session is passed on;
/// a renamed session is passed on and its peer recorded; a closed session is passed on and
/// its peer forgotten; the lobby's closing is passed on.
pub open spec fn event_action(spawning: bool, ev: EventKindView) -> EventActionView {
    match ev {
        EventKindView::Spawn => if spawning {
            EventActionView::StartPeer
        } else {
            EventActionView::Ignore
        },
        EventKindView::NewSession(id, n) => EventActionView::Forward(InputMsgView::NewSession(id, n)),
        EventKindView::UpdatedSessionName(id, n) => EventActionView::ForwardThenInsert(
            InputMsgView::UpdatedSessionName(id, n),
            n,
        ),
        EventKindView::CloseSession(id, n) => EventActionView::ForwardThenRemove(
            InputMsgView::CloseSession(id),
            n,
        ),
        EventKindView::CloseLobby => EventActionView::Forward(InputMsgView::CloseLobby),
    }
}

/// One step of the event bus: whether peers may still be started afterwards (no longer
/// once the lobby has closed), and what to do with the event.
pub fn event_step(spawning: bool, ev: EventKind) -> (r: (bool, EventAction))
    ensures
        r.0 == (spawning && !(ev@ is CloseLobby)),
        r.1@ == event_action(spawning, ev@),
{
    match ev {
        EventKind::Spawn => (spawning, if spawning { EventAction::StartPeer } else { EventAction::Ignore }),
        EventKind::NewSession(id, n) => (spawning, EventAction::Forward(InputMsg::NewSession(id, n))),
        EventKind::UpdatedSessionName(id, n) => {
            let copy = n.clone();
            (spawning, EventAction::ForwardThenInsert(InputMsg::UpdatedSessionName(id, copy), n))
        },
        EventKind::CloseSession(id, n) => (spawning, EventAction::ForwardThenRemove(InputMsg::CloseSession(id), n)),
        EventKind::CloseLobby => (false, EventAction::Forward(InputMsg::CloseLobby)),
    }
}

} // verus!
