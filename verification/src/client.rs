//! The main-server client's logic: reading typed lines as requests and taking the
//! server's join acknowledgement.

use vstd::prelude::*;
use vstd::string::*;
use vstd::utf8::*;

use crate::peer::PeerNames;
use crate::peer::lossy;
use crate::protocol::{ChatMsg, ChatMsgView, Request, RequestView, Response, ResponseView};
use crate::text::{
    bytes_eq, interleaved, lemma_second_word_utf8, num_chunks, second_word, second_word_of,
    starts_with, str_eq, str_starts_with, string_from_utf8, concat_text, decimal, decimal_bytes,
    append_range,
};

verus! {

/// The request a typed line stands for, for a client registered as `name`:
/// `\quit` and `\users` are commands, `\fork peer` asks for a private session with
/// `peer` (none without a peer name, or with oneself), and anything else is a message,
/// cut into lines of at most 64 bytes.
pub open spec fn client_request(name: Seq<char>, line: Seq<char>) -> Option<RequestView> {
    if line == "\\quit"@ {
        Some(RequestView::Quit)
    } else if line == "\\users"@ {
        Some(RequestView::Users)
    } else if starts_with(line, "\\fork"@) {
        match second_word(encode_utf8(line)) {
            Some(p) => if encode_utf8(name) == p {
                None
            } else {
                Some(RequestView::ForkPeer { pname: p })
            },
            None => None,
        }
    } else {
        Some(RequestView::Message(interleaved(encode_utf8(line), Seq::empty())))
    }
}

/// A client of the main server: its id there, its io id, and its chat name.
pub struct Client {
    pub id: u16,
    pub io_id: u16,
    pub name: String,
}

impl Client {
    /// A client not yet registered: id 0 and no name.
    pub fn new(io_id: u16) -> (c: Client)
        ensures
            c.id == 0,
            c.io_id == io_id,
            c.name@ == Seq::<char>::empty(),
    {
        Client { id: 0, io_id, name: String::new() }
    }

    /// Reads a typed line as a request to the main server.
    pub fn parse_input(name: &str, line: String) -> (req: Option<Request>)
        ensures
            match client_request(name@, line@) {
                Some(r) => req matches Some(x) && x@ == r,
                None => req is None,
            },
    {
        if str_eq(line.as_str(), "\\quit") {
            Some(Request::Quit)
        } else if str_eq(line.as_str(), "\\users") {
            Some(Request::Users)
        } else if str_starts_with(line.as_str(), "\\fork") {
            match second_word_of(line.as_str().as_bytes()) {
                Some(pname) => {
                    if bytes_eq(name.as_bytes(), pname.as_slice()) {
                        None
                    } else {
                        Some(Request::ForkPeer { pname })
                    }
                },
                None => None,
            }
        } else {
            let msg = crate::input::InputReader::interleave_newlines(line.as_str(), None);
            Some(Request::Message(msg))
        }
    }

    /// Takes the server's answer to the join request: a join acknowledgement sets the
    /// client's id and name (its name bytes must be UTF-8); any other message changes
    /// nothing.
    pub fn register_ack(&mut self, response: ChatMsg)
        requires
            response matches ChatMsg::Server(Response::JoinNameAck { name, .. }) ==> valid_utf8(
                name@,
            ),
        ensures
            match response {
                ChatMsg::Server(Response::JoinNameAck { id, name }) => final(self).id == id
                    && final(self).name@ == decode_utf8(name@) && final(self).io_id == old(
                    self,
                ).io_id,
                _ => *final(self) == *old(self),
            },
    {
        if let ChatMsg::Server(Response::JoinNameAck { id, name }) = response {
            match string_from_utf8(name) {
                Some(n) => self.name = n,
                None => self.name = String::new(),
            }
            self.id = id;
        }
    }
}

/// The request sent for a typed line, given the peers the client already has a private
/// session with: a private-session request for one of them is dropped.
pub open spec fn client_request_with_peers(
    name: Seq<char>,
    line: Seq<char>,
    peers: Set<Seq<char>>,
) -> Option<RequestView> {
    match client_request(name, line) {
        Some(RequestView::ForkPeer { pname }) => if peers.contains(decode_utf8(pname)) {
            None
        } else {
            Some(RequestView::ForkPeer { pname })
        },
        r => r,
    }
}

impl Client {
    /// Reads a typed line as a request, dropping a private-session request for a peer the
    /// client already has a session with.
    pub fn cmd_request(name: &str, line: String, peers: &PeerNames) -> (req: Option<Request>)
        ensures
            match client_request_with_peers(name@, line@, peers@) {
                Some(r) => req matches Some(x) && x@ == r,
                None => req is None,
            },
    {
        let ghost chars = line@;
        proof {
            encode_utf8_valid_utf8(line@);
            lemma_second_word_utf8(encode_utf8(line@));
        }
        let req = Client::parse_input(name, line);
        match req {
            Some(Request::ForkPeer { pname }) => {
                match string_from_utf8(pname.clone()) {
                    Some(peer) => {
                        if peers.contains(peer.as_str()) {
                            None
                        } else {
                            Some(Request::ForkPeer { pname })
                        }
                    },
                    None => {
                        proof {
                            assert(false);
                        }
                        None
                    },
                }
            },
            other => other,
        }
    }
}

/// A client never asks for a private session with itself, nor with a peer it already has
/// a session with.
pub proof fn law_no_self_or_duplicate_fork(name: Seq<char>, line: Seq<char>, peers: Set<Seq<char>>)
    ensures
        client_request_with_peers(name, line, peers) matches Some(RequestView::ForkPeer { pname })
            ==> pname != encode_utf8(name) && !peers.contains(decode_utf8(pname)),
{
}

/// Shutdown reasons of a client's tasks.
pub const SHUTDOWN_SERVER: u8 = 1;
pub const SHUTDOWN_QUIT: u8 = 2;
pub const SHUTDOWN_IO_DOWN: u8 = 3;

/// What a client does with a frame from the main server.
pub enum ClientEvent {
    /// Show this line.
    Show(Vec<u8>),
    /// Open a private session with this peer: its id, its name, and its address.
    ForkPeer(u16, String, String),
}

/// Whether the client acts on this server frame (the server sends no other kind).
pub open spec fn shown_response(m: ChatMsgView) -> bool {
    m matches ChatMsgView::Server(r) && (r is UserMessage || r is Notification || r is ForkPeerAckA
        || r is PeerUnavailable)
}

/// The line shown, or the session opened, for a server frame:
/// - a user message shows `> {id} {msg}`;
/// - a notification shows `>>> {line}`;
/// - an unavailable peer shows `>>> Unable to fork into private session as peer {name} unavailable`;
/// - a fork acknowledgement opens a session with the peer.
pub open spec fn server_event_spec(m: ChatMsgView) -> Result<Seq<u8>, (u16, Seq<char>, Seq<char>)> {
    match m {
        ChatMsgView::Server(ResponseView::UserMessage { id, msg }) => Ok(
            encode_utf8("> "@) + decimal(id as nat) + encode_utf8(" "@) + lossy(msg),
        ),
        ChatMsgView::Server(ResponseView::Notification(line)) => Ok(
            encode_utf8(">>> "@) + lossy(line),
        ),
        ChatMsgView::Server(ResponseView::PeerUnavailable(name)) => Ok(
            encode_utf8(">>> Unable to fork into private session as peer "@) + lossy(name)
                + encode_utf8(" unavailable"@),
        ),
        ChatMsgView::Server(ResponseView::ForkPeerAckA { pid, pname, addr }) => Err(
            (pid, if valid_utf8(pname) { decode_utf8(pname) } else { Seq::empty() }, addr),
        ),
        _ => Ok(Seq::empty()),
    }
}

impl Client {
    /// What to do with a frame from the main server.
    pub fn server_event(msg: ChatMsg) -> (ev: ClientEvent)
        requires
            shown_response(msg@),
        ensures
            match ev {
                ClientEvent::Show(line) => server_event_spec(msg@) == Ok::<Seq<u8>, (u16, Seq<char>, Seq<char>)>(line@),
                ClientEvent::ForkPeer(pid, name, addr) => server_event_spec(msg@) == Err::<Seq<u8>, (u16, Seq<char>, Seq<char>)>((pid, name@, addr@)),
            },
    {
        match msg {
            ChatMsg::Server(Response::UserMessage { id, msg }) => {
                let text = crate::peer::text_or_empty(msg).1;
                let digits = decimal_bytes(id as u64);
                let mut line = concat_text("> ", &digits, " ");
                append_range(&mut line, text.as_slice(), 0, text.len());
                proof {
                    assert(text@.subrange(0, text@.len() as int) =~= text@);
                }
                ClientEvent::Show(line)
            },
            ChatMsg::Server(Response::Notification(l)) => {
                let text = crate::peer::text_or_empty(l).1;
                let line = concat_text(">>> ", &text, "");
                proof {
                    reveal_strlit("");
                    assert(line@ =~= encode_utf8(">>> "@) + text@);
                }
                ClientEvent::Show(line)
            },
            ChatMsg::Server(Response::PeerUnavailable(name)) => {
                let text = crate::peer::text_or_empty(name).1;
                ClientEvent::Show(concat_text(">>> Unable to fork into private session as peer ", &text, " unavailable"))
            },
            ChatMsg::Server(Response::ForkPeerAckA { pid, pname, addr }) => {
                let name = crate::peer::text_or_empty(pname).0;
                ClientEvent::ForkPeer(pid, name, addr)
            },
            _ => ClientEvent::Show(Vec::new()),
        }
    }

    /// Whether a typed line quits the client: `\quit`.
    pub fn is_quit_line(line: &str) -> (b: bool)
        ensures
            b == (line@ == "\\quit"@),
    {
        str_eq(line, "\\quit")
    }

    /// Whether a typed line asks for a private session with the client itself.
    pub fn fork_target_is_self(name: &str, line: &String) -> (b: bool)
        ensures
            b == (starts_with(line@, "\\fork"@) && second_word(encode_utf8(line@)) == Some(
                encode_utf8(name@),
            )),
    {
        if !str_starts_with(line.as_str(), "\\fork") {
            return false;
        }
        match second_word_of(line.as_str().as_bytes()) {
            Some(p) => bytes_eq(name.as_bytes(), p.as_slice()),
            None => false,
        }
    }

    /// Whether a shutdown of the client's tasks also ends its peer sessions: a quit or a
    /// closed input does, the main server going away does not.
    pub fn shutdown_aborts_peers(value: u8) -> (abort: bool)
        ensures
            abort == (value == SHUTDOWN_QUIT || value == SHUTDOWN_IO_DOWN),
    {
        value == SHUTDOWN_QUIT || value == SHUTDOWN_IO_DOWN
    }
}

} // verus!
