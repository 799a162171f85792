//! The chat wire protocol: message types and their byte frames.
//!
//! A frame is a group byte (`+` client request, `-` server response, `{` peer ask,
//! `}` peer reply), a kind byte, and the kind's fields. An integer field is two bytes,
//! big-endian; a byte-string field is its length as two big-endian bytes followed by
//! the bytes themselves.
//!
//! [`parse_frame`] says what the first frame of a byte sequence is; the `*_frame` spec
//! functions say which bytes a message is written as. [`ChatCodec`] reads and writes
//! frames in a `bytes::BytesMut`, and its contracts are stated over these functions.

use bytes::BytesMut;
use vstd::prelude::*;
use vstd::string::*;
use vstd::utf8::*;

use crate::buf::{
    buf_advance, buf_byte_at, buf_contents, buf_copy_to_slice, buf_extend_from_slice, buf_get_u16,
    buf_get_u8, buf_is_empty, buf_len, buf_limit, buf_put_u16, buf_put_u8, buf_reserve,
};
use crate::text::string_from_utf8;

verus! {

pub const REQ: u8 = 43;  // '+'
pub const REQ_USERS: u8 = 58;  // ':'
pub const REQ_QUIT: u8 = 36;  // '$'
pub const REQ_MSG: u8 = 35;  // '#'
pub const REQ_NAME: u8 = 38;  // '&'
pub const REQ_FORKP: u8 = 37;  // '%'
pub const REQ_HBEAT: u8 = 33;  // '!'

pub const RESP: u8 = 45;  // '-'
pub const RESP_NAMEACK: u8 = 124;  // '|'
pub const RESP_USERMSG: u8 = 42;  // '*'
pub const RESP_NOTIF: u8 = 64;  // '@'
pub const RESP_FORKACK: u8 = 94;  // '^'
pub const RESP_PEERUNAV: u8 = 126;  // '~'
pub const RESP_HBEAT: u8 = 33;  // '!'

pub const ASK: u8 = 123;  // '{'
pub const ASK_HELLO: u8 = 42;  // '*'
pub const ASK_LEAVE: u8 = 63;  // '?'
pub const ASK_NOTE: u8 = 62;  // '>'

pub const REPLY: u8 = 125;  // '}'
pub const REPLY_HELLO: u8 = 42;  // '*'
pub const REPLY_LEAVE: u8 = 63;  // '?'
pub const REPLY_NOTE: u8 = 60;  // '<'

/// A frame of any of the four groups, as read off the wire.
#[derive(Debug)]
pub enum ChatMsg {
    Client(Request),
    Server(Response),
    PeerA(Ask),
    PeerB(Reply),
}

/// What a client asks of the main server.
#[derive(Debug, Clone, PartialEq, Eq)]
pub enum Request {
    Users,
    Quit,
    Message(Vec<u8>),
    JoinName(Vec<u8>),
    ForkPeer { pname: Vec<u8> },
    Heartbeat,
}

/// What the main server answers a client.
///
/// A fork acknowledgement is written with the peer's address as raw bytes
/// (`ForkPeerAckB`) and read back with the address as checked UTF-8 text (`ForkPeerAckA`).
#[allow(inconsistent_fields)]
#[derive(Debug, Clone)]
pub enum Response {
    UserMessage { id: u16, msg: Vec<u8> },
    JoinNameAck { id: u16, name: Vec<u8> },
    Notification(Vec<u8>),
    ForkPeerAckA { pid: u16, pname: Vec<u8>, addr: String },
    ForkPeerAckB { pid: u16, pname: Vec<u8>, addr: Vec<u8> },
    PeerUnavailable(Vec<u8>),
    Heartbeat,
}

/// What the peer that opened a private session sends.
#[derive(Debug, Clone, PartialEq, Eq)]
pub enum Ask {
    Hello(Vec<u8>),
    Leave(Vec<u8>),
    Note(Vec<u8>),
}

/// What the peer that accepted a private session sends back.
#[derive(Debug, Clone)]
pub enum Reply {
    Hello(Vec<u8>),
    Leave(Vec<u8>),
    Note(Vec<u8>),
}

/// The one error a frame can carry: a fork acknowledgement whose address is not UTF-8.
#[derive(Debug, PartialEq, Eq)]
pub enum CodecError {
    InvalidUtf8,
}

/// Reads and writes frames.
#[derive(Debug)]
pub struct ChatCodec;

// ---------------------------------------------------------------------------
// Mathematical model of the messages
// ---------------------------------------------------------------------------

pub enum RequestView {
    Users,
    Quit,
    Message(Seq<u8>),
    JoinName(Seq<u8>),
    ForkPeer { pname: Seq<u8> },
    Heartbeat,
}

#[allow(inconsistent_fields)]
pub enum ResponseView {
    UserMessage { id: u16, msg: Seq<u8> },
    JoinNameAck { id: u16, name: Seq<u8> },
    Notification(Seq<u8>),
    ForkPeerAckA { pid: u16, pname: Seq<u8>, addr: Seq<char> },
    ForkPeerAckB { pid: u16, pname: Seq<u8>, addr: Seq<u8> },
    PeerUnavailable(Seq<u8>),
    Heartbeat,
}

pub enum AskView {
    Hello(Seq<u8>),
    Leave(Seq<u8>),
    Note(Seq<u8>),
}

pub enum ReplyView {
    Hello(Seq<u8>),
    Leave(Seq<u8>),
    Note(Seq<u8>),
}

pub enum ChatMsgView {
    Client(RequestView),
    Server(ResponseView),
    PeerA(AskView),
    PeerB(ReplyView),
}

impl View for Request {
    type V = RequestView;

    open spec fn view(&self) -> RequestView {
        match self {
            Request::Users => RequestView::Users,
            Request::Quit => RequestView::Quit,
            Request::Message(m) => RequestView::Message(m@),
            Request::JoinName(m) => RequestView::JoinName(m@),
            Request::ForkPeer { pname } => RequestView::ForkPeer { pname: pname@ },
            Request::Heartbeat => RequestView::Heartbeat,
        }
    }
}

impl View for Response {
    type V = ResponseView;

    open spec fn view(&self) -> ResponseView {
        match self {
            Response::UserMessage { id, msg } => ResponseView::UserMessage { id: *id, msg: msg@ },
            Response::JoinNameAck { id, name } => ResponseView::JoinNameAck { id: *id, name: name@ },
            Response::Notification(m) => ResponseView::Notification(m@),
            Response::ForkPeerAckA { pid, pname, addr } => ResponseView::ForkPeerAckA {
                pid: *pid,
                pname: pname@,
                addr: addr@,
            },
            Response::ForkPeerAckB { pid, pname, addr } => ResponseView::ForkPeerAckB {
                pid: *pid,
                pname: pname@,
                addr: addr@,
            },
            Response::PeerUnavailable(m) => ResponseView::PeerUnavailable(m@),
            Response::Heartbeat => ResponseView::Heartbeat,
        }
    }
}

impl View for Ask {
    type V = AskView;

    open spec fn view(&self) -> AskView {
        match self {
            Ask::Hello(m) => AskView::Hello(m@),
            Ask::Leave(m) => AskView::Leave(m@),
            Ask::Note(m) => AskView::Note(m@),
        }
    }
}

impl View for Reply {
    type V = ReplyView;

    open spec fn view(&self) -> ReplyView {
        match self {
            Reply::Hello(m) => ReplyView::Hello(m@),
            Reply::Leave(m) => ReplyView::Leave(m@),
            Reply::Note(m) => ReplyView::Note(m@),
        }
    }
}

impl View for ChatMsg {
    type V = ChatMsgView;

    open spec fn view(&self) -> ChatMsgView {
        match self {
            ChatMsg::Client(r) => ChatMsgView::Client(r@),
            ChatMsg::Server(r) => ChatMsgView::Server(r@),
            ChatMsg::PeerA(a) => ChatMsgView::PeerA(a@),
            ChatMsg::PeerB(r) => ChatMsgView::PeerB(r@),
        }
    }
}

// ---------------------------------------------------------------------------
// Writing: the bytes of each message
// ---------------------------------------------------------------------------

/// A 16-bit integer as two big-endian bytes.
pub open spec fn u16_bytes(v: u16) -> Seq<u8> {
    seq![(v / 256) as u8, (v % 256) as u8]
}

/// A byte-string field: its length (kept to 16 bits) and then its bytes.
pub open spec fn field_bytes(m: Seq<u8>) -> Seq<u8> {
    u16_bytes((m.len() % 65536) as u16) + m
}

/// Whether a request has a frame (the heartbeat has none).
pub open spec fn request_encodable(r: RequestView) -> bool {
    !(r is Heartbeat)
}

/// Whether a response has a frame (only the address-as-bytes acknowledgement
/// and no heartbeat).
pub open spec fn response_encodable(r: ResponseView) -> bool {
    !(r is ForkPeerAckA) && !(r is Heartbeat)
}

pub open spec fn request_frame(r: RequestView) -> Seq<u8> {
    match r {
        RequestView::Users => seq![REQ, REQ_USERS],
        RequestView::Quit => seq![REQ, REQ_QUIT],
        RequestView::Message(m) => seq![REQ, REQ_MSG] + field_bytes(m),
        RequestView::JoinName(m) => seq![REQ, REQ_NAME] + field_bytes(m),
        RequestView::ForkPeer { pname } => seq![REQ, REQ_FORKP] + field_bytes(pname),
        RequestView::Heartbeat => Seq::empty(),
    }
}

pub open spec fn response_frame(r: ResponseView) -> Seq<u8> {
    match r {
        ResponseView::UserMessage { id, msg } => seq![RESP, RESP_USERMSG] + u16_bytes(id)
            + field_bytes(msg),
        ResponseView::JoinNameAck { id, name } => seq![RESP, RESP_NAMEACK] + u16_bytes(id)
            + field_bytes(name),
        ResponseView::Notification(m) => seq![RESP, RESP_NOTIF] + field_bytes(m),
        ResponseView::ForkPeerAckB { pid, pname, addr } => seq![RESP, RESP_FORKACK] + u16_bytes(
            pid,
        ) + field_bytes(pname) + field_bytes(addr),
        ResponseView::PeerUnavailable(m) => seq![RESP, RESP_PEERUNAV] + field_bytes(m),
        _ => Seq::empty(),
    }
}

pub open spec fn ask_frame(a: AskView) -> Seq<u8> {
    match a {
        AskView::Hello(m) => seq![ASK, ASK_HELLO] + field_bytes(m),
        AskView::Leave(m) => seq![ASK, ASK_LEAVE] + field_bytes(m),
        AskView::Note(m) => seq![ASK, ASK_NOTE] + field_bytes(m),
    }
}

pub open spec fn reply_frame(r: ReplyView) -> Seq<u8> {
    match r {
        ReplyView::Hello(m) => seq![REPLY, REPLY_HELLO] + field_bytes(m),
        ReplyView::Leave(m) => seq![REPLY, REPLY_LEAVE] + field_bytes(m),
        ReplyView::Note(m) => seq![REPLY, REPLY_NOTE] + field_bytes(m),
    }
}

// ---------------------------------------------------------------------------
// Reading: what the first frame of a byte sequence is
// ---------------------------------------------------------------------------

/// The outcome of reading the first frame of a byte sequence.
pub enum Parsed {
    /// Fewer than two bytes: nothing is read.
    Pending,
    /// A whole frame holding this message, of this many bytes.
    Frame(ChatMsgView, nat),
    /// A fork acknowledgement of this many bytes whose address is not UTF-8.
    BadAddr(nat),
    /// An unknown group or kind byte, or a frame cut short: the reader stops here
    /// (the codec is only called where this is not the case).
    Unsupported,
}

/// Two bytes read big-endian.
pub open spec fn be16(hi: u8, lo: u8) -> int {
    hi * 256 + lo
}

/// The byte-string field at the start of `b`, if all of it is there.
pub open spec fn field_at(b: Seq<u8>) -> Option<Seq<u8>> {
    if b.len() < 2 {
        None
    } else if b.len() < 2 + be16(b[0], b[1]) {
        None
    } else {
        Some(b.subrange(2, 2 + be16(b[0], b[1])))
    }
}

/// A frame made of one byte-string field after the two header bytes.
pub open spec fn one_field(body: Seq<u8>, make: spec_fn(Seq<u8>) -> ChatMsgView) -> Parsed {
    match field_at(body) {
        Some(m) => Parsed::Frame(make(m), 4 + m.len()),
        None => Parsed::Unsupported,
    }
}

/// A frame made of an integer and a byte-string field after the two header bytes.
pub open spec fn id_and_field(body: Seq<u8>, make: spec_fn(u16, Seq<u8>) -> ChatMsgView) -> Parsed {
    if body.len() < 2 {
        Parsed::Unsupported
    } else {
        match field_at(body.skip(2)) {
            Some(m) => Parsed::Frame(make(be16(body[0], body[1]) as u16, m), 6 + m.len()),
            None => Parsed::Unsupported,
        }
    }
}

/// A fork acknowledgement: peer id, peer name, then the peer's address as UTF-8 text.
pub open spec fn fork_ack(body: Seq<u8>) -> Parsed {
    if body.len() < 2 {
        Parsed::Unsupported
    } else {
        match field_at(body.skip(2)) {
            None => Parsed::Unsupported,
            Some(pname) => match field_at(body.skip(4 + pname.len() as int)) {
                None => Parsed::Unsupported,
                Some(addr) => {
                    let total = 8 + pname.len() + addr.len();
                    if valid_utf8(addr) {
                        Parsed::Frame(
                            ChatMsgView::Server(
                                ResponseView::ForkPeerAckA {
                                    pid: be16(body[0], body[1]) as u16,
                                    pname,
                                    addr: decode_utf8(addr),
                                },
                            ),
                            total,
                        )
                    } else {
                        Parsed::BadAddr(total)
                    }
                },
            },
        }
    }
}

pub open spec fn parse_request(kind: u8, body: Seq<u8>) -> Parsed {
    if kind == REQ_USERS {
        Parsed::Frame(ChatMsgView::Client(RequestView::Users), 2)
    } else if kind == REQ_QUIT {
        Parsed::Frame(ChatMsgView::Client(RequestView::Quit), 2)
    } else if kind == REQ_MSG {
        one_field(body, |m: Seq<u8>| ChatMsgView::Client(RequestView::Message(m)))
    } else if kind == REQ_NAME {
        one_field(body, |m: Seq<u8>| ChatMsgView::Client(RequestView::JoinName(m)))
    } else if kind == REQ_FORKP {
        one_field(body, |m: Seq<u8>| ChatMsgView::Client(RequestView::ForkPeer { pname: m }))
    } else {
        Parsed::Unsupported
    }
}

pub open spec fn parse_response(kind: u8, body: Seq<u8>) -> Parsed {
    if kind == RESP_NAMEACK {
        id_and_field(
            body,
            |id: u16, m: Seq<u8>| ChatMsgView::Server(ResponseView::JoinNameAck { id, name: m }),
        )
    } else if kind == RESP_USERMSG {
        id_and_field(
            body,
            |id: u16, m: Seq<u8>| ChatMsgView::Server(ResponseView::UserMessage { id, msg: m }),
        )
    } else if kind == RESP_NOTIF {
        one_field(body, |m: Seq<u8>| ChatMsgView::Server(ResponseView::Notification(m)))
    } else if kind == RESP_FORKACK {
        fork_ack(body)
    } else if kind == RESP_PEERUNAV {
        one_field(body, |m: Seq<u8>| ChatMsgView::Server(ResponseView::PeerUnavailable(m)))
    } else {
        Parsed::Unsupported
    }
}

pub open spec fn parse_ask(kind: u8, body: Seq<u8>) -> Parsed {
    if kind == ASK_HELLO {
        one_field(body, |m: Seq<u8>| ChatMsgView::PeerA(AskView::Hello(m)))
    } else if kind == ASK_LEAVE {
        one_field(body, |m: Seq<u8>| ChatMsgView::PeerA(AskView::Leave(m)))
    } else if kind == ASK_NOTE {
        one_field(body, |m: Seq<u8>| ChatMsgView::PeerA(AskView::Note(m)))
    } else {
        Parsed::Unsupported
    }
}

pub open spec fn parse_reply(kind: u8, body: Seq<u8>) -> Parsed {
    if kind == REPLY_HELLO {
        one_field(body, |m: Seq<u8>| ChatMsgView::PeerB(ReplyView::Hello(m)))
    } else if kind == REPLY_LEAVE {
        one_field(body, |m: Seq<u8>| ChatMsgView::PeerB(ReplyView::Leave(m)))
    } else if kind == REPLY_NOTE {
        one_field(body, |m: Seq<u8>| ChatMsgView::PeerB(ReplyView::Note(m)))
    } else {
        Parsed::Unsupported
    }
}

/// The first frame of `s`.
pub open spec fn parse_frame(s: Seq<u8>) -> Parsed {
    if s.len() < 2 {
        Parsed::Pending
    } else if s[0] == REQ {
        parse_request(s[1], s.skip(2))
    } else if s[0] == RESP {
        parse_response(s[1], s.skip(2))
    } else if s[0] == ASK {
        parse_ask(s[1], s.skip(2))
    } else if s[0] == REPLY {
        parse_reply(s[1], s.skip(2))
    } else {
        Parsed::Unsupported
    }
}


// ---------------------------------------------------------------------------
// Laws: what is read back of what was written
// ---------------------------------------------------------------------------

/// Whether every byte-string field of a request is short enough for its 16-bit length.
pub open spec fn request_fields_fit(r: RequestView) -> bool {
    match r {
        RequestView::Message(m) => m.len() < 65536,
        RequestView::JoinName(m) => m.len() < 65536,
        RequestView::ForkPeer { pname } => pname.len() < 65536,
        _ => true,
    }
}

/// Whether every byte-string field of a response is short enough for its 16-bit length.
pub open spec fn response_fields_fit(r: ResponseView) -> bool {
    match r {
        ResponseView::UserMessage { msg, .. } => msg.len() < 65536,
        ResponseView::JoinNameAck { name, .. } => name.len() < 65536,
        ResponseView::Notification(m) => m.len() < 65536,
        ResponseView::ForkPeerAckB { pname, addr, .. } => pname.len() < 65536 && addr.len()
            < 65536,
        ResponseView::PeerUnavailable(m) => m.len() < 65536,
        _ => true,
    }
}

pub open spec fn ask_fields_fit(a: AskView) -> bool {
    match a {
        AskView::Hello(m) => m.len() < 65536,
        AskView::Leave(m) => m.len() < 65536,
        AskView::Note(m) => m.len() < 65536,
    }
}

pub open spec fn reply_fields_fit(r: ReplyView) -> bool {
    match r {
        ReplyView::Hello(m) => m.len() < 65536,
        ReplyView::Leave(m) => m.len() < 65536,
        ReplyView::Note(m) => m.len() < 65536,
    }
}

/// A byte-string field is read back whole, whatever follows it.
pub proof fn lemma_field_roundtrip(m: Seq<u8>, rest: Seq<u8>)
    requires
        m.len() < 65536,
    ensures
        field_at(field_bytes(m) + rest) == Some(m),
        (field_bytes(m) + rest).skip(2 + m.len() as int) == rest,
        field_bytes(m).len() == 2 + m.len(),
{
    let b = field_bytes(m) + rest;
    let v = (m.len() % 65536) as u16;
    assert(v == m.len());
    assert(be16(b[0], b[1]) == m.len());
    assert(b.subrange(2, 2 + m.len() as int) =~= m);
    assert(b.skip(2 + m.len() as int) =~= rest);
}

/// Reading a written client request, whatever bytes follow it, gives the request back and
/// takes exactly its frame.
pub proof fn law_request_roundtrip(r: RequestView, rest: Seq<u8>)
    requires
        request_encodable(r),
        request_fields_fit(r),
    ensures
        parse_frame(request_frame(r) + rest) == Parsed::Frame(
            ChatMsgView::Client(r),
            request_frame(r).len(),
        ),
{
    let b = request_frame(r) + rest;
    match r {
        RequestView::Message(m) => {
            lemma_field_roundtrip(m, rest);
            assert(b.skip(2) =~= field_bytes(m) + rest);
        },
        RequestView::JoinName(m) => {
            lemma_field_roundtrip(m, rest);
            assert(b.skip(2) =~= field_bytes(m) + rest);
        },
        RequestView::ForkPeer { pname } => {
            lemma_field_roundtrip(pname, rest);
            assert(b.skip(2) =~= field_bytes(pname) + rest);
        },
        _ => {},
    }
}

/// Reading a written peer ask, whatever bytes follow it, gives the ask back and takes
/// exactly its frame.
pub proof fn law_ask_roundtrip(a: AskView, rest: Seq<u8>)
    requires
        ask_fields_fit(a),
    ensures
        parse_frame(ask_frame(a) + rest) == Parsed::Frame(ChatMsgView::PeerA(a), ask_frame(a).len()),
{
    let b = ask_frame(a) + rest;
    match a {
        AskView::Hello(m) => {
            lemma_field_roundtrip(m, rest);
            assert(b.skip(2) =~= field_bytes(m) + rest);
        },
        AskView::Leave(m) => {
            lemma_field_roundtrip(m, rest);
            assert(b.skip(2) =~= field_bytes(m) + rest);
        },
        AskView::Note(m) => {
            lemma_field_roundtrip(m, rest);
            assert(b.skip(2) =~= field_bytes(m) + rest);
        },
    }
}

/// Reading a written peer reply, whatever bytes follow it, gives the reply back and takes
/// exactly its frame.
pub proof fn law_reply_roundtrip(r: ReplyView, rest: Seq<u8>)
    requires
        reply_fields_fit(r),
    ensures
        parse_frame(reply_frame(r) + rest) == Parsed::Frame(
            ChatMsgView::PeerB(r),
            reply_frame(r).len(),
        ),
{
    let b = reply_frame(r) + rest;
    match r {
        ReplyView::Hello(m) => {
            lemma_field_roundtrip(m, rest);
            assert(b.skip(2) =~= field_bytes(m) + rest);
        },
        ReplyView::Leave(m) => {
            lemma_field_roundtrip(m, rest);
            assert(b.skip(2) =~= field_bytes(m) + rest);
        },
        ReplyView::Note(m) => {
            lemma_field_roundtrip(m, rest);
            assert(b.skip(2) =~= field_bytes(m) + rest);
        },
    }
}

/// What a written server response is read back as, whatever bytes follow it.
pub open spec fn response_read_back(r: ResponseView) -> Parsed {
    match r {
        ResponseView::ForkPeerAckB { pid, pname, addr } => if valid_utf8(addr) {
            Parsed::Frame(
                ChatMsgView::Server(
                    ResponseView::ForkPeerAckA { pid, pname, addr: decode_utf8(addr) },
                ),
                response_frame(r).len(),
            )
        } else {
            Parsed::BadAddr(response_frame(r).len())
        },
        _ => Parsed::Frame(ChatMsgView::Server(r), response_frame(r).len()),
    }
}

/// A response made of a header, a 16-bit id and one byte-string field is read back whole.
proof fn lemma_id_field_frame(kind: u8, id: u16, m: Seq<u8>, rest: Seq<u8>)
    requires
        m.len() < 65536,
    ensures
        ({
            let b = seq![RESP, kind] + u16_bytes(id) + field_bytes(m) + rest;
            &&& b[0] == RESP
            &&& b[1] == kind
            &&& b.skip(2).len() >= 2
            &&& be16(b.skip(2)[0], b.skip(2)[1]) as u16 == id
            &&& field_at(b.skip(2).skip(2)) == Some(m)
        }),
{
    let b = seq![RESP, kind] + u16_bytes(id) + field_bytes(m) + rest;
    lemma_field_roundtrip(m, rest);
    assert(b.skip(2).skip(2) =~= field_bytes(m) + rest);
    assert(b.skip(2)[0] == u16_bytes(id)[0] && b.skip(2)[1] == u16_bytes(id)[1]);
}

/// The fields of a written fork acknowledgement are read back whole.
proof fn lemma_fork_fields(pid: u16, pname: Seq<u8>, addr: Seq<u8>, rest: Seq<u8>)
    requires
        pname.len() < 65536,
        addr.len() < 65536,
    ensures
        ({
            let body = u16_bytes(pid) + field_bytes(pname) + field_bytes(addr) + rest;
            &&& body.len() >= 2
            &&& be16(body[0], body[1]) as u16 == pid
            &&& field_at(body.skip(2)) == Some(pname)
            &&& field_at(body.skip(4 + pname.len() as int)) == Some(addr)
        }),
{
    let body = u16_bytes(pid) + field_bytes(pname) + field_bytes(addr) + rest;
    let tail = field_bytes(addr) + rest;
    lemma_field_roundtrip(pname, tail);
    lemma_field_roundtrip(addr, rest);
    assert(body.skip(2) =~= field_bytes(pname) + tail);
    assert(body.skip(4 + pname.len() as int) =~= tail);
    assert(body[0] == u16_bytes(pid)[0] && body[1] == u16_bytes(pid)[1]);
}

/// The body of a written fork acknowledgement is read as the acknowledgement.
proof fn lemma_fork_body(pid: u16, pname: Seq<u8>, addr: Seq<u8>, rest: Seq<u8>)
    requires
        pname.len() < 65536,
        addr.len() < 65536,
    ensures
        fork_ack(u16_bytes(pid) + field_bytes(pname) + field_bytes(addr) + rest) == (if valid_utf8(
            addr,
        ) {
            Parsed::Frame(
                ChatMsgView::Server(
                    ResponseView::ForkPeerAckA { pid, pname, addr: decode_utf8(addr) },
                ),
                8 + pname.len() + addr.len(),
            )
        } else {
            Parsed::BadAddr(8 + pname.len() + addr.len())
        }),
{
    lemma_fork_fields(pid, pname, addr, rest);
}

/// A response made of a header and one byte-string field is read back whole.
proof fn lemma_one_field_frame(group: u8, kind: u8, m: Seq<u8>, rest: Seq<u8>)
    requires
        m.len() < 65536,
    ensures
        ({
            let b = seq![group, kind] + field_bytes(m) + rest;
            &&& b[0] == group
            &&& b[1] == kind
            &&& field_at(b.skip(2)) == Some(m)
        }),
{
    let b = seq![group, kind] + field_bytes(m) + rest;
    lemma_field_roundtrip(m, rest);
    assert(b.skip(2) =~= field_bytes(m) + rest);
}

proof fn lemma_user_message_roundtrip(id: u16, msg: Seq<u8>, rest: Seq<u8>)
    requires
        msg.len() < 65536,
    ensures
        ({
            let r = ResponseView::UserMessage { id, msg };
            parse_frame(response_frame(r) + rest) == response_read_back(r)
        }),
{
    let r = ResponseView::UserMessage { id, msg };
    let b = response_frame(r) + rest;
    lemma_id_field_frame(RESP_USERMSG, id, msg, rest);
    lemma_field_roundtrip(msg, rest);
    let body = b.skip(2);
    assert(parse_frame(b) == parse_response(RESP_USERMSG, body));
    let make = |i: u16, m: Seq<u8>| ChatMsgView::Server(ResponseView::UserMessage { id: i, msg: m });
    assert(parse_response(RESP_USERMSG, body) == id_and_field(body, make));
    assert(response_frame(r).len() == 6 + msg.len());
}

proof fn lemma_name_ack_roundtrip(id: u16, name: Seq<u8>, rest: Seq<u8>)
    requires
        name.len() < 65536,
    ensures
        ({
            let r = ResponseView::JoinNameAck { id, name };
            parse_frame(response_frame(r) + rest) == response_read_back(r)
        }),
{
    let r = ResponseView::JoinNameAck { id, name };
    let b = response_frame(r) + rest;
    lemma_id_field_frame(RESP_NAMEACK, id, name, rest);
    lemma_field_roundtrip(name, rest);
    let body = b.skip(2);
    assert(parse_frame(b) == parse_response(RESP_NAMEACK, body));
    let make = |i: u16, m: Seq<u8>| ChatMsgView::Server(ResponseView::JoinNameAck { id: i, name: m });
    assert(parse_response(RESP_NAMEACK, body) == id_and_field(body, make));
    assert(response_frame(r).len() == 6 + name.len());
}

proof fn lemma_notification_roundtrip(m: Seq<u8>, rest: Seq<u8>)
    requires
        m.len() < 65536,
    ensures
        ({
            let r = ResponseView::Notification(m);
            parse_frame(response_frame(r) + rest) == response_read_back(r)
        }),
{
    lemma_one_field_frame(RESP, RESP_NOTIF, m, rest);
    lemma_field_roundtrip(m, rest);
}

proof fn lemma_unavailable_roundtrip(m: Seq<u8>, rest: Seq<u8>)
    requires
        m.len() < 65536,
    ensures
        ({
            let r = ResponseView::PeerUnavailable(m);
            parse_frame(response_frame(r) + rest) == response_read_back(r)
        }),
{
    lemma_one_field_frame(RESP, RESP_PEERUNAV, m, rest);
    lemma_field_roundtrip(m, rest);
}

proof fn lemma_fork_ack_roundtrip(pid: u16, pname: Seq<u8>, addr: Seq<u8>, rest: Seq<u8>)
    requires
        pname.len() < 65536,
        addr.len() < 65536,
    ensures
        ({
            let r = ResponseView::ForkPeerAckB { pid, pname, addr };
            parse_frame(response_frame(r) + rest) == response_read_back(r)
        }),
{
    let r = ResponseView::ForkPeerAckB { pid, pname, addr };
    let b = response_frame(r) + rest;
    let body = u16_bytes(pid) + field_bytes(pname) + field_bytes(addr) + rest;
    assert(b.skip(2) =~= body);
    assert(b[0] == RESP && b[1] == RESP_FORKACK);
    lemma_fork_body(pid, pname, addr, rest);
    assert(parse_frame(b) == fork_ack(body));
}

/// Reading a written server response, whatever bytes follow it, takes exactly its frame
/// and gives the response back; a fork acknowledgement comes back with its address as
/// the text those bytes encode, or as an error when they are not UTF-8.
pub proof fn law_response_roundtrip(r: ResponseView, rest: Seq<u8>)
    requires
        response_encodable(r),
        response_fields_fit(r),
    ensures
        parse_frame(response_frame(r) + rest) == response_read_back(r),
{
    match r {
        ResponseView::UserMessage { id, msg } => lemma_user_message_roundtrip(id, msg, rest),
        ResponseView::JoinNameAck { id, name } => lemma_name_ack_roundtrip(id, name, rest),
        ResponseView::Notification(m) => lemma_notification_roundtrip(m, rest),
        ResponseView::PeerUnavailable(m) => lemma_unavailable_roundtrip(m, rest),
        ResponseView::ForkPeerAckB { pid, pname, addr } => lemma_fork_ack_roundtrip(
            pid,
            pname,
            addr,
            rest,
        ),
        _ => {},
    }
}

// ---------------------------------------------------------------------------
// Reading frames
// ---------------------------------------------------------------------------

/// Takes a byte-string field off the front of the buffer.
fn decode_vec(src: &mut BytesMut) -> (v: Vec<u8>)
    requires
        field_at(buf_contents(*old(src))) is Some,
    ensures
        v@ == field_at(buf_contents(*old(src)))->0,
        buf_contents(*final(src)) == buf_contents(*old(src)).skip(2 + v@.len() as int),
{
    let ghost s = buf_contents(*src);
    let v_len = buf_get_u16(src);
    let mut bytes: Vec<u8> = vec![0; v_len as usize];
    buf_copy_to_slice(src, &mut bytes);
    assert(buf_contents(*src) =~= s.skip(2 + v_len));
    assert(bytes@ =~= s.subrange(2, 2 + v_len));
    bytes
}

/// Takes a peer address field off the front of the buffer: the address text, or an
/// error when its bytes are not UTF-8. The field is consumed either way.
pub fn decode_addr(src: &mut BytesMut) -> (res: Result<String, CodecError>)
    requires
        field_at(buf_contents(*old(src))) is Some,
    ensures
        ({
            let f = field_at(buf_contents(*old(src)))->0;
            &&& buf_contents(*final(src)) == buf_contents(*old(src)).skip(2 + f.len() as int)
            &&& match res {
                Ok(addr) => valid_utf8(f) && addr@ == decode_utf8(f),
                Err(e) => !valid_utf8(f) && e == CodecError::InvalidUtf8,
            }
        }),
{
    let bytes = decode_vec(src);
    match string_from_utf8(bytes) {
        Some(addr) => Ok(addr),
        None => Err(CodecError::InvalidUtf8),
    }
}

impl ChatCodec {
    /// Whether the buffer's first frame can be read: it is not cut short and its group
    /// and kind bytes are known. Reading any other buffer stops the reader.
    pub fn can_decode(&self, src: &BytesMut) -> (ok: bool)
        ensures
            ok == !(parse_frame(buf_contents(*src)) is Unsupported),
    {
        let ghost s = buf_contents(*src);
        let n = buf_len(src);
        if n < 2 {
            return true;
        }
        let group = buf_byte_at(src, 0);
        let kind = buf_byte_at(src, 1);
        let ghost body = s.skip(2);
        if group == REQ {
            if kind == REQ_USERS || kind == REQ_QUIT {
                true
            } else if kind == REQ_MSG || kind == REQ_NAME || kind == REQ_FORKP {
                field_fits(src, 2)
            } else {
                false
            }
        } else if group == RESP {
            if kind == RESP_NAMEACK || kind == RESP_USERMSG {
                n >= 4 && field_fits(src, 4)
            } else if kind == RESP_NOTIF || kind == RESP_PEERUNAV {
                field_fits(src, 2)
            } else if kind == RESP_FORKACK {
                if n >= 4 && field_fits(src, 4) {
                    let pname_len = field_len(src, 4);
                    assert(s.skip(4) =~= body.skip(2));
                    assert(s.skip(6 + pname_len) =~= body.skip(4 + pname_len));
                    field_fits(src, 6 + pname_len)
                } else {
                    false
                }
            } else {
                false
            }
        } else if group == ASK {
            if kind == ASK_HELLO || kind == ASK_LEAVE || kind == ASK_NOTE {
                field_fits(src, 2)
            } else {
                false
            }
        } else if group == REPLY {
            if kind == REPLY_HELLO || kind == REPLY_LEAVE || kind == REPLY_NOTE {
                field_fits(src, 2)
            } else {
                false
            }
        } else {
            false
        }
    }

    /// Reads the first frame off the buffer.
    ///
    /// With fewer than two bytes nothing is read (`Ok(None)`). A whole frame is taken off
    /// the buffer and returned; a fork acknowledgement whose address is not UTF-8 is taken
    /// off and answered with an error.
    pub fn decode(&mut self, src: &mut BytesMut) -> (res: Result<Option<ChatMsg>, CodecError>)
        requires
            !(parse_frame(buf_contents(*old(src))) is Unsupported),
        ensures
            match parse_frame(buf_contents(*old(src))) {
                Parsed::Pending => res == Ok::<Option<ChatMsg>, CodecError>(None)
                    && buf_contents(*final(src)) == buf_contents(*old(src)),
                Parsed::Frame(m, n) => (res matches Ok(Some(msg)) && msg@ == m)
                    && buf_contents(*final(src)) == buf_contents(*old(src)).skip(n as int),
                Parsed::BadAddr(n) => res == Err::<Option<ChatMsg>, CodecError>(
                    CodecError::InvalidUtf8,
                ) && buf_contents(*final(src)) == buf_contents(*old(src)).skip(n as int),
                Parsed::Unsupported => false,
            },
    {
        let ghost s = buf_contents(*src);
        if buf_is_empty(src) || buf_len(src) < 2 {
            return Ok(None);
        }
        let group = buf_byte_at(src, 0);
        let ghost body = s.skip(2);
        buf_advance(src, 1);
        let kind = buf_get_u8(src);
        assert(buf_contents(*src) =~= body);
        if group == REQ {
            if kind == REQ_USERS {
                Ok(Some(ChatMsg::Client(Request::Users)))
            } else if kind == REQ_QUIT {
                Ok(Some(ChatMsg::Client(Request::Quit)))
            } else if kind == REQ_MSG {
                let msg = decode_vec(src);
                proof { lemma_skip_skip(s, 2, 2 + msg@.len()); }
                Ok(Some(ChatMsg::Client(Request::Message(msg))))
            } else if kind == REQ_NAME {
                let msg = decode_vec(src);
                proof { lemma_skip_skip(s, 2, 2 + msg@.len()); }
                Ok(Some(ChatMsg::Client(Request::JoinName(msg))))
            } else {
                let msg = decode_vec(src);
                proof { lemma_skip_skip(s, 2, 2 + msg@.len()); }
                Ok(Some(ChatMsg::Client(Request::ForkPeer { pname: msg })))
            }
        } else if group == RESP {
            if kind == RESP_NAMEACK {
                let id = buf_get_u16(src);
                let name = decode_vec(src);
                proof {
                    lemma_skip_skip(body, 2, 2 + name@.len());
                    lemma_skip_skip(s, 2, 4 + name@.len());
                }
                Ok(Some(ChatMsg::Server(Response::JoinNameAck { id, name })))
            } else if kind == RESP_USERMSG {
                let id = buf_get_u16(src);
                let msg = decode_vec(src);
                proof {
                    lemma_skip_skip(body, 2, 2 + msg@.len());
                    lemma_skip_skip(s, 2, 4 + msg@.len());
                }
                Ok(Some(ChatMsg::Server(Response::UserMessage { id, msg })))
            } else if kind == RESP_NOTIF {
                let msg = decode_vec(src);
                proof { lemma_skip_skip(s, 2, 2 + msg@.len()); }
                Ok(Some(ChatMsg::Server(Response::Notification(msg))))
            } else if kind == RESP_FORKACK {
                let pid = buf_get_u16(src);
                let pname = decode_vec(src);
                proof { lemma_skip_skip(body, 2, 2 + pname@.len()); }
                let ghost rest = buf_contents(*src);
                let addr = decode_addr(src);
                proof {
                    let f = field_at(rest)->0;
                    lemma_skip_skip(body, 4 + pname@.len(), 2 + f.len());
                    lemma_skip_skip(s, 2, 6 + pname@.len() + f.len());
                }
                match addr {
                    Ok(addr) => Ok(Some(ChatMsg::Server(Response::ForkPeerAckA { pid, pname, addr }))),
                    Err(e) => Err(e),
                }
            } else {
                let name = decode_vec(src);
                proof { lemma_skip_skip(s, 2, 2 + name@.len()); }
                Ok(Some(ChatMsg::Server(Response::PeerUnavailable(name))))
            }
        } else if group == ASK {
            let msg = decode_vec(src);
            proof { lemma_skip_skip(s, 2, 2 + msg@.len()); }
            if kind == ASK_HELLO {
                Ok(Some(ChatMsg::PeerA(Ask::Hello(msg))))
            } else if kind == ASK_LEAVE {
                Ok(Some(ChatMsg::PeerA(Ask::Leave(msg))))
            } else {
                Ok(Some(ChatMsg::PeerA(Ask::Note(msg))))
            }
        } else {
            let msg = decode_vec(src);
            proof { lemma_skip_skip(s, 2, 2 + msg@.len()); }
            if kind == REPLY_HELLO {
                Ok(Some(ChatMsg::PeerB(Reply::Hello(msg))))
            } else if kind == REPLY_LEAVE {
                Ok(Some(ChatMsg::PeerB(Reply::Leave(msg))))
            } else {
                Ok(Some(ChatMsg::PeerB(Reply::Note(msg))))
            }
        }
    }
}

/// Whether a whole byte-string field starts at position `at` of the buffer.
fn field_fits(src: &BytesMut, at: usize) -> (ok: bool)
    requires
        at <= buf_contents(*src).len(),
    ensures
        ok == (field_at(buf_contents(*src).skip(at as int)) is Some),
{
    let n = buf_len(src);
    if n - at < 2 {
        return false;
    }
    let hi = buf_byte_at(src, at);
    let lo = buf_byte_at(src, at + 1);
    let len: usize = hi as usize * 256 + lo as usize;
    n - at - 2 >= len
}

/// The length written in the byte-string field at position `at` of the buffer.
fn field_len(src: &BytesMut, at: usize) -> (len: usize)
    requires
        at + 2 <= buf_contents(*src).len() <= usize::MAX,
    ensures
        len == be16(buf_contents(*src)[at as int], buf_contents(*src)[at + 1]),
        len < 65536,
{
    let hi = buf_byte_at(src, at);
    let lo = buf_byte_at(src, at + 1);
    hi as usize * 256 + lo as usize
}

/// Dropping `a` and then `b` elements drops `a + b`.
proof fn lemma_skip_skip(s: Seq<u8>, a: nat, b: nat)
    requires
        a + b <= s.len(),
    ensures
        s.skip(a as int).skip(b as int) == s.skip((a + b) as int),
{
    assert(s.skip(a as int).skip(b as int) =~= s.skip((a + b) as int));
}

// ---------------------------------------------------------------------------
// Writing frames
// ---------------------------------------------------------------------------

/// Appends a byte-string field: its length as a 16-bit integer (kept to its low 16 bits),
/// then its bytes.
fn encode_vec(msg: Vec<u8>, dst: &mut BytesMut)
    requires
        buf_contents(*old(dst)).len() + 2 + msg.len() <= buf_limit(),
    ensures
        buf_contents(*final(dst)) == buf_contents(*old(dst)) + field_bytes(msg@),
{
    buf_reserve(dst, 2 + msg.len());
    buf_put_u16(dst, (msg.len() % 65536) as u16);
    buf_extend_from_slice(dst, &msg);
    proof {
        let v = (msg@.len() % 65536) as u16;
        assert(buf_contents(*dst) =~= buf_contents(*old(dst)) + field_bytes(msg@));
    }
}

/// Appends two header bytes.
fn put_header(dst: &mut BytesMut, group: u8, kind: u8)
    requires
        buf_contents(*old(dst)).len() + 2 <= buf_limit(),
    ensures
        buf_contents(*final(dst)) == buf_contents(*old(dst)) + seq![group, kind],
{
    buf_put_u8(dst, group);
    buf_put_u8(dst, kind);
    assert(buf_contents(*dst) =~= buf_contents(*old(dst)) + seq![group, kind]);
}

/// Appends a 16-bit integer field.
fn put_id(dst: &mut BytesMut, id: u16)
    requires
        buf_contents(*old(dst)).len() + 2 <= buf_limit(),
    ensures
        buf_contents(*final(dst)) == buf_contents(*old(dst)) + u16_bytes(id),
{
    buf_put_u16(dst, id);
    assert(buf_contents(*dst) =~= buf_contents(*old(dst)) + u16_bytes(id));
}

/// The address of a peer, written as a byte-string field holding its UTF-8 text.
pub fn encode_addr(addr: &String, dst: &mut BytesMut)
    requires
        buf_contents(*old(dst)).len() + 2 + encode_utf8(addr@).len() <= buf_limit(),
    ensures
        buf_contents(*final(dst)) == buf_contents(*old(dst)) + field_bytes(encode_utf8(addr@)),
{
    let bytes = addr.as_str().as_bytes_vec();
    encode_vec(bytes, dst)
}

/// Whether a request has a frame.
pub fn request_has_frame(r: &Request) -> (b: bool)
    ensures
        b == request_encodable(r@),
{
    !matches!(r, Request::Heartbeat)
}

/// Whether a response has a frame.
pub fn response_has_frame(r: &Response) -> (b: bool)
    ensures
        b == response_encodable(r@),
{
    !matches!(r, Response::ForkPeerAckA { .. } | Response::Heartbeat)
}

impl ChatCodec {
    /// Writes the frame of a client request.
    pub fn encode_request(&mut self, item: Request, dst: &mut BytesMut)
        requires
            request_encodable(item@),
            buf_contents(*old(dst)).len() + request_frame(item@).len() <= buf_limit(),
        ensures
            buf_contents(*final(dst)) == buf_contents(*old(dst)) + request_frame(item@),
    {
        let ghost start = buf_contents(*dst);
        match item {
            Request::Users => {
                put_header(dst, REQ, REQ_USERS);
            },
            Request::Quit => {
                put_header(dst, REQ, REQ_QUIT);
            },
            Request::Message(msg) => {
                put_header(dst, REQ, REQ_MSG);
                encode_vec(msg, dst);
            },
            Request::JoinName(msg) => {
                put_header(dst, REQ, REQ_NAME);
                encode_vec(msg, dst);
            },
            Request::ForkPeer { pname } => {
                put_header(dst, REQ, REQ_FORKP);
                encode_vec(pname, dst);
            },
            Request::Heartbeat => {},
        }
        assert(buf_contents(*dst) =~= start + request_frame(item@));
    }

    /// Writes the frame of a server response.
    pub fn encode_response(&mut self, item: Response, dst: &mut BytesMut)
        requires
            response_encodable(item@),
            buf_contents(*old(dst)).len() + response_frame(item@).len() <= buf_limit(),
        ensures
            buf_contents(*final(dst)) == buf_contents(*old(dst)) + response_frame(item@),
    {
        let ghost start = buf_contents(*dst);
        let ghost frame = response_frame(item@);
        match item {
            Response::UserMessage { id, msg } => {
                put_header(dst, RESP, RESP_USERMSG);
                put_id(dst, id);
                encode_vec(msg, dst);
            },
            Response::JoinNameAck { id, name } => {
                put_header(dst, RESP, RESP_NAMEACK);
                put_id(dst, id);
                encode_vec(name, dst);
            },
            Response::Notification(msg) => {
                put_header(dst, RESP, RESP_NOTIF);
                encode_vec(msg, dst);
            },
            Response::ForkPeerAckB { pid, pname, addr } => {
                put_header(dst, RESP, RESP_FORKACK);
                put_id(dst, pid);
                encode_vec(pname, dst);
                encode_vec(addr, dst);
            },
            Response::PeerUnavailable(name) => {
                put_header(dst, RESP, RESP_PEERUNAV);
                encode_vec(name, dst);
            },
            Response::ForkPeerAckA { .. } => {},
            Response::Heartbeat => {},
        }
        assert(buf_contents(*dst) =~= start + frame);
    }

    /// Writes the frame of a peer ask.
    pub fn encode_ask(&mut self, item: Ask, dst: &mut BytesMut)
        requires
            buf_contents(*old(dst)).len() + ask_frame(item@).len() <= buf_limit(),
        ensures
            buf_contents(*final(dst)) == buf_contents(*old(dst)) + ask_frame(item@),
    {
        let ghost start = buf_contents(*dst);
        let ghost frame = ask_frame(item@);
        match item {
            Ask::Hello(msg) => {
                put_header(dst, ASK, ASK_HELLO);
                encode_vec(msg, dst);
            },
            Ask::Leave(msg) => {
                put_header(dst, ASK, ASK_LEAVE);
                encode_vec(msg, dst);
            },
            Ask::Note(msg) => {
                put_header(dst, ASK, ASK_NOTE);
                encode_vec(msg, dst);
            },
        }
        assert(buf_contents(*dst) =~= start + frame);
    }

    /// Writes the frame of a peer reply.
    pub fn encode_reply(&mut self, item: Reply, dst: &mut BytesMut)
        requires
            buf_contents(*old(dst)).len() + reply_frame(item@).len() <= buf_limit(),
        ensures
            buf_contents(*final(dst)) == buf_contents(*old(dst)) + reply_frame(item@),
    {
        let ghost start = buf_contents(*dst);
        let ghost frame = reply_frame(item@);
        match item {
            Reply::Hello(msg) => {
                put_header(dst, REPLY, REPLY_HELLO);
                encode_vec(msg, dst);
            },
            Reply::Leave(msg) => {
                put_header(dst, REPLY, REPLY_LEAVE);
                encode_vec(msg, dst);
            },
            Reply::Note(msg) => {
                put_header(dst, REPLY, REPLY_NOTE);
                encode_vec(msg, dst);
            },
        }
        assert(buf_contents(*dst) =~= start + frame);
    }
}

} // verus!
