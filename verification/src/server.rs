//! The main server's logic: what a connected client's frames become, and what each
//! server message is delivered as.

use bytes::BytesMut;
use vstd::prelude::*;
use vstd::string::*;
use vstd::utf8::*;

use crate::buf::{buf_contents, buf_new, buf_to_vec};
use crate::names::{insert_spec, registered_form, remove_spec, Names, NamesView, USERS_MSG, users_list};
use crate::protocol::{
    response_encodable, response_frame, ChatCodec, Request, RequestView, Response, ResponseView,
};
use crate::text::{append_range, concat_text, lines_view, message_lines, nonempty_lines, string_from_utf8};

verus! {

/// A message between a client's handler and the server's delivery task.
#[derive(Debug)]
pub enum MsgType {
    Joined(u16, Vec<u8>),
    JoinedAck(u16, Vec<u8>),
    Message(u16, Vec<u8>),
    MessageSingle(u16, Vec<u8>),
    Exited(Vec<u8>),
    Users(u16),
    ForkPeerAck(u16, u16, Vec<u8>, Vec<u8>),
    PeerUnavailable(u16, Vec<u8>),
}

pub enum MsgTypeView {
    Joined(u16, Seq<u8>),
    JoinedAck(u16, Seq<u8>),
    Message(u16, Seq<u8>),
    MessageSingle(u16, Seq<u8>),
    Exited(Seq<u8>),
    Users(u16),
    ForkPeerAck(u16, u16, Seq<u8>, Seq<u8>),
    PeerUnavailable(u16, Seq<u8>),
}

impl View for MsgType {
    type V = MsgTypeView;

    open spec fn view(&self) -> MsgTypeView {
        match self {
            MsgType::Joined(c, m) => MsgTypeView::Joined(*c, m@),
            MsgType::JoinedAck(c, m) => MsgTypeView::JoinedAck(*c, m@),
            MsgType::Message(c, m) => MsgTypeView::Message(*c, m@),
            MsgType::MessageSingle(c, m) => MsgTypeView::MessageSingle(*c, m@),
            MsgType::Exited(m) => MsgTypeView::Exited(m@),
            MsgType::Users(c) => MsgTypeView::Users(*c),
            MsgType::ForkPeerAck(c, p, n, a) => MsgTypeView::ForkPeerAck(*c, *p, n@, a@),
            MsgType::PeerUnavailable(c, n) => MsgTypeView::PeerUnavailable(*c, n@),
        }
    }
}

/// The views of a list of server messages.
pub open spec fn msgs_view(v: Seq<MsgType>) -> Seq<MsgTypeView> {
    v.map_values(|m: MsgType| m@)
}

/// `User {name} joined\n`.
pub open spec fn joined_text(name: Seq<char>) -> Seq<u8> {
    encode_utf8("User "@) + encode_utf8(name) + encode_utf8(" joined\n"@)
}

/// `You have successfully joined as {name} \n`.
pub open spec fn joined_ack_text(name: Seq<char>) -> Seq<u8> {
    encode_utf8("You have successfully joined as "@) + encode_utf8(name) + encode_utf8(" \n"@)
}

/// `User {name} has left\n`.
pub open spec fn left_text(name: Seq<char>) -> Seq<u8> {
    encode_utf8("User "@) + encode_utf8(name) + encode_utf8(" has left\n"@)
}

/// The prefix put before each line a client sends: `name: `.
pub open spec fn prompt(name: Seq<u8>) -> Seq<u8> {
    name + seq![58u8, 32u8]
}

/// What a client's request asks of its handler.
pub enum ClientAction {
    /// Pass these messages to the delivery task.
    Forward(Vec<MsgType>),
    /// The client has quit: take it off the registry.
    Disconnect,
    /// Look the named peer up for a private session.
    LookupPeer(Vec<u8>),
}

/// The server's side of one connected client: its id and its message prefix.
pub struct ClientHandler {
    pub client_id: u16,
    pub msg_prefix: Vec<u8>,
}

/// The name a client registering as `name` is known by: the name as given when it was
/// new, its numbered variant otherwise.
pub open spec fn registered_name(v: NamesView, name: Seq<char>) -> Seq<char> {
    if insert_spec(v, name).1 {
        name
    } else {
        insert_spec(v, name).0.last_fixed.unwrap()
    }
}

impl ClientHandler {
    /// A handler whose client is not registered yet.
    pub fn new() -> (h: ClientHandler)
        ensures
            h.client_id == u16::MAX,
            h.msg_prefix@ == Seq::<u8>::empty(),
    {
        ClientHandler { client_id: u16::MAX, msg_prefix: Vec::new() }
    }

    /// Sets the prefix put before the client's lines: its name, a colon and a space.
    pub fn set_msg_prompt(&mut self, bytes: Vec<u8>)
        ensures
            final(self).msg_prefix@ == prompt(bytes@),
            final(self).client_id == old(self).client_id,
    {
        let mut prefix: Vec<u8> = Vec::new();
        append_range(&mut prefix, bytes.as_slice(), 0, bytes.len());
        prefix.push(58u8);
        prefix.push(32u8);
        assert(bytes@.subrange(0, bytes@.len() as int) =~= bytes@);
        assert(prefix@ =~= prompt(bytes@));
        self.msg_prefix = prefix;
    }

    /// Registers the client under `name` with id `client_id`: the name is entered into
    /// the registry (a taken name is replaced by its numbered variant, announced to the
    /// client with `You have successfully joined as {name} \n`), everyone is told
    /// `User {name} joined\n`, and the prefix becomes `{name}: `. Returns the name the
    /// client is known by and the messages to deliver.
    pub fn register(&mut self, client_id: u16, name: String, names: &mut Names) -> (r: (
        String,
        Vec<MsgType>,
    ))
        requires
            old(names).wf(),
            !(old(names)@.duplicates.contains_key(registered_form(name@)) && old(
                names,
            )@.duplicates[registered_form(name@)] == usize::MAX),
        ensures
            final(names).wf(),
            ({
                let (after, new) = insert_spec(old(names)@, name@);
                let known = registered_name(old(names)@, name@);
                &&& final(names)@ == (if new { after } else { NamesView { last_fixed: None, ..after } })
                &&& r.0@ == known
                &&& msgs_view(r.1@) == (if new {
                    seq![MsgTypeView::Joined(client_id, joined_text(known))]
                } else {
                    seq![
                        MsgTypeView::JoinedAck(client_id, joined_ack_text(known)),
                        MsgTypeView::Joined(client_id, joined_text(known)),
                    ]
                })
                &&& final(self).client_id == client_id
                &&& final(self).msg_prefix@ == prompt(encode_utf8(known))
            }),
    {
        self.client_id = client_id;
        let ghost v = names@;
        let mut msgs: Vec<MsgType> = Vec::new();
        let mut known = name.clone();
        let ghost given = name@;
        let new = names.insert(name);
        if !new {
            match names.last_collision() {
                Some(fixed) => {
                    known = fixed;
                },
                None => {},
            }
            let ack = concat_text("You have successfully joined as ", &known.as_str().as_bytes_vec(), " \n");
            msgs.push(MsgType::JoinedAck(client_id, ack));
        }
        let joined = concat_text("User ", &known.as_str().as_bytes_vec(), " joined\n");
        msgs.push(MsgType::Joined(client_id, joined));
        self.set_msg_prompt(known.as_str().as_bytes_vec());
        proof {
            assert(msgs_view(msgs@) =~= (if new {
                seq![MsgTypeView::Joined(client_id, joined_text(known@))]
            } else {
                seq![
                    MsgTypeView::JoinedAck(client_id, joined_ack_text(known@)),
                    MsgTypeView::Joined(client_id, joined_text(known@)),
                ]
            }));
        }
        (known, msgs)
    }
}

/// The messages a client's typed message becomes: one per non-empty line, each headed by
/// the client's prefix.
pub open spec fn message_msgs(cid: u16, prefix: Seq<u8>, msg: Seq<u8>) -> Seq<MsgTypeView> {
    nonempty_lines(msg).map_values(|l: Seq<u8>| MsgTypeView::Message(cid, prefix + l))
}

/// Whether a handler acts on this request (a client never sends a join request or a
/// heartbeat after registering).
pub open spec fn handled_request(r: RequestView) -> bool {
    r is Users || r is Quit || r is Message || r is ForkPeer
}

/// What the handler does with a client's request.
pub enum ClientActionView {
    Forward(Seq<MsgTypeView>),
    Disconnect,
    LookupPeer(Seq<u8>),
}

impl View for ClientAction {
    type V = ClientActionView;

    open spec fn view(&self) -> ClientActionView {
        match self {
            ClientAction::Forward(v) => ClientActionView::Forward(msgs_view(v@)),
            ClientAction::Disconnect => ClientActionView::Disconnect,
            ClientAction::LookupPeer(n) => ClientActionView::LookupPeer(n@),
        }
    }
}

/// The handler's action for a request from client `cid` with prefix `prefix`.
pub open spec fn client_action(cid: u16, prefix: Seq<u8>, r: RequestView) -> ClientActionView {
    match r {
        RequestView::Users => ClientActionView::Forward(seq![MsgTypeView::Users(cid)]),
        RequestView::Quit => ClientActionView::Disconnect,
        RequestView::Message(m) => ClientActionView::Forward(message_msgs(cid, prefix, m)),
        RequestView::ForkPeer { pname } => ClientActionView::LookupPeer(pname),
        _ => ClientActionView::Disconnect,
    }
}

impl ClientHandler {
    /// What to do with a request from this handler's client.
    pub fn on_request(&self, req: Request) -> (action: ClientAction)
        requires
            handled_request(req@),
        ensures
            action@ == client_action(self.client_id, self.msg_prefix@, req@),
    {
        match req {
            Request::Users => {
                let mut v: Vec<MsgType> = Vec::new();
                v.push(MsgType::Users(self.client_id));
                assert(msgs_view(v@) =~= seq![MsgTypeView::Users(self.client_id)]);
                ClientAction::Forward(v)
            },
            Request::Quit => ClientAction::Disconnect,
            Request::Message(msg) => {
                let lines = message_lines(msg.as_slice());
                let ghost all = lines_view(lines@);
                let mut out: Vec<MsgType> = Vec::new();
                let mut i: usize = 0;
                while i < lines.len()
                    invariant
                        i <= lines@.len(),
                        all == lines_view(lines@),
                        msgs_view(out@) == all.take(i as int).map_values(
                            |l: Seq<u8>| MsgTypeView::Message(self.client_id, self.msg_prefix@ + l),
                        ),
                    decreases lines@.len() - i,
                {
                    let mut line: Vec<u8> = Vec::new();
                    append_range(&mut line, self.msg_prefix.as_slice(), 0, self.msg_prefix.len());
                    append_range(&mut line, lines[i].as_slice(), 0, lines[i].len());
                    proof {
                        assert(self.msg_prefix@.subrange(0, self.msg_prefix@.len() as int) =~= self.msg_prefix@);
                        assert(lines@[i as int]@.subrange(0, lines@[i as int]@.len() as int) =~= lines@[i as int]@);
                        assert(all[i as int] == lines@[i as int]@);
                    }
                    let ghost before = msgs_view(out@);
                    out.push(MsgType::Message(self.client_id, line));
                    proof {
                        assert(msgs_view(out@) =~= before.push(MsgTypeView::Message(self.client_id, self.msg_prefix@ + all[i as int])));
                        assert(all.take(i as int + 1) =~= all.take(i as int).push(all[i as int]));
                    }
                    i = i + 1;
                    assert(msgs_view(out@) =~= all.take(i as int).map_values(
                        |l: Seq<u8>| MsgTypeView::Message(self.client_id, self.msg_prefix@ + l),
                    ));
                }
                assert(all.take(i as int) =~= all);
                ClientAction::Forward(out)
            },
            Request::ForkPeer { pname } => ClientAction::LookupPeer(pname),
            _ => ClientAction::Disconnect,
        }
    }

    /// The answer to a private-session request for `pname`: the peer's id and address when
    /// it is online, that it is unavailable otherwise.
    pub fn fork_answer(&self, pname: Vec<u8>, found: Option<(u16, Vec<u8>)>) -> (m: MsgType)
        ensures
            m@ == match found {
                Some((pid, addr)) => MsgTypeView::ForkPeerAck(self.client_id, pid, pname@, addr@),
                None => MsgTypeView::PeerUnavailable(self.client_id, pname@),
            },
    {
        match found {
            Some((pid, addr)) => MsgType::ForkPeerAck(self.client_id, pid, pname, addr),
            None => MsgType::PeerUnavailable(self.client_id, pname),
        }
    }
}

/// The text a name's bytes spell, or the empty text when they are not UTF-8.
pub open spec fn name_key(b: Seq<u8>) -> Seq<char> {
    if valid_utf8(b) {
        decode_utf8(b)
    } else {
        Seq::empty()
    }
}

/// Finds the registered client named `pname` among (id, address, name) entries: its id and
/// its address bytes.
pub fn find_peer(entries: &Vec<(u16, String, String)>, pname: &Vec<u8>) -> (found: Option<(u16, Vec<u8>)>)
    ensures
        match found {
            Some((pid, addr)) => exists|i: int|
                0 <= i < entries@.len() && (#[trigger] entries@[i]).2@ == name_key(pname@)
                    && entries@[i].0 == pid && addr@ == encode_utf8(entries@[i].1@)
                    && forall|j: int| 0 <= j < i ==> (#[trigger] entries@[j]).2@ != name_key(pname@),
            None => forall|i: int| 0 <= i < entries@.len() ==> (#[trigger] entries@[i]).2@ != name_key(pname@),
        },
{
    let copy = pname.clone();
    assert(copy@ =~= pname@);
    let key = match string_from_utf8(copy) {
        Some(k) => k,
        None => String::new(),
    };
    let mut i: usize = 0;
    while i < entries.len()
        invariant
            i <= entries@.len(),
            key@ == name_key(pname@),
            forall|j: int| 0 <= j < i ==> (#[trigger] entries@[j]).2@ != key@,
        decreases entries@.len() - i,
    {
        if entries[i].2 == key {
            return Some((entries[i].0, entries[i].1.as_str().as_bytes_vec()));
        }
        i = i + 1;
    }
    None
}

/// What is announced when a client leaves: `User {name} has left\n` for the name it was
/// registered under (nothing when it was not in the registry), which is also taken out of
/// the names in use.
pub fn disconnect_msg(removed: Option<String>, names: &mut Names) -> (m: MsgType)
    requires
        old(names).wf(),
    ensures
        final(names).wf(),
        match removed {
            Some(name) => final(names)@ == remove_spec(old(names)@, name@).0 && m@
                == MsgTypeView::Exited(left_text(name@)),
            None => final(names)@ == remove_spec(old(names)@, Seq::empty()).0 && m@
                == MsgTypeView::Exited(Seq::empty()),
        },
{
    match removed {
        Some(name) => {
            let msg = concat_text("User ", &name.as_str().as_bytes_vec(), " has left\n");
            names.remove(&name);
            MsgType::Exited(msg)
        },
        None => {
            let empty = String::new();
            names.remove(&empty);
            MsgType::Exited(Vec::new())
        },
    }
}

/// Id that no client has: broadcasting "to all but it" reaches everyone.
pub const ALL_CLIENTS: u16 = 0;

/// What the delivery task does with one server message.
pub enum Outgoing {
    /// Write this response to one client.
    Send(u16, Response),
    /// Write this response to every client.
    Broadcast(Response),
    /// Write this response to every client but one.
    BroadcastExcept(u16, Response),
    /// Put this message back on the delivery queue.
    Requeue(MsgType),
}

pub enum OutgoingView {
    Send(u16, ResponseView),
    Broadcast(ResponseView),
    BroadcastExcept(u16, ResponseView),
    Requeue(MsgTypeView),
}

impl View for Outgoing {
    type V = OutgoingView;

    open spec fn view(&self) -> OutgoingView {
        match self {
            Outgoing::Send(c, r) => OutgoingView::Send(*c, r@),
            Outgoing::Broadcast(r) => OutgoingView::Broadcast(r@),
            Outgoing::BroadcastExcept(c, r) => OutgoingView::BroadcastExcept(*c, r@),
            Outgoing::Requeue(m) => OutgoingView::Requeue(m@),
        }
    }
}

pub open spec fn outgoing_view(v: Seq<Outgoing>) -> Seq<OutgoingView> {
    v.map_values(|o: Outgoing| o@)
}

/// What each server message is delivered as, given the names in use:
/// - a join is told to everyone else, and the joining client then gets the user list;
/// - a join acknowledgement goes to the joining client as its name acknowledgement;
/// - a message goes to everyone but its sender; a single message to one client;
/// - a leave is told to everyone;
/// - a users request is answered with the list of users online;
/// - a fork acknowledgement or an unavailable peer goes to the client that asked.
pub open spec fn dispatch_spec(m: MsgTypeView, names: NamesView) -> Seq<OutgoingView> {
    match m {
        MsgTypeView::Joined(cid, msg) => seq![
            OutgoingView::BroadcastExcept(cid, ResponseView::Notification(msg)),
            OutgoingView::Requeue(MsgTypeView::Users(cid)),
        ],
        MsgTypeView::JoinedAck(id, name) => seq![
            OutgoingView::Send(id, ResponseView::JoinNameAck { id, name }),
        ],
        MsgTypeView::MessageSingle(id, msg) => seq![
            OutgoingView::Send(id, ResponseView::UserMessage { id, msg }),
        ],
        MsgTypeView::Message(id, msg) => seq![
            OutgoingView::BroadcastExcept(id, ResponseView::UserMessage { id, msg }),
        ],
        MsgTypeView::Exited(msg) => seq![OutgoingView::Broadcast(ResponseView::Notification(msg))],
        MsgTypeView::Users(cid) => seq![
            OutgoingView::Requeue(
                MsgTypeView::MessageSingle(cid, encode_utf8(USERS_MSG@) + users_list(names.unique)),
            ),
        ],
        MsgTypeView::ForkPeerAck(cid, pid, name, addr) => seq![
            OutgoingView::Send(cid, ResponseView::ForkPeerAckB { pid, pname: name, addr }),
        ],
        MsgTypeView::PeerUnavailable(cid, name) => seq![
            OutgoingView::Send(cid, ResponseView::PeerUnavailable(name)),
        ],
    }
}

/// A lobby message is delivered once, to everyone but its sender: what a `Message` from
/// client `id` becomes is a single broadcast that leaves out `id`, of that same message.
pub proof fn law_message_delivered_once(id: u16, m: Seq<u8>, names: NamesView)
    ensures
        dispatch_spec(MsgTypeView::Message(id, m), names).len() == 1,
        dispatch_spec(MsgTypeView::Message(id, m), names)[0] == OutgoingView::BroadcastExcept(
            id,
            ResponseView::UserMessage { id, msg: m },
        ),
{
}

/// The clients a broadcast that leaves out `except` is sent to, in order.
pub open spec fn all_but(ids: Seq<u16>, except: u16) -> Seq<u16> {
    ids.filter(others(except))
}

/// Whether a client is not `except`.
pub open spec fn others(except: u16) -> spec_fn(u16) -> bool {
    |c: u16| c != except
}

/// A broadcast that leaves out one client reaches each other registered client exactly
/// once and never the one left out.
pub proof fn law_broadcast_reaches_others_once(ids: Seq<u16>, except: u16)
    requires
        ids.no_duplicates(),
    ensures
        !all_but(ids, except).contains(except),
        forall|c: u16| c != except ==> (#[trigger] all_but(ids, except).contains(c) <==> ids.contains(c)),
        all_but(ids, except).no_duplicates(),
    decreases ids.len(),
{
    let p = others(except);
    let to = ids.filter(p);
    broadcast use vstd::seq_lib::group_filter_ensures;
    if to.contains(except) {
        let i = choose|i: int| 0 <= i < to.len() && to[i] == except;
        ids.lemma_filter_pred(p, i);
    }
    assert forall|c: u16| c != except implies (#[trigger] to.contains(c) <==> ids.contains(c)) by {
        if to.contains(c) {
            ids.lemma_filter_contains_rev(p, c);
        }
        if ids.contains(c) {
            let i = choose|i: int| 0 <= i < ids.len() && ids[i] == c;
            ids.lemma_filter_contains(p, i);
        }
    }
    if ids.len() > 0 {
        let rest = ids.drop_last();
        assert(rest.no_duplicates()) by {
            assert forall|a: int, b: int| 0 <= a < rest.len() && 0 <= b < rest.len() && a != b implies rest[a] != rest[b] by {
                assert(rest[a] == ids[a] && rest[b] == ids[b]);
            }
        }
        law_broadcast_reaches_others_once(rest, except);
        reveal(Seq::filter);
        let sub = rest.filter(p);
        if p(ids.last()) {
            assert(to == sub.push(ids.last()));
            assert(!sub.contains(ids.last())) by {
                if sub.contains(ids.last()) {
                    rest.lemma_filter_contains_rev(p, ids.last());
                    let i = choose|i: int| 0 <= i < rest.len() && rest[i] == ids.last();
                    assert(ids[i] == ids[ids.len() - 1]);
                }
            }
            assert forall|a: int, b: int| 0 <= a < to.len() && 0 <= b < to.len() && a != b implies to[a] != to[b] by {
                if a < sub.len() && b < sub.len() {
                    assert(to[a] == sub[a] && to[b] == sub[b]);
                } else if a < sub.len() {
                    assert(to[a] == sub[a]);
                } else if b < sub.len() {
                    assert(to[b] == sub[b]);
                }
            }
        } else {
            assert(to == sub);
        }
    }
}

/// The server's delivery loop.
pub struct ChannelReceiver;

impl ChannelReceiver {
    /// What one server message is delivered as.
    pub fn dispatch(message: MsgType, names: &Names) -> (out: Vec<Outgoing>)
        ensures
            outgoing_view(out@) == dispatch_spec(message@, names@),
            message@ matches MsgTypeView::Message(id, m) ==> outgoing_view(out@) == seq![
                OutgoingView::BroadcastExcept(id, ResponseView::UserMessage { id, msg: m }),
            ],
    {
        let ghost m = message@;
        let mut out: Vec<Outgoing> = Vec::new();
        match message {
            MsgType::Joined(cid, msg) => {
                out.push(Outgoing::BroadcastExcept(cid, Response::Notification(msg)));
                out.push(Outgoing::Requeue(MsgType::Users(cid)));
            },
            MsgType::JoinedAck(id, name) => {
                out.push(Outgoing::Send(id, Response::JoinNameAck { id, name }));
            },
            MsgType::MessageSingle(id, msg) => {
                out.push(Outgoing::Send(id, Response::UserMessage { id, msg }));
            },
            MsgType::Message(id, msg) => {
                out.push(Outgoing::BroadcastExcept(id, Response::UserMessage { id, msg }));
            },
            MsgType::Exited(msg) => {
                out.push(Outgoing::Broadcast(Response::Notification(msg)));
            },
            MsgType::Users(cid) => {
                let users_msg = names.to_list();
                out.push(Outgoing::Requeue(MsgType::MessageSingle(cid, users_msg)));
            },
            MsgType::ForkPeerAck(cid, pid, name, addr) => {
                out.push(Outgoing::Send(cid, Response::ForkPeerAckB { pid, pname: name, addr }));
            },
            MsgType::PeerUnavailable(cid, name) => {
                out.push(Outgoing::Send(cid, Response::PeerUnavailable(name)));
            },
        }
        assert(outgoing_view(out@) =~= dispatch_spec(m, names@));
        out
    }
}

/// Delivery of responses to the connected clients.
pub struct Delivery;

impl Delivery {
    /// The bytes written to a client for a response: its frame.
    pub fn frame_bytes(msg: Response) -> (bytes: Vec<u8>)
        requires
            response_encodable(msg@),
            response_frame(msg@).len() <= crate::buf::buf_limit(),
        ensures
            bytes@ == response_frame(msg@),
    {
        let mut chat = ChatCodec;
        let mut bm: BytesMut = buf_new();
        chat.encode_response(msg, &mut bm);
        assert(Seq::<u8>::empty() + response_frame(msg@) =~= response_frame(msg@));
        buf_to_vec(&bm)
    }

    /// The clients a broadcast reaches: every registered id but `except_cid`, in order.
    pub fn recipients(ids: &Vec<u16>, except_cid: u16) -> (to: Vec<u16>)
        ensures
            to@ == ids@.filter(|c: u16| c != except_cid),
            !to@.contains(except_cid),
            ids@.no_duplicates() ==> to@.no_duplicates() && forall|c: u16|
                c != except_cid ==> (#[trigger] to@.contains(c) <==> ids@.contains(c)),
    {
        let mut to: Vec<u16> = Vec::new();
        let mut i: usize = 0;
        while i < ids.len()
            invariant
                i <= ids@.len(),
                to@ == ids@.take(i as int).filter(|c: u16| c != except_cid),
            decreases ids@.len() - i,
        {
            let c = ids[i];
            proof {
                assert(ids@.take(i as int + 1).drop_last() =~= ids@.take(i as int));
                reveal(Seq::filter);
            }
            if c != except_cid {
                to.push(c);
            }
            i = i + 1;
        }
        assert(ids@.take(i as int) =~= ids@);
        proof {
            assert(others(except_cid) =~= (|c: u16| c != except_cid));
            assert(to@ == all_but(ids@, except_cid));
            if to@.contains(except_cid) {
                let j = choose|j: int| 0 <= j < to@.len() && to@[j] == except_cid;
                ids@.lemma_filter_pred(others(except_cid), j);
            }
            if ids@.no_duplicates() {
                law_broadcast_reaches_others_once(ids@, except_cid);
            }
        }
        to
    }
}

} // verus!
