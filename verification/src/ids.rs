//! Session ids: the input handler numbers each chat session (the lobby and every peer
//! session) with an io id, shown to the user as a session id counted from the lobby.
//! Also the port a peer server listens on.

use vstd::prelude::*;

verus! {

/// The io id of the main lobby session.
pub const IO_ID_LOBBY: u16 = 1000;

/// Session ids shown to the user are io ids less this offset.
pub const IO_ID_OFFSET: u16 = 1000;

/// The io id of the main lobby session.
pub fn lobby_id() -> (id: u16)
    ensures
        id == IO_ID_LOBBY,
{
    IO_ID_LOBBY
}

/// Whether an io id is the lobby's.
pub fn is_lobby(io_id: u16) -> (b: bool)
    ensures
        b == (io_id == IO_ID_OFFSET),
{
    io_id == IO_ID_OFFSET
}

/// The session id shown for an io id.
pub fn session_id(io_id: u16) -> (sid: u16)
    requires
        io_id >= IO_ID_OFFSET,
    ensures
        sid == io_id - IO_ID_OFFSET,
{
    io_id - IO_ID_OFFSET
}

/// The io id of a session id typed by the user.
pub fn io_id(session_id: u16) -> (id: u16)
    requires
        session_id + IO_ID_OFFSET <= u16::MAX,
    ensures
        id == session_id + IO_ID_OFFSET,
{
    session_id + IO_ID_OFFSET
}

pub const PEER_SERVER_PORT0: u16 = 43310;
pub const PEER_SERVER_PORT1: u16 = 43311;
pub const PEER_SERVER_PORT2: u16 = 43312;
pub const PEER_SERVER_PORT3: u16 = 43313;

/// Where a client's peer server listens: one of four ports, chosen by the client id.
pub struct PeerServer;

impl PeerServer {
    /// The peer server port of the client with this id.
    pub fn peer_port(id: u16) -> (port: u16)
        ensures
            port == PEER_SERVER_PORT0 + id % 4,
    {
        let r = id % 4;
        if r == 0 {
            PEER_SERVER_PORT0
        } else if r == 1 {
            PEER_SERVER_PORT1
        } else if r == 2 {
            PEER_SERVER_PORT2
        } else {
            PEER_SERVER_PORT3
        }
    }
}

} // verus!
