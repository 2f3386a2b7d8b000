//! The choices the command-line tools take: which protocol a byte stream
//! holds, and which side of a game connection a packet comes from.

use vstd::prelude::*;

use crate::text::{push_str, str_eq, to_lowercase, unicode_lowercase};

verus! {

/// The protocol a stream of messages is decoded with.
#[derive(Clone, Copy, Debug, PartialEq, Eq, Structural)]
pub enum Protocol {
    Game,
    Connection,
}

/// The protocol a command-line word names, in any letter case: `game` or
/// `g`, `connection` or `c`.
pub open spec fn protocol_of(s: Seq<char>) -> Option<Protocol> {
    let l = unicode_lowercase(s);
    if l == "game"@ || l == "g"@ {
        Some(Protocol::Game)
    } else if l == "connection"@ || l == "c"@ {
        Some(Protocol::Connection)
    } else {
        None
    }
}

/// The protocol a command-line word names, or the message for a word that
/// names none.
pub fn parse_protocol(s: &str) -> (res: Result<Protocol, String>)
    ensures
        match res {
            Ok(p) => protocol_of(s@) == Some(p),
            Err(m) => protocol_of(s@) is None && m@ == "Invalid protocol: "@ + s@,
        },
{
    let l = to_lowercase(s);
    if str_eq(l.as_str(), "game") || str_eq(l.as_str(), "g") {
        Ok(Protocol::Game)
    } else if str_eq(l.as_str(), "connection") || str_eq(l.as_str(), "c") {
        Ok(Protocol::Connection)
    } else {
        let mut m = String::new();
        push_str(&mut m, "Invalid protocol: ");
        push_str(&mut m, s);
        Err(m)
    }
}

/// The side of a game connection a packet comes from.
#[derive(Clone, Copy, Debug, PartialEq, Eq, Structural)]
pub enum Source {
    Server,
    Client,
}

/// The port the game server listens on.
pub const GAME_PORT: u16 = 5555;

/// The side a packet comes from, by its ports: from the game port to
/// another, the server; the other way, the client; else neither.
pub fn source(src_port: u16, dst_port: u16) -> (res: Option<Source>)
    ensures
        res == (if src_port == GAME_PORT && dst_port != GAME_PORT {
            Some(Source::Server)
        } else if src_port != GAME_PORT && dst_port == GAME_PORT {
            Some(Source::Client)
        } else {
            None
        }),
{
    match (src_port == GAME_PORT, dst_port == GAME_PORT) {
        (true, false) => Some(Source::Server),
        (false, true) => Some(Source::Client),
        _ => None,
    }
}

} // verus!
