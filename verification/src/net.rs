//! The control messages exchanged between the game supervisor, the client
//! manager and the transport endpoints.

use vstd::prelude::*;

use crate::ids::ReactorID;
use crate::types::PlayerId;

verus! {

/// Announcement of a freshly built match: the match number and, per player,
/// the player's number and the client controller that serves it.
#[derive(Clone, PartialEq, Eq, Debug)]
pub struct RegisterGame {
    pub game: u64,
    pub players: Vec<(PlayerId, ReactorID)>,
}

/// The client manager's reply to `RegisterGame`: one fresh token per player.
#[derive(Clone, PartialEq, Eq, Debug)]
pub struct PlayerUUIDs {
    pub game: u64,
    pub ids: Vec<u64>,
}

/// Announcement of a transport endpoint whose session arrivals the client
/// manager accepts.
#[derive(Clone, Copy, PartialEq, Eq, Structural, Debug)]
pub struct RegisterEndpoint(pub ReactorID);

/// A transport session that identified itself with a player token and asks
/// to be bound to that token's client controller.
#[derive(Clone, Copy, PartialEq, Eq, Structural, Debug)]
pub struct SpawnPlayer {
    pub player: u64,
    pub session: ReactorID,
}

impl SpawnPlayer {
    /// A binding request for the token `player` from the session reactor
    /// `session`.
    pub fn new(player: u64, session: ReactorID) -> (r: SpawnPlayer)
        ensures
            r == (SpawnPlayer { player, session }),
    {
        SpawnPlayer { player, session }
    }
}

/// The client manager's acknowledgement that a session was bound: the
/// player's number, the session reactor and the controller it now feeds.
#[derive(Clone, Copy, PartialEq, Eq, Structural, Debug)]
pub struct Accepted {
    pub player: PlayerId,
    pub client_id: ReactorID,
    pub contr_id: ReactorID,
}

} // verus!
