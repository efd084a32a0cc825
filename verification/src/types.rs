//! Plain value types that cross the player-facing interfaces.

use vstd::prelude::*;

verus! {

/// A player's number inside one match.
pub type PlayerId = u64;

/// An opaque chunk of game traffic.
#[derive(Clone, PartialEq, Eq, Debug)]
pub struct Data {
    pub value: String,
}

/// A message from the host to one player, or to every attached player.
#[derive(Clone, PartialEq, Eq, Debug)]
pub enum HostMsg {
    /// Game traffic for the named player, or for every attached player
    /// when no target is named.
    Data(Data, Option<PlayerId>),
    /// Remove the named player from the match.
    Kick(PlayerId),
}

impl HostMsg {
    /// A kick of the named player.
    pub fn kick(id: PlayerId) -> (r: HostMsg)
        ensures
            r == HostMsg::Kick(id),
    {
        HostMsg::Kick(id)
    }
}

/// One player's contribution to a turn; `data` is `None` when the player
/// timed out or is detached.
#[derive(Clone, PartialEq, Eq, Debug)]
pub struct PlayerMsg {
    pub id: PlayerId,
    pub data: Option<Data>,
}

/// An order to a session to shut down.
#[derive(Clone, Copy, PartialEq, Eq, Structural, Debug)]
pub struct Close {}

} // verus!
