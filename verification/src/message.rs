//! The type-erased message container.
//!
//! A message owns one payload together with a 64-bit type tag, the stable
//! number of the payload's logical kind. Handler tables dispatch on the tag;
//! the payload is recovered at the handler boundary and the recovery fails
//! closed when the tag does not match. Taking the payload leaves the
//! container observably empty.

use vstd::prelude::*;

use crate::ids::ReactorID;
use crate::net::{Accepted, RegisterEndpoint, RegisterGame, PlayerUUIDs, SpawnPlayer};
use crate::types::{Close, Data, HostMsg, PlayerId, PlayerMsg};

verus! {

pub const TAG_INITIALIZE: u64 = 1;
pub const TAG_DROP: u64 = 2;
pub const TAG_PEER_CLOSED: u64 = 3;
pub const TAG_DATA: u64 = 4;
pub const TAG_PLAYER_MSG: u64 = 5;
pub const TAG_HOST_BATCH: u64 = 6;
pub const TAG_TURN: u64 = 7;
pub const TAG_TICK: u64 = 8;
pub const TAG_DROP_PLAYER: u64 = 9;
pub const TAG_CLOSE: u64 = 10;
pub const TAG_CLIENT_KICKED: u64 = 11;
pub const TAG_REGISTER_GAME: u64 = 12;
pub const TAG_PLAYER_UUIDS: u64 = 13;
pub const TAG_REGISTER_ENDPOINT: u64 = 14;
pub const TAG_SPAWN_PLAYER: u64 = 15;
pub const TAG_ACCEPTED: u64 = 16;
pub const TAG_STATE_REQUEST: u64 = 17;
pub const TAG_STATE_RESPONSE: u64 = 18;
pub const TAG_KILL_REQUEST: u64 = 19;
pub const TAG_KILL_ACK: u64 = 20;
pub const TAG_FINAL_STATE: u64 = 21;

/// A payload: one of the logical message kinds of the runtime.
#[derive(Clone, PartialEq, Eq, Debug)]
pub enum Payload {
    /// First internal message every reactor receives.
    Initialize,
    /// Last internal message a closing reactor receives.
    Drop,
    /// A closer callback's notice that the link to the carried peer closed.
    PeerClosed(ReactorID),
    /// Game traffic.
    Data(Data),
    /// One player's turn contribution.
    Player(PlayerMsg),
    /// A host-message batch on its way to the step-lock.
    HostBatch(Vec<HostMsg>),
    /// A completed turn on its way to the match reactor.
    Turn(Vec<PlayerMsg>),
    /// The step-lock's deadline fired.
    Tick,
    /// Order to the step-lock to stop expecting the carried player.
    DropPlayer(PlayerId),
    /// Order to a session to shut down.
    Close(Close),
    /// Notice to the host that the carried player was kicked.
    ClientKicked(PlayerId),
    /// Match announcement to the client manager.
    RegisterGame(RegisterGame),
    /// Token list back to the game supervisor.
    PlayerUUIDs(PlayerUUIDs),
    /// Endpoint announcement to the client manager.
    RegisterEndpoint(RegisterEndpoint),
    /// A session asking to be bound to a token's controller.
    SpawnPlayer(SpawnPlayer),
    /// Acknowledgement that a session was bound.
    Accepted(Accepted),
    /// A state request carrying its correlation number.
    StateRequest(u64),
    /// The match reactor's state reply.
    StateResponse(u64, String),
    /// A kill request carrying its correlation number.
    KillRequest(u64),
    /// The match reactor's kill acknowledgement.
    KillAck(u64),
    /// The final state a finished match publishes.
    FinalState(String),
}

/// The type tag of a payload kind.
pub open spec fn tag_of(p: Payload) -> u64 {
    match p {
        Payload::Initialize => TAG_INITIALIZE,
        Payload::Drop => TAG_DROP,
        Payload::PeerClosed(..) => TAG_PEER_CLOSED,
        Payload::Data(..) => TAG_DATA,
        Payload::Player(..) => TAG_PLAYER_MSG,
        Payload::HostBatch(..) => TAG_HOST_BATCH,
        Payload::Turn(..) => TAG_TURN,
        Payload::Tick => TAG_TICK,
        Payload::DropPlayer(..) => TAG_DROP_PLAYER,
        Payload::Close(..) => TAG_CLOSE,
        Payload::ClientKicked(..) => TAG_CLIENT_KICKED,
        Payload::RegisterGame(..) => TAG_REGISTER_GAME,
        Payload::PlayerUUIDs(..) => TAG_PLAYER_UUIDS,
        Payload::RegisterEndpoint(..) => TAG_REGISTER_ENDPOINT,
        Payload::SpawnPlayer(..) => TAG_SPAWN_PLAYER,
        Payload::Accepted(..) => TAG_ACCEPTED,
        Payload::StateRequest(..) => TAG_STATE_REQUEST,
        Payload::StateResponse(..) => TAG_STATE_RESPONSE,
        Payload::KillRequest(..) => TAG_KILL_REQUEST,
        Payload::KillAck(..) => TAG_KILL_ACK,
        Payload::FinalState(..) => TAG_FINAL_STATE,
    }
}

/// What recovering a payload under `want` returns, given the recorded tag
/// and the stored content.
pub open spec fn take_result(
    recorded: u64,
    content: Option<Payload>,
    want: u64,
) -> Result<Payload, TakeError> {
    match content {
        Option::None => Result::Err(TakeError::Empty),
        Option::Some(p) => if want == recorded {
            Result::Ok(p)
        } else {
            Result::Err(TakeError::TagMismatch)
        },
    }
}

/// What stays in the container after recovering a payload under `want`.
pub open spec fn take_remainder(
    recorded: u64,
    content: Option<Payload>,
    want: u64,
) -> Option<Payload> {
    match content {
        Option::None => Option::None,
        Option::Some(p) => if want == recorded {
            Option::None
        } else {
            Option::Some(p)
        },
    }
}

/// Why a payload could not be recovered from a message.
#[derive(Clone, Copy, PartialEq, Eq, Structural, Debug)]
pub enum TakeError {
    /// The recorded tag is not the requested one.
    TagMismatch,
    /// The payload was already taken.
    Empty,
}

/// The type-erased message container.
#[derive(Debug)]
pub struct Message {
    tag: u64,
    content: Option<Payload>,
}

impl Message {
    /// The recorded type tag, as a specification value.
    pub closed spec fn spec_tag(&self) -> u64 {
        self.tag
    }

    /// The stored payload, if it was not taken yet.
    pub closed spec fn content(&self) -> Option<Payload> {
        self.content
    }

    /// The recorded tag fits the stored payload.
    pub open spec fn wf(&self) -> bool {
        self.content() matches Some(p) ==> self.spec_tag() == tag_of(p)
    }

    /// The message that `wrap` builds from a payload.
    pub closed spec fn wrap_spec(p: Payload) -> Message {
        Message { tag: tag_of(p), content: Some(p) }
    }

    /// Consume a payload, recording its type tag.
    pub fn wrap(p: Payload) -> (m: Message)
        ensures
            m == Message::wrap_spec(p),
            m.spec_tag() == tag_of(p),
            m.content() == Some(p),
            m.wf(),
    {
        let tag = Self::tag_for(&p);
        Message { tag, content: Some(p) }
    }

    /// The recorded type tag.
    pub fn tag(&self) -> (t: u64)
        ensures
            t == self.spec_tag(),
    {
        self.tag
    }

    /// Recover the payload under the tag `want`. Fails closed with
    /// `TagMismatch` when the recorded tag differs, and with `Empty` when
    /// the payload was already taken; on success the container is left
    /// empty.
    pub fn take_as(&mut self, want: u64) -> (r: Result<Payload, TakeError>)
        ensures
            r == take_result(old(self).spec_tag(), old(self).content(), want),
            final(self).content() == take_remainder(old(self).spec_tag(), old(self).content(), want),
            final(self).spec_tag() == old(self).spec_tag(),
            old(self).wf() ==> final(self).wf(),
    {
        if self.content.is_some() {
            if want == self.tag {
                match self.content.take() {
                    Some(p) => Ok(p),
                    None => Err(TakeError::Empty),
                }
            } else {
                Err(TakeError::TagMismatch)
            }
        } else {
            Err(TakeError::Empty)
        }
    }

    /// Borrow the payload under the tag `want`, failing closed like
    /// `take_as` but leaving the container as it is.
    pub fn borrow_as(&self, want: u64) -> (r: Result<&Payload, TakeError>)
        ensures
            match r {
                Result::Ok(p) => take_result(self.spec_tag(), self.content(), want)
                    == Result::<Payload, TakeError>::Ok(*p),
                Result::Err(e) => take_result(self.spec_tag(), self.content(), want)
                    == Result::<Payload, TakeError>::Err(e),
            },
    {
        match &self.content {
            Some(p) => if want == self.tag {
                Ok(p)
            } else {
                Err(TakeError::TagMismatch)
            },
            None => Err(TakeError::Empty),
        }
    }

    /// The type tag of a payload kind.
    pub fn tag_for(p: &Payload) -> (t: u64)
        ensures
            t == tag_of(*p),
    {
        match p {
            Payload::Initialize => TAG_INITIALIZE,
            Payload::Drop => TAG_DROP,
            Payload::PeerClosed(..) => TAG_PEER_CLOSED,
            Payload::Data(..) => TAG_DATA,
            Payload::Player(..) => TAG_PLAYER_MSG,
            Payload::HostBatch(..) => TAG_HOST_BATCH,
            Payload::Turn(..) => TAG_TURN,
            Payload::Tick => TAG_TICK,
            Payload::DropPlayer(..) => TAG_DROP_PLAYER,
            Payload::Close(..) => TAG_CLOSE,
            Payload::ClientKicked(..) => TAG_CLIENT_KICKED,
            Payload::RegisterGame(..) => TAG_REGISTER_GAME,
            Payload::PlayerUUIDs(..) => TAG_PLAYER_UUIDS,
            Payload::RegisterEndpoint(..) => TAG_REGISTER_ENDPOINT,
            Payload::SpawnPlayer(..) => TAG_SPAWN_PLAYER,
            Payload::Accepted(..) => TAG_ACCEPTED,
            Payload::StateRequest(..) => TAG_STATE_REQUEST,
            Payload::StateResponse(..) => TAG_STATE_RESPONSE,
            Payload::KillRequest(..) => TAG_KILL_REQUEST,
            Payload::KillAck(..) => TAG_KILL_ACK,
            Payload::FinalState(..) => TAG_FINAL_STATE,
        }
    }
}

/// What `wrap` records: the payload itself under the payload's own tag.
pub broadcast proof fn lemma_wrap_spec_content(p: Payload)
    ensures
        (#[trigger] Message::wrap_spec(p)).content() == Some(p),
        Message::wrap_spec(p).spec_tag() == tag_of(p),
        Message::wrap_spec(p).wf(),
{
}

/// Wrapping a payload and taking it under its own tag yields the payload
/// back and leaves the container empty; a second take reports `Empty`.
pub proof fn lemma_wrap_take_roundtrip(p: Payload)
    ensures
        take_result(tag_of(p), Some(p), tag_of(p)) == Result::<Payload, TakeError>::Ok(p),
        take_remainder(tag_of(p), Some(p), tag_of(p)) is None,
        take_result(tag_of(p), take_remainder(tag_of(p), Some(p), tag_of(p)), tag_of(p))
            == Result::<Payload, TakeError>::Err(TakeError::Empty),
{
}

} // verus!
