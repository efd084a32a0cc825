//! The game supervisor: accepts build, state and kill requests from the
//! control plane and tracks the set of in-flight matches.
//!
//! Each request carries a fresh correlation number. The supervisor keeps
//! the outstanding correlations and, per match number, the match reactor
//! to forward to. Every reply consumes its correlation entry; a stray
//! reply is discarded. An unknown match number is answered with an empty
//! state or kill reply at once. When a match ends on its own, its final
//! value is kept until one state query reads it; a killed match reads as
//! gone at once.

use vstd::prelude::*;

use crate::broker::{self, Broker};
use crate::handles::Envelope;
use crate::ids::ReactorID;
use crate::message::{Message, Payload};
use crate::net::RegisterGame;
use crate::types::PlayerId;

verus! {

broadcast use crate::message::lemma_wrap_spec_content;

/// The control plane's view of one finished operation.
#[derive(Clone, PartialEq, Eq, Debug)]
pub enum GameOpRes {
    /// The match was built under the carried number, or could not be.
    Built(Option<u64>),
    /// The match's current state, or nothing for a match that is gone.
    State(Option<String>),
    /// The kill was acknowledged, or the match was gone.
    Kill(Option<()>),
}

/// Whether a correlation number is outstanding.
pub open spec fn has_corr(s: Seq<u64>, corr: u64) -> bool
    decreases s.len(),
{
    if s.len() == 0 {
        false
    } else {
        s[0] == corr || has_corr(s.drop_first(), corr)
    }
}

/// The outstanding correlations with the first occurrence of `corr`
/// removed.
pub open spec fn without_corr(s: Seq<u64>, corr: u64) -> Seq<u64>
    decreases s.len(),
{
    if s.len() == 0 {
        s
    } else if s[0] == corr {
        s.drop_first()
    } else {
        seq![s[0]] + without_corr(s.drop_first(), corr)
    }
}

/// The match reactor recorded for a match number, if any; a later record
/// for the same number shadows an earlier one.
pub open spec fn lookup_game(s: Seq<(u64, ReactorID)>, game: u64) -> Option<ReactorID>
    decreases s.len(),
{
    if s.len() == 0 {
        Option::None
    } else if s[0].0 == game {
        Option::Some(s[0].1)
    } else {
        lookup_game(s.drop_first(), game)
    }
}

/// The match number hosted by the given reactor, if any.
pub open spec fn game_of_host(s: Seq<(u64, ReactorID)>, host: ReactorID) -> Option<u64>
    decreases s.len(),
{
    if s.len() == 0 {
        Option::None
    } else if s[0].1 == host {
        Option::Some(s[0].0)
    } else {
        game_of_host(s.drop_first(), host)
    }
}

/// The final value recorded for a finished match, if any; a later record
/// shadows an earlier one.
pub open spec fn lookup_finished(s: Seq<(u64, String)>, game: u64) -> Option<String>
    decreases s.len(),
{
    if s.len() == 0 {
        Option::None
    } else if s[0].0 == game {
        Option::Some(s[0].1)
    } else {
        lookup_finished(s.drop_first(), game)
    }
}

/// The record with every entry of the match removed.
pub open spec fn without_finished(s: Seq<(u64, String)>, game: u64) -> Seq<(u64, String)>
    decreases s.len(),
{
    if s.len() == 0 {
        s
    } else if s[0].0 == game {
        without_finished(s.drop_first(), game)
    } else {
        seq![s[0]] + without_finished(s.drop_first(), game)
    }
}

/// The game supervisor's state.
#[derive(Debug)]
pub struct GameManager {
    games: Vec<(u64, ReactorID)>,
    requests: Vec<u64>,
    finished: Vec<(u64, String)>,
    id: ReactorID,
    cm_id: ReactorID,
}

impl GameManager {
    /// The recorded matches, as a specification value.
    pub closed spec fn spec_games(&self) -> Seq<(u64, ReactorID)> {
        self.games@
    }

    /// The outstanding correlations, as a specification value.
    pub closed spec fn spec_requests(&self) -> Seq<u64> {
        self.requests@
    }

    /// The final values of finished matches whose state was not read yet,
    /// as a specification value.
    pub closed spec fn spec_finished(&self) -> Seq<(u64, String)> {
        self.finished@
    }

    /// The supervisor's own identifier, as a specification value.
    pub closed spec fn spec_id(&self) -> ReactorID {
        self.id
    }

    /// The client manager's identifier, as a specification value.
    pub closed spec fn spec_cm_id(&self) -> ReactorID {
        self.cm_id
    }

    /// A supervisor with no matches and no outstanding requests.
    pub fn new(id: ReactorID, cm_id: ReactorID) -> (r: GameManager)
        ensures
            r.spec_games() == Seq::<(u64, ReactorID)>::empty(),
            r.spec_requests() == Seq::<u64>::empty(),
            r.spec_finished() == Seq::<(u64, String)>::empty(),
            r.spec_id() == id,
            r.spec_cm_id() == cm_id,
    {
        GameManager {
            games: Vec::new(),
            requests: Vec::new(),
            finished: Vec::new(),
            id,
            cm_id,
        }
    }

    /// Note a fresh correlation number whose reply is now owed.
    pub fn new_request(&mut self, corr: u64)
        ensures
            final(self).spec_requests() == old(self).spec_requests().push(corr),
            final(self).spec_games() == old(self).spec_games(),
            final(self).spec_finished() == old(self).spec_finished(),
            final(self).spec_id() == old(self).spec_id(),
            final(self).spec_cm_id() == old(self).spec_cm_id(),
    {
        self.requests.push(corr);
    }

    /// Consume the correlation entry for `corr` and hand the reply out;
    /// a reply nobody is waiting for is discarded.
    pub fn send_msg(&mut self, corr: u64, res: GameOpRes) -> (r: Option<GameOpRes>)
        ensures
            final(self).spec_games() == old(self).spec_games(),
            final(self).spec_finished() == old(self).spec_finished(),
            final(self).spec_id() == old(self).spec_id(),
            final(self).spec_cm_id() == old(self).spec_cm_id(),
            has_corr(old(self).spec_requests(), corr) ==> (r == Some(res) && final(self).spec_requests() == without_corr(old(self).spec_requests(), corr)),
            !has_corr(old(self).spec_requests(), corr) ==> (r is None && final(self).spec_requests() == old(self).spec_requests()),
    {
        let ghost orig = self.requests@;
        let mut i: usize = 0;
        proof {
            assert(orig.skip(0) =~= orig);
            assert(orig.take(0) + without_corr(orig.skip(0), corr) =~= without_corr(orig, corr));
        }
        while i < self.requests.len()
            invariant
                i <= self.requests@.len(),
                self.requests@ == orig,
                orig == old(self).spec_requests(),
                self.spec_games() == old(self).spec_games(),
                self.spec_finished() == old(self).spec_finished(),
                self.spec_id() == old(self).spec_id(),
                self.spec_cm_id() == old(self).spec_cm_id(),
                forall|j: int| 0 <= j < i ==> #[trigger] orig[j] != corr,
                has_corr(orig, corr) == has_corr(orig.skip(i as int), corr),
                without_corr(orig, corr) == orig.take(i as int) + without_corr(
                    orig.skip(i as int),
                    corr,
                ),
            decreases self.requests@.len() - i,
        {
            proof {
                assert(orig.skip(i as int)[0] == orig[i as int]);
                assert(orig.skip(i as int).drop_first() =~= orig.skip(i as int + 1));
            }
            if self.requests[i] == corr {
                self.requests.remove(i);
                proof {
                    assert(without_corr(orig.skip(i as int), corr) == orig.skip(i as int + 1));
                    assert(self.requests@ =~= orig.take(i as int) + orig.skip(i as int + 1));
                }
                return Some(res);
            }
            proof {
                assert(orig.take(i as int).push(orig[i as int]) =~= orig.take(i as int + 1));
                assert(seq![orig.skip(i as int)[0]] + without_corr(
                    orig.skip(i as int).drop_first(),
                    corr,
                ) == without_corr(orig.skip(i as int), corr));
                assert(orig.take(i as int) + (seq![orig[i as int]] + without_corr(
                    orig.skip(i as int + 1),
                    corr,
                )) =~= orig.take(i as int + 1) + without_corr(orig.skip(i as int + 1), corr));
            }
            i = i + 1;
        }
        proof {
            assert(orig.skip(i as int) =~= Seq::<u64>::empty());
        }
        None
    }

    /// A build request was carried out: record the freshly built match
    /// under a newly drawn match number, announce it — with the match
    /// number and the player-to-controller pairs — to the client manager,
    /// and answer `Built` with the number. The reply consumes the
    /// correlation entry.
    pub fn handle_gamebuilder(
        &mut self,
        broker: &mut Broker,
        corr: u64,
        game_id: ReactorID,
        players: Vec<(PlayerId, ReactorID)>,
    ) -> (r: Option<GameOpRes>)
        ensures
            final(self).spec_id() == old(self).spec_id(),
            final(self).spec_cm_id() == old(self).spec_cm_id(),
            final(self).spec_finished() == old(self).spec_finished(),
            final(broker).spec_runtime_id() == old(broker).spec_runtime_id(),
            forall|x: ReactorID| #[trigger] broker::has_actor(final(broker).spec_actors(), x)
                == broker::has_actor(old(broker).spec_actors(), x),
            forall|x: ReactorID| x != old(self).spec_cm_id() ==> #[trigger] final(broker).mailbox(
                x,
            ) == old(broker).mailbox(x),
            ({
                let g = spec_minted_game(final(self).spec_games());
                let announcement = Envelope {
                    from: old(self).spec_id(),
                    to: old(self).spec_cm_id(),
                    msg: Message::wrap_spec(
                        Payload::RegisterGame(RegisterGame { game: g, players }),
                    ),
                };
                let deliverable = old(self).spec_cm_id() != old(broker).spec_runtime_id() && old(broker).registered(old(self).spec_cm_id());
                &&& final(self).spec_games() == old(self).spec_games().insert(
                    0,
                    (g, game_id),
                )
                &&& lookup_game(final(self).spec_games(), g) == Some(game_id)
                &&& deliverable ==> final(broker).mailbox(old(self).spec_cm_id()) == old(broker).mailbox(old(self).spec_cm_id()).push(announcement)
                &&& !deliverable ==> final(broker).spec_actors() == old(broker).spec_actors()
                &&& has_corr(old(self).spec_requests(), corr) ==> (r == Some(
                    GameOpRes::Built(Some(g)),
                ) && final(self).spec_requests() == without_corr(old(self).spec_requests(), corr))
                &&& !has_corr(old(self).spec_requests(), corr) ==> (r is None && final(self).spec_requests() == old(self).spec_requests())
            }),
    {
        let game_uuid = crate::rng::random_u64();
        let ghost players_g = players;
        let reg = RegisterGame { game: game_uuid, players };
        let env = Envelope {
            from: self.id,
            to: self.cm_id,
            msg: Message::wrap(Payload::RegisterGame(reg)),
        };
        let ghost pre = broker.spec_actors();
        let ghost env_g = Envelope {
            from: self.id,
            to: self.cm_id,
            msg: Message::wrap_spec(
                Payload::RegisterGame(RegisterGame { game: game_uuid, players: players_g }),
            ),
        };
        let _ = broker.dispatch(env);
        proof {
            broker::lemma_with_mailbox_preserves(
                pre,
                self.cm_id,
                broker::mailbox_of(pre, self.cm_id).push(env_g),
            );
            if self.cm_id != broker.spec_runtime_id() && broker::has_actor(pre, self.cm_id) {
                crate::broker::lemma_with_mailbox_get(
                    pre,
                    self.cm_id,
                    broker::mailbox_of(pre, self.cm_id).push(
                        Envelope {
                            from: self.id,
                            to: self.cm_id,
                            msg: Message::wrap_spec(
                                Payload::RegisterGame(
                                    RegisterGame { game: game_uuid, players: players_g },
                                ),
                            ),
                        },
                    ),
                );
            }
        }
        self.games.insert(0, (game_uuid, game_id));
        proof {
            assert(self.spec_games()[0] == (game_uuid, game_id));
        }
        self.send_msg(corr, GameOpRes::Built(Some(game_uuid)))
    }

    /// A state request: forward it, with its correlation number, to the
    /// match reactor. A match that ended on its own answers its recorded
    /// final value — once; the record is consumed by the read. An unknown
    /// match number, or one whose reactor is gone, is answered
    /// `State(None)` at once; otherwise the reply waits for the match's
    /// response.
    pub fn handle_state(&mut self, broker: &mut Broker, corr: u64, game: u64) -> (r: Option<
        GameOpRes,
    >)
        ensures
            final(self).spec_id() == old(self).spec_id(),
            final(self).spec_cm_id() == old(self).spec_cm_id(),
            final(self).spec_games() == old(self).spec_games(),
            final(broker).spec_runtime_id() == old(broker).spec_runtime_id(),
            forall|x: ReactorID| #[trigger] broker::has_actor(final(broker).spec_actors(), x)
                == broker::has_actor(old(broker).spec_actors(), x),
            forall|x: ReactorID| lookup_game(old(self).spec_games(), game) != Some(x)
                ==> #[trigger] final(broker).mailbox(x) == old(broker).mailbox(x),
            (lookup_finished(old(self).spec_finished(), game) matches Some(v) ==> (
                final(self).spec_finished() == without_finished(old(self).spec_finished(), game)
                && final(broker).spec_actors() == old(broker).spec_actors()
                && (has_corr(old(self).spec_requests(), corr) ==> (r == Some(
                    GameOpRes::State(Some(v)),
                ) && final(self).spec_requests() == without_corr(old(self).spec_requests(), corr)))
                && (!has_corr(old(self).spec_requests(), corr) ==> (r is None
                    && final(self).spec_requests() == old(self).spec_requests())))),
            lookup_finished(old(self).spec_finished(), game) is None ==> (final(self).spec_finished() == old(self).spec_finished() && ({
                let target = lookup_game(old(self).spec_games(), game);
                let deliverable = (target matches Some(gid) && gid != old(broker).spec_runtime_id() && old(broker).registered(gid));
                &&& deliverable ==> (r is None && final(self).spec_requests() == old(self).spec_requests() && (target matches Some(gid) && final(broker).mailbox(gid)
                    == old(broker).mailbox(gid).push(
                    Envelope {
                        from: old(self).spec_id(),
                        to: gid,
                        msg: Message::wrap_spec(Payload::StateRequest(corr)),
                    },
                )))
                &&& !deliverable && has_corr(old(self).spec_requests(), corr) ==> (r == Some(
                    GameOpRes::State(None),
                ) && final(self).spec_requests() == without_corr(old(self).spec_requests(), corr)
                    && final(broker).spec_actors() == old(broker).spec_actors())
                &&& !deliverable && !has_corr(old(self).spec_requests(), corr) ==> (r is None
                    && final(self).spec_requests() == old(self).spec_requests() && final(broker).spec_actors() == old(broker).spec_actors())
            })),
    {
        match self.take_finished(game) {
            Some(v) => {
                return self.send_msg(corr, GameOpRes::State(Some(v)));
            },
            None => {},
        }
        match self.lookup(game) {
            Some(gid) => {
                let env = Envelope {
                    from: self.id,
                    to: gid,
                    msg: Message::wrap(Payload::StateRequest(corr)),
                };
                match broker.dispatch(env) {
                    Ok(()) => {
                        proof {
                            crate::broker::lemma_with_mailbox_get(
                                old(broker).spec_actors(),
                                gid,
                                old(broker).mailbox(gid).push(
                                    Envelope {
                                        from: old(self).spec_id(),
                                        to: gid,
                                        msg: Message::wrap_spec(Payload::StateRequest(corr)),
                                    },
                                ),
                            );
                            broker::lemma_with_mailbox_preserves(
                                old(broker).spec_actors(),
                                gid,
                                old(broker).mailbox(gid).push(
                                    Envelope {
                                        from: old(self).spec_id(),
                                        to: gid,
                                        msg: Message::wrap_spec(Payload::StateRequest(corr)),
                                    },
                                ),
                            );
                        }
                        None
                    },
                    Err(..) => self.send_msg(corr, GameOpRes::State(None)),
                }
            },
            None => self.send_msg(corr, GameOpRes::State(None)),
        }
    }

    /// Take a finished match's recorded final value, consuming it.
    fn take_finished(&mut self, game: u64) -> (r: Option<String>)
        ensures
            final(self).spec_games() == old(self).spec_games(),
            final(self).spec_requests() == old(self).spec_requests(),
            final(self).spec_id() == old(self).spec_id(),
            final(self).spec_cm_id() == old(self).spec_cm_id(),
            r == lookup_finished(old(self).spec_finished(), game),
            r is Some ==> final(self).spec_finished() == without_finished(
                old(self).spec_finished(),
                game,
            ),
            r is None ==> final(self).spec_finished() == old(self).spec_finished(),
    {
        let ghost orig = self.finished@;
        let mut found: Option<String> = None;
        let mut kept: Vec<(u64, String)> = Vec::new();
        let mut i: usize = 0;
        proof {
            assert(orig.skip(0) =~= orig);
            assert(kept@ + without_finished(orig.skip(0), game) =~= without_finished(orig, game));
        }
        while i < self.finished.len()
            invariant
                i <= self.finished@.len(),
                self.finished@ == orig,
                orig == old(self).spec_finished(),
                self.spec_games() == old(self).spec_games(),
                self.spec_requests() == old(self).spec_requests(),
                self.spec_id() == old(self).spec_id(),
                self.spec_cm_id() == old(self).spec_cm_id(),
                kept@ + without_finished(orig.skip(i as int), game) == without_finished(
                    orig,
                    game,
                ),
                found is None ==> lookup_finished(orig, game) == lookup_finished(
                    orig.skip(i as int),
                    game,
                ),
                (found matches Some(v) ==> lookup_finished(orig, game) == Some(v)),
            decreases self.finished@.len() - i,
        {
            proof {
                assert(orig.skip(i as int)[0] == orig[i as int]);
                assert(orig.skip(i as int).drop_first() =~= orig.skip(i as int + 1));
            }
            let g = self.finished[i].0;
            let v = self.finished[i].1.clone();
            proof {
                assert((g, v) == orig[i as int]);
            }
            if g == game {
                if found.is_none() {
                    found = Some(v);
                }
            } else {
                kept.push((g, v));
                proof {
                    assert(kept@ + without_finished(orig.skip(i as int + 1), game)
                        =~= without_finished(orig, game));
                }
            }
            i = i + 1;
        }
        proof {
            assert(orig.skip(i as int) =~= Seq::<(u64, String)>::empty());
            assert(kept@ =~= kept@ + without_finished(orig.skip(i as int), game));
        }
        match found {
            Some(v) => {
                self.finished = kept;
                Some(v)
            },
            None => None,
        }
    }

    /// A kill request: forward it, with its correlation number, to the
    /// match reactor. An unknown match number, or one whose reactor is
    /// gone, is answered `Kill(None)` at once; otherwise the reply waits
    /// for the match's acknowledgement.
    pub fn handle_kill(&mut self, broker: &mut Broker, corr: u64, game: u64) -> (r: Option<
        GameOpRes,
    >)
        ensures
            final(self).spec_id() == old(self).spec_id(),
            final(self).spec_cm_id() == old(self).spec_cm_id(),
            final(self).spec_games() == old(self).spec_games(),
            final(self).spec_finished() == old(self).spec_finished(),
            final(broker).spec_runtime_id() == old(broker).spec_runtime_id(),
            forall|x: ReactorID| #[trigger] broker::has_actor(final(broker).spec_actors(), x)
                == broker::has_actor(old(broker).spec_actors(), x),
            forall|x: ReactorID| lookup_game(old(self).spec_games(), game) != Some(x)
                ==> #[trigger] final(broker).mailbox(x) == old(broker).mailbox(x),
            ({
                let target = lookup_game(old(self).spec_games(), game);
                let deliverable = (target matches Some(gid) && gid != old(broker).spec_runtime_id() && old(broker).registered(gid));
                &&& deliverable ==> (r is None && final(self).spec_requests() == old(self).spec_requests() && (target matches Some(gid) && final(broker).mailbox(gid)
                    == old(broker).mailbox(gid).push(
                    Envelope {
                        from: old(self).spec_id(),
                        to: gid,
                        msg: Message::wrap_spec(Payload::KillRequest(corr)),
                    },
                )))
                &&& !deliverable && has_corr(old(self).spec_requests(), corr) ==> (r == Some(
                    GameOpRes::Kill(None),
                ) && final(self).spec_requests() == without_corr(old(self).spec_requests(), corr)
                    && final(broker).spec_actors() == old(broker).spec_actors())
                &&& !deliverable && !has_corr(old(self).spec_requests(), corr) ==> (r is None
                    && final(self).spec_requests() == old(self).spec_requests() && final(broker).spec_actors() == old(broker).spec_actors())
            }),
    {
        match self.lookup(game) {
            Some(gid) => {
                let env = Envelope {
                    from: self.id,
                    to: gid,
                    msg: Message::wrap(Payload::KillRequest(corr)),
                };
                match broker.dispatch(env) {
                    Ok(()) => {
                        proof {
                            crate::broker::lemma_with_mailbox_get(
                                old(broker).spec_actors(),
                                gid,
                                old(broker).mailbox(gid).push(
                                    Envelope {
                                        from: old(self).spec_id(),
                                        to: gid,
                                        msg: Message::wrap_spec(Payload::KillRequest(corr)),
                                    },
                                ),
                            );
                            broker::lemma_with_mailbox_preserves(
                                old(broker).spec_actors(),
                                gid,
                                old(broker).mailbox(gid).push(
                                    Envelope {
                                        from: old(self).spec_id(),
                                        to: gid,
                                        msg: Message::wrap_spec(Payload::KillRequest(corr)),
                                    },
                                ),
                            );
                        }
                        None
                    },
                    Err(..) => self.send_msg(corr, GameOpRes::Kill(None)),
                }
            },
            None => self.send_msg(corr, GameOpRes::Kill(None)),
        }
    }

    /// A message came back over the supervisor's own mailbox, from the
    /// reactor `from`: a state response or a kill acknowledgement answers
    /// its correlation's request; a finished match's final value is
    /// recorded under the sender's match number, to be read by one state
    /// query — a kill acknowledgement erases it again, so a killed match
    /// reads as gone; a token list is noted and dropped, and anything
    /// else is discarded.
    pub fn handle_response(&mut self, from: ReactorID, mut msg: Message) -> (r: Option<GameOpRes>)
        ensures
            final(self).spec_id() == old(self).spec_id(),
            final(self).spec_cm_id() == old(self).spec_cm_id(),
            final(self).spec_games() == old(self).spec_games(),
            msg.content() matches Some(Payload::StateResponse(corr, v)) ==> (msg.wf()
                ==> ({
                &&& final(self).spec_finished() == old(self).spec_finished()
                &&& has_corr(old(self).spec_requests(), corr) ==> (r == Some(
                    GameOpRes::State(Some(v)),
                ) && final(self).spec_requests() == without_corr(old(self).spec_requests(), corr))
                &&& !has_corr(old(self).spec_requests(), corr) ==> (r is None && final(self).spec_requests() == old(self).spec_requests())
            })),
            msg.content() matches Some(Payload::KillAck(corr)) ==> (msg.wf() ==> ({
                &&& final(self).spec_finished() == (match game_of_host(
                    old(self).spec_games(),
                    from,
                ) {
                    Option::Some(g) => without_finished(old(self).spec_finished(), g),
                    Option::None => old(self).spec_finished(),
                })
                &&& has_corr(old(self).spec_requests(), corr) ==> (r == Some(
                    GameOpRes::Kill(Some(())),
                ) && final(self).spec_requests() == without_corr(old(self).spec_requests(), corr))
                &&& !has_corr(old(self).spec_requests(), corr) ==> (r is None && final(self).spec_requests() == old(self).spec_requests())
            })),
            msg.content() matches Some(Payload::FinalState(v)) ==> (msg.wf() ==> (r is None
                && final(self).spec_requests() == old(self).spec_requests()
                && final(self).spec_finished() == (match game_of_host(
                old(self).spec_games(),
                from,
            ) {
                Option::Some(g) => old(self).spec_finished().insert(0, (g, v)),
                Option::None => old(self).spec_finished(),
            }))),
            !(msg.content() matches Some(Payload::StateResponse(..)) || msg.content()
                matches Some(Payload::KillAck(..))) ==> (r is None && final(self).spec_requests()
                == old(self).spec_requests()),
            !(msg.content() matches Some(Payload::KillAck(..)) || msg.content()
                matches Some(Payload::FinalState(..))) ==> final(self).spec_finished() == old(self).spec_finished(),
    {
        let tag = msg.tag();
        if tag == crate::message::TAG_STATE_RESPONSE {
            match msg.take_as(crate::message::TAG_STATE_RESPONSE) {
                Ok(Payload::StateResponse(corr, v)) => self.send_msg(
                    corr,
                    GameOpRes::State(Some(v)),
                ),
                _ => None,
            }
        } else if tag == crate::message::TAG_KILL_ACK {
            match msg.take_as(crate::message::TAG_KILL_ACK) {
                Ok(Payload::KillAck(corr)) => {
                    match self.hosted_game(from) {
                        Some(g) => {
                            self.erase_finished(g);
                        },
                        None => {},
                    }
                    self.send_msg(corr, GameOpRes::Kill(Some(())))
                },
                _ => None,
            }
        } else if tag == crate::message::TAG_FINAL_STATE {
            match msg.take_as(crate::message::TAG_FINAL_STATE) {
                Ok(Payload::FinalState(v)) => {
                    match self.hosted_game(from) {
                        Some(g) => {
                            self.finished.insert(0, (g, v));
                        },
                        None => {},
                    }
                    None
                },
                _ => None,
            }
        } else {
            None
        }
    }

    /// Find the match number the given reactor hosts.
    fn hosted_game(&self, host: ReactorID) -> (r: Option<u64>)
        ensures
            r == game_of_host(self.spec_games(), host),
    {
        let mut i: usize = 0;
        proof {
            assert(self.games@.skip(0) =~= self.games@);
        }
        while i < self.games.len()
            invariant
                i <= self.games@.len(),
                game_of_host(self.games@, host) == game_of_host(
                    self.games@.skip(i as int),
                    host,
                ),
            decreases self.games@.len() - i,
        {
            proof {
                assert(self.games@.skip(i as int)[0] == self.games@[i as int]);
                assert(self.games@.skip(i as int).drop_first() =~= self.games@.skip(i as int + 1));
            }
            if self.games[i].1 == host {
                return Some(self.games[i].0);
            }
            i = i + 1;
        }
        proof {
            assert(self.games@.skip(i as int) =~= Seq::<(u64, ReactorID)>::empty());
        }
        None
    }

    /// Forget a finished match's recorded final value.
    fn erase_finished(&mut self, game: u64)
        ensures
            final(self).spec_games() == old(self).spec_games(),
            final(self).spec_requests() == old(self).spec_requests(),
            final(self).spec_id() == old(self).spec_id(),
            final(self).spec_cm_id() == old(self).spec_cm_id(),
            final(self).spec_finished() == without_finished(old(self).spec_finished(), game),
    {
        let ghost orig = self.finished@;
        let mut kept: Vec<(u64, String)> = Vec::new();
        let mut i: usize = 0;
        proof {
            assert(orig.skip(0) =~= orig);
            assert(kept@ + without_finished(orig.skip(0), game) =~= without_finished(orig, game));
        }
        while i < self.finished.len()
            invariant
                i <= self.finished@.len(),
                self.finished@ == orig,
                orig == old(self).spec_finished(),
                self.spec_games() == old(self).spec_games(),
                self.spec_requests() == old(self).spec_requests(),
                self.spec_id() == old(self).spec_id(),
                self.spec_cm_id() == old(self).spec_cm_id(),
                kept@ + without_finished(orig.skip(i as int), game) == without_finished(
                    orig,
                    game,
                ),
            decreases self.finished@.len() - i,
        {
            proof {
                assert(orig.skip(i as int)[0] == orig[i as int]);
                assert(orig.skip(i as int).drop_first() =~= orig.skip(i as int + 1));
            }
            let g = self.finished[i].0;
            let v = self.finished[i].1.clone();
            proof {
                assert((g, v) == orig[i as int]);
            }
            if g != game {
                kept.push((g, v));
                proof {
                    assert(kept@ + without_finished(orig.skip(i as int + 1), game)
                        =~= without_finished(orig, game));
                }
            }
            i = i + 1;
        }
        proof {
            assert(orig.skip(i as int) =~= Seq::<(u64, String)>::empty());
            assert(kept@ =~= kept@ + without_finished(orig.skip(i as int), game));
        }
        self.finished = kept;
    }

    /// Find the match reactor recorded for a match number.
    fn lookup(&self, game: u64) -> (r: Option<ReactorID>)
        ensures
            r == lookup_game(self.spec_games(), game),
    {
        let mut i: usize = 0;
        proof {
            assert(self.games@.skip(0) =~= self.games@);
        }
        while i < self.games.len()
            invariant
                i <= self.games@.len(),
                lookup_game(self.games@, game) == lookup_game(self.games@.skip(i as int), game),
            decreases self.games@.len() - i,
        {
            proof {
                assert(self.games@.skip(i as int)[0] == self.games@[i as int]);
                assert(self.games@.skip(i as int).drop_first() =~= self.games@.skip(i as int + 1));
            }
            if self.games[i].0 == game {
                return Some(self.games[i].1);
            }
            i = i + 1;
        }
        proof {
            assert(self.games@.skip(i as int) =~= Seq::<(u64, ReactorID)>::empty());
        }
        None
    }
}

/// The match number at the head of the table: the one the latest build
/// minted.
pub open spec fn spec_minted_game(games: Seq<(u64, ReactorID)>) -> u64
    recommends
        games.len() > 0,
{
    games[0].0
}

} // verus!
