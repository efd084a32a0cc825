//! The match reactor: owns the game controller and the turn loop.
//!
//! The host delegates fan-out and collection to the step-lock. Each turn
//! it hands the controller the collected batch, routes the controller's
//! outgoing messages — traffic into the next step-lock batch, kicks into a
//! drop order and a kick relay — and, when the controller declares the
//! game over, publishes the final state and tears its links down. State
//! and kill requests from the supervisor are answered with the carried
//! correlation number.

use vstd::prelude::*;

use crate::handles::{Effect, ReactorHandle, TargetReactor};
use crate::ids::ReactorID;
use crate::link::{LinkAction, LinkParams};
use crate::message::{Message, Payload, TAG_CLIENT_KICKED, TAG_CLOSE, TAG_DROP_PLAYER,
    TAG_FINAL_STATE, TAG_HOST_BATCH, TAG_KILL_ACK, TAG_KILL_REQUEST, TAG_STATE_REQUEST,
    TAG_STATE_RESPONSE, TAG_TURN};
use crate::types::{Close, HostMsg, PlayerId, PlayerMsg};

verus! {

broadcast use crate::message::lemma_wrap_spec_content;

/// A game controller: the user-supplied rules of one match. The host
/// calls `on_step` with each collected turn, `on_connect` and
/// `on_disconnect` when players come and go, `get_state` for a state
/// request, and `is_done` after every step; a controller that answers
/// `is_done` with a value ends the match with that value as its final
/// state.
pub trait Controller {
    /// Advance one turn; the batch carries one message per expected
    /// player, with no payload for those that never answered.
    fn on_step(&mut self, turn: Vec<PlayerMsg>) -> Vec<HostMsg>;

    /// A player's session attached.
    fn on_connect(&mut self, player: PlayerId) -> Vec<HostMsg>;

    /// A player's session detached.
    fn on_disconnect(&mut self, player: PlayerId) -> Vec<HostMsg>;

    /// The current state, as an opaque value.
    fn get_state(&mut self) -> String;

    /// The final value once the game is over.
    fn is_done(&mut self) -> Option<String>;
}

/// The parameters of the host's link to the step-lock: batches, drop
/// orders and kick relays pass through downward, completed turns are
/// republished to the host.
pub open spec fn is_host_lock_link_params(p: LinkParams) -> bool {
    p.spec_internal() == seq![
        (TAG_CLOSE, LinkAction::ToPeer),
        (TAG_CLIENT_KICKED, LinkAction::ToPeer),
        (TAG_DROP_PLAYER, LinkAction::ToPeer),
        (TAG_HOST_BATCH, LinkAction::ToPeer),
    ] && p.spec_external() == seq![(TAG_TURN, LinkAction::ToReactor(TargetReactor::Reactor))]
        && p.spec_closer() is None
}

/// The parameters of the host's link to the game supervisor: state
/// responses, kill acknowledgements and the final state pass through
/// upward, requests are republished to the host.
pub open spec fn is_host_gm_link_params(p: LinkParams) -> bool {
    p.spec_internal() == seq![
        (TAG_FINAL_STATE, LinkAction::ToPeer),
        (TAG_KILL_ACK, LinkAction::ToPeer),
        (TAG_STATE_RESPONSE, LinkAction::ToPeer),
    ] && p.spec_external() == seq![
        (TAG_KILL_REQUEST, LinkAction::ToReactor(TargetReactor::Reactor)),
        (TAG_STATE_REQUEST, LinkAction::ToReactor(TargetReactor::Reactor)),
    ] && p.spec_closer() is None
}

/// The routing of one controller output: traffic stays in the batch, a
/// kick becomes a drop order and a kick relay for its player.
pub open spec fn kick_effects(out: Seq<HostMsg>, step_lock: ReactorID) -> Seq<Effect>
    decreases out.len(),
{
    if out.len() == 0 {
        Seq::<Effect>::empty()
    } else {
        (match out[0] {
            HostMsg::Kick(p) => seq![
                Effect::Internal(
                    Message::wrap_spec(Payload::ClientKicked(p)),
                    TargetReactor::Link(step_lock),
                ),
                Effect::Internal(
                    Message::wrap_spec(Payload::DropPlayer(p)),
                    TargetReactor::Link(step_lock),
                ),
            ],
            HostMsg::Data(..) => Seq::<Effect>::empty(),
        }) + kick_effects(out.drop_first(), step_lock)
    }
}

/// Everything one routed step appends: the kicks' orders, the batch, and
/// — when the step ended the game — the final value and the teardown.
pub open spec fn step_effects(
    out: Vec<HostMsg>,
    final_value: Option<String>,
    step_lock: ReactorID,
    game_manager: ReactorID,
) -> Seq<Effect> {
    kick_effects(out@, step_lock) + seq![
        Effect::Internal(
            Message::wrap_spec(Payload::HostBatch(out)),
            TargetReactor::Link(step_lock),
        ),
    ] + (match final_value {
        Option::Some(v) => seq![
            Effect::Internal(
                Message::wrap_spec(Payload::FinalState(v)),
                TargetReactor::Link(game_manager),
            ),
            Effect::Internal(
                Message::wrap_spec(Payload::Close(Close {})),
                TargetReactor::Link(step_lock),
            ),
            Effect::CloseLink(step_lock),
            Effect::CloseLink(game_manager),
        ],
        Option::None => Seq::<Effect>::empty(),
    })
}

/// Routing one more output appends that output's own kick effects.
proof fn lemma_kick_effects_snoc(out: Seq<HostMsg>, m: HostMsg, step_lock: ReactorID)
    ensures
        kick_effects(out.push(m), step_lock) == kick_effects(out, step_lock) + kick_effects(
            seq![m],
            step_lock,
        ),
    decreases out.len(),
{
    if out.len() == 0 {
        assert(out.push(m)[0] == m);
        assert(out.push(m).drop_first() =~= Seq::<HostMsg>::empty());
        assert(seq![m][0] == m);
        assert(seq![m].drop_first() =~= Seq::<HostMsg>::empty());
        assert(kick_effects(out.push(m), step_lock) =~= kick_effects(out, step_lock)
            + kick_effects(seq![m], step_lock));
    } else {
        assert(out.push(m)[0] == out[0]);
        assert(out.push(m).drop_first() =~= out.drop_first().push(m));
        lemma_kick_effects_snoc(out.drop_first(), m, step_lock);
        assert(kick_effects(out.push(m), step_lock) =~= kick_effects(out, step_lock)
            + kick_effects(seq![m], step_lock));
    }
}

/// The match reactor.
#[derive(Debug)]
pub struct GameHost<C> {
    controller: C,
    step_lock: ReactorID,
    game_manager: ReactorID,
    done: bool,
}

impl<C: Controller> GameHost<C> {
    /// The step-lock's identifier, as a specification value.
    pub closed spec fn spec_step_lock(&self) -> ReactorID {
        self.step_lock
    }

    /// The supervisor's identifier, as a specification value.
    pub closed spec fn spec_game_manager(&self) -> ReactorID {
        self.game_manager
    }

    /// Whether the match has ended, as a specification value.
    pub closed spec fn spec_done(&self) -> bool {
        self.done
    }

    /// A running host for the given controller and match graph.
    pub fn new(controller: C, step_lock: ReactorID, game_manager: ReactorID) -> (r: GameHost<C>)
        ensures
            r.spec_step_lock() == step_lock,
            r.spec_game_manager() == game_manager,
            !r.spec_done(),
    {
        GameHost { controller, step_lock, game_manager, done: false }
    }

    /// On start-up the host opens its links to the step-lock and to the
    /// supervisor, then hands the step-lock an empty first batch so the
    /// turn loop begins with the lock collecting.
    pub fn handle_initialize(&self, handle: &mut ReactorHandle)
        ensures
            final(handle).spec_id() == old(handle).spec_id(),
            final(handle).effects@.len() == old(handle).effects@.len() + 3,
            final(handle).effects@.take(old(handle).effects@.len() as int) == old(handle).effects@,
            (final(handle).effects@[old(handle).effects@.len() as int]
                matches Effect::OpenLink(peer, p, auto) && peer == self.spec_step_lock()
                && is_host_lock_link_params(p) && !auto),
            (final(handle).effects@[old(handle).effects@.len() as int + 1]
                matches Effect::OpenLink(peer, p, auto) && peer == self.spec_game_manager()
                && is_host_gm_link_params(p) && !auto),
            (final(handle).effects@[old(handle).effects@.len() as int + 2]
                matches Effect::Internal(m, t) && m.spec_tag() == TAG_HOST_BATCH && (m.content()
                matches Some(Payload::HostBatch(b)) && b@ == Seq::<HostMsg>::empty()) && t
                == TargetReactor::Link(self.spec_step_lock())),
    {
        let mut lock_params = LinkParams::new();
        lock_params.internal_handler(TAG_HOST_BATCH, LinkAction::ToPeer);
        lock_params.internal_handler(TAG_DROP_PLAYER, LinkAction::ToPeer);
        lock_params.internal_handler(TAG_CLIENT_KICKED, LinkAction::ToPeer);
        lock_params.internal_handler(TAG_CLOSE, LinkAction::ToPeer);
        lock_params.external_handler(TAG_TURN, LinkAction::ToReactor(TargetReactor::Reactor));
        proof {
            assert(lock_params.spec_internal() =~= seq![
                (TAG_CLOSE, LinkAction::ToPeer),
                (TAG_CLIENT_KICKED, LinkAction::ToPeer),
                (TAG_DROP_PLAYER, LinkAction::ToPeer),
                (TAG_HOST_BATCH, LinkAction::ToPeer),
            ]);
            assert(lock_params.spec_external() =~= seq![
                (TAG_TURN, LinkAction::ToReactor(TargetReactor::Reactor)),
            ]);
        }
        handle.open_link(self.step_lock, lock_params, false);
        let mut gm_params = LinkParams::new();
        gm_params.internal_handler(TAG_STATE_RESPONSE, LinkAction::ToPeer);
        gm_params.internal_handler(TAG_KILL_ACK, LinkAction::ToPeer);
        gm_params.internal_handler(TAG_FINAL_STATE, LinkAction::ToPeer);
        gm_params.external_handler(
            TAG_STATE_REQUEST,
            LinkAction::ToReactor(TargetReactor::Reactor),
        );
        gm_params.external_handler(
            TAG_KILL_REQUEST,
            LinkAction::ToReactor(TargetReactor::Reactor),
        );
        proof {
            assert(gm_params.spec_internal() =~= seq![
                (TAG_FINAL_STATE, LinkAction::ToPeer),
                (TAG_KILL_ACK, LinkAction::ToPeer),
                (TAG_STATE_RESPONSE, LinkAction::ToPeer),
            ]);
            assert(gm_params.spec_external() =~= seq![
                (TAG_KILL_REQUEST, LinkAction::ToReactor(TargetReactor::Reactor)),
                (TAG_STATE_REQUEST, LinkAction::ToReactor(TargetReactor::Reactor)),
            ]);
        }
        handle.open_link(self.game_manager, gm_params, false);
        let first: Vec<HostMsg> = Vec::new();
        handle.send_internal(Payload::HostBatch(first), TargetReactor::Link(self.step_lock));
        proof {
            assert(final(handle).effects@.take(old(handle).effects@.len() as int)
                =~= old(handle).effects@);
        }
    }

    /// Route one step's controller output: the whole batch goes to the
    /// step-lock, each kick additionally becomes a drop order and a kick
    /// relay; a final value ends the match — it is published to the
    /// supervisor and both links are closed.
    pub fn route_step_output(
        &mut self,
        handle: &mut ReactorHandle,
        out: Vec<HostMsg>,
        final_value: Option<String>,
    )
        ensures
            final(self).spec_step_lock() == old(self).spec_step_lock(),
            final(self).spec_game_manager() == old(self).spec_game_manager(),
            final(self).spec_done() == (old(self).spec_done() || final_value is Some),
            final(handle).spec_id() == old(handle).spec_id(),
            ({
                let batch: Seq<Effect> = seq![
                    Effect::Internal(
                        Message::wrap_spec(Payload::HostBatch(out)),
                        TargetReactor::Link(old(self).spec_step_lock()),
                    ),
                ];
                let kicks = kick_effects(out@, old(self).spec_step_lock());
                let ending: Seq<Effect> = match final_value {
                    Option::Some(v) => seq![
                        Effect::Internal(
                            Message::wrap_spec(Payload::FinalState(v)),
                            TargetReactor::Link(old(self).spec_game_manager()),
                        ),
                        Effect::Internal(
                            Message::wrap_spec(Payload::Close(Close {})),
                            TargetReactor::Link(old(self).spec_step_lock()),
                        ),
                        Effect::CloseLink(old(self).spec_step_lock()),
                        Effect::CloseLink(old(self).spec_game_manager()),
                    ],
                    Option::None => Seq::<Effect>::empty(),
                };
                final(handle).effects@ == old(handle).effects@ + kicks + batch + ending
            }),
    {
        let ghost out_g = out@;
        let mut i: usize = 0;
        let ghost mid0 = handle.effects@;
        proof {
            assert(kick_effects(out_g.take(0), self.step_lock) =~= Seq::<Effect>::empty());
            assert(mid0 + kick_effects(out_g.take(0), self.step_lock) =~= mid0);
        }
        while i < out.len()
            invariant
                i <= out@.len(),
                out@ == out_g,
                *self == *old(self),
                handle.spec_id() == old(handle).spec_id(),
                mid0 == old(handle).effects@,
                handle.effects@ == mid0 + kick_effects(out_g.take(i as int), self.step_lock),
            decreases out@.len() - i,
        {
            match &out[i] {
                HostMsg::Kick(p) => {
                    handle.send_internal(
                        Payload::ClientKicked(*p),
                        TargetReactor::Link(self.step_lock),
                    );
                    handle.send_internal(
                        Payload::DropPlayer(*p),
                        TargetReactor::Link(self.step_lock),
                    );
                },
                HostMsg::Data(..) => {},
            }
            i = i + 1;
            proof {
                assert(out_g.take(i as int).drop_last() =~= out_g.take(i as int - 1));
                assert(out_g.take(i as int).last() == out_g[i as int - 1]);
                assert(out_g.take(i as int) =~= out_g.take(i as int - 1).push(out_g[i as int - 1]));
                lemma_kick_effects_snoc(
                    out_g.take(i as int - 1),
                    out_g[i as int - 1],
                    self.step_lock,
                );
                assert(seq![out_g[i as int - 1]][0] == out_g[i as int - 1]);
                assert(seq![out_g[i as int - 1]].drop_first() =~= Seq::<HostMsg>::empty());
                assert(kick_effects(Seq::<HostMsg>::empty(), self.step_lock)
                    =~= Seq::<Effect>::empty());
                match out_g[i as int - 1] {
                    HostMsg::Kick(p) => {
                        assert(kick_effects(seq![out_g[i as int - 1]], self.step_lock) =~= seq![
                            Effect::Internal(
                                Message::wrap_spec(Payload::ClientKicked(p)),
                                TargetReactor::Link(self.step_lock),
                            ),
                            Effect::Internal(
                                Message::wrap_spec(Payload::DropPlayer(p)),
                                TargetReactor::Link(self.step_lock),
                            ),
                        ]);
                    },
                    HostMsg::Data(..) => {
                        assert(kick_effects(seq![out_g[i as int - 1]], self.step_lock)
                            =~= Seq::<Effect>::empty());
                    },
                }
                assert(handle.effects@ =~= mid0 + kick_effects(
                    out_g.take(i as int),
                    self.step_lock,
                ));
            }
        }
        proof {
            assert(out_g.take(i as int) =~= out_g);
        }
        handle.send_internal(Payload::HostBatch(out), TargetReactor::Link(self.step_lock));
        match final_value {
            Some(v) => {
                handle.send_internal(
                    Payload::FinalState(v),
                    TargetReactor::Link(self.game_manager),
                );
                handle.send_internal(
                    Payload::Close(Close {}),
                    TargetReactor::Link(self.step_lock),
                );
                handle.close_link(self.step_lock);
                handle.close_link(self.game_manager);
                self.done = true;
            },
            None => {},
        }
        proof {
            assert(final(handle).effects@ =~= old(handle).effects@ + kick_effects(
                out_g,
                old(self).spec_step_lock(),
            ) + seq![
                Effect::Internal(
                    Message::wrap_spec(Payload::HostBatch(out)),
                    TargetReactor::Link(old(self).spec_step_lock()),
                ),
            ] + match final_value {
                Option::Some(v) => seq![
                    Effect::Internal(
                        Message::wrap_spec(Payload::FinalState(v)),
                        TargetReactor::Link(old(self).spec_game_manager()),
                    ),
                    Effect::Internal(
                        Message::wrap_spec(Payload::Close(Close {})),
                        TargetReactor::Link(old(self).spec_step_lock()),
                    ),
                    Effect::CloseLink(old(self).spec_step_lock()),
                    Effect::CloseLink(old(self).spec_game_manager()),
                ],
                Option::None => Seq::<Effect>::empty(),
            });
        }
    }

    /// A completed turn arrived: advance the controller one step and
    /// route whatever it produced. The controller's outputs are the
    /// user's; whatever came back was routed as `route_step_output`
    /// fixes: one batch to the step-lock, a drop order and kick relay per
    /// kick, and — when the controller ended the game — the final value
    /// and the teardown, appended after the effects already recorded.
    pub fn handle_turn(&mut self, handle: &mut ReactorHandle, batch: Vec<PlayerMsg>)
        ensures
            final(self).spec_step_lock() == old(self).spec_step_lock(),
            final(self).spec_game_manager() == old(self).spec_game_manager(),
            final(handle).spec_id() == old(handle).spec_id(),
            old(self).spec_done() ==> final(self).spec_done(),
            final(handle).effects@.len() > old(handle).effects@.len(),
            final(handle).effects@.take(old(handle).effects@.len() as int) == old(handle).effects@,
            exists|out: Vec<HostMsg>, final_value: Option<String>|
                final(handle).effects@ == old(handle).effects@ + #[trigger] step_effects(
                    out,
                    final_value,
                    old(self).spec_step_lock(),
                    old(self).spec_game_manager(),
                ) && final(self).spec_done() == (old(self).spec_done() || final_value is Some),
    {
        let out = self.controller.on_step(batch);
        let final_value = self.controller.is_done();
        let ghost out_g = out;
        let ghost fv_g = final_value;
        self.route_step_output(handle, out, final_value);
        proof {
            assert(final(handle).effects@ =~= old(handle).effects@ + step_effects(
                out_g,
                fv_g,
                old(self).spec_step_lock(),
                old(self).spec_game_manager(),
            ));
            assert(step_effects(
                out_g,
                fv_g,
                old(self).spec_step_lock(),
                old(self).spec_game_manager(),
            ).len() >= 1);
            assert(final(handle).effects@.take(old(handle).effects@.len() as int)
                =~= old(handle).effects@);
        }
    }

    /// Answer a state request with the controller's current state under
    /// the request's correlation number.
    pub fn reply_state(&mut self, handle: &mut ReactorHandle, corr: u64, state: String)
        ensures
            *final(self) == *old(self),
            final(handle).spec_id() == old(handle).spec_id(),
            final(handle).effects@ == old(handle).effects@.push(
                Effect::Internal(
                    Message::wrap_spec(Payload::StateResponse(corr, state)),
                    TargetReactor::Link(old(self).spec_game_manager()),
                ),
            ),
    {
        handle.send_internal(
            Payload::StateResponse(corr, state),
            TargetReactor::Link(self.game_manager),
        );
    }

    /// A state request from the supervisor: ask the controller and reply.
    pub fn handle_state_request(&mut self, handle: &mut ReactorHandle, corr: u64)
        ensures
            final(self).spec_step_lock() == old(self).spec_step_lock(),
            final(self).spec_game_manager() == old(self).spec_game_manager(),
            final(self).spec_done() == old(self).spec_done(),
            final(handle).spec_id() == old(handle).spec_id(),
            final(handle).effects@.len() == old(handle).effects@.len() + 1,
            final(handle).effects@.drop_last() == old(handle).effects@,
            (final(handle).effects@.last() matches Effect::Internal(m, t) && m.spec_tag()
                == TAG_STATE_RESPONSE && (m.content() matches Some(Payload::StateResponse(c, _))
                && c == corr) && t == TargetReactor::Link(old(self).spec_game_manager())),
    {
        let state = self.controller.get_state();
        self.reply_state(handle, corr, state);
        proof {
            assert(final(handle).effects@.drop_last() =~= old(handle).effects@);
        }
    }

    /// A kill request from the supervisor: publish the controller's state
    /// one last time, acknowledge under the request's correlation number,
    /// tear both links down and end the match.
    pub fn handle_kill_request(&mut self, handle: &mut ReactorHandle, corr: u64)
        ensures
            final(self).spec_step_lock() == old(self).spec_step_lock(),
            final(self).spec_game_manager() == old(self).spec_game_manager(),
            final(self).spec_done(),
            final(handle).spec_id() == old(handle).spec_id(),
            final(handle).effects@.len() == old(handle).effects@.len() + 5,
            final(handle).effects@.take(old(handle).effects@.len() as int) == old(handle).effects@,
            (final(handle).effects@[old(handle).effects@.len() as int]
                matches Effect::Internal(m, t) && m.spec_tag() == TAG_FINAL_STATE && t
                == TargetReactor::Link(old(self).spec_game_manager())),
            final(handle).effects@[old(handle).effects@.len() as int + 1] == Effect::Internal(
                Message::wrap_spec(Payload::KillAck(corr)),
                TargetReactor::Link(old(self).spec_game_manager()),
            ),
            final(handle).effects@[old(handle).effects@.len() as int + 2] == Effect::Internal(
                Message::wrap_spec(Payload::Close(Close {})),
                TargetReactor::Link(old(self).spec_step_lock()),
            ),
            final(handle).effects@[old(handle).effects@.len() as int + 3] == Effect::CloseLink(
                old(self).spec_step_lock(),
            ),
            final(handle).effects@[old(handle).effects@.len() as int + 4] == Effect::CloseLink(
                old(self).spec_game_manager(),
            ),
    {
        let state = self.controller.get_state();
        handle.send_internal(
            Payload::FinalState(state),
            TargetReactor::Link(self.game_manager),
        );
        handle.send_internal(Payload::KillAck(corr), TargetReactor::Link(self.game_manager));
        handle.send_internal(Payload::Close(Close {}), TargetReactor::Link(self.step_lock));
        handle.close_link(self.step_lock);
        handle.close_link(self.game_manager);
        self.done = true;
        proof {
            assert(final(handle).effects@.take(old(handle).effects@.len() as int)
                =~= old(handle).effects@);
        }
    }
}

} // verus!
