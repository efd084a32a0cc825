//! The reactor driver: the per-reactor event loop.
//!
//! The driver pulls one external message at a time from the reactor's
//! mailbox, dispatches it through the matching link's external table, and
//! drains the internal operation queue to empty before polling again — so
//! a handler's consequences are fully visible before the next inbound
//! message. A reactor that has received its destroy order, or whose last
//! non-auto link is gone, sends itself one last drop message, flushes its
//! queue, unregisters from the broker, and exits.

use vstd::prelude::*;

use crate::broker::{self, Broker};
use crate::client_controller::CCReactor;
use crate::client_manager::ClientManager;
use crate::game_host::{Controller, GameHost};
use crate::handles::{Effect, Envelope, LinkHandle, ReactorHandle, TargetReactor};
use crate::ids::ReactorID;
use crate::link::{dispatch_effects, Link, LinkAction, LinkOperation, LinkParams};
use crate::message::{Message, Payload, TAG_ACCEPTED, TAG_CLIENT_KICKED, TAG_CLOSE, TAG_DATA,
    TAG_DROP_PLAYER, TAG_HOST_BATCH, TAG_INITIALIZE, TAG_KILL_REQUEST, TAG_PEER_CLOSED,
    TAG_PLAYER_MSG, TAG_REGISTER_ENDPOINT, TAG_REGISTER_GAME, TAG_SPAWN_PLAYER, TAG_STATE_REQUEST,
    TAG_TICK, TAG_TURN};
use crate::step_lock::StepLock;

verus! {

broadcast use crate::message::lemma_wrap_spec_content;

/// An operation waiting in a reactor's internal queue.
#[derive(Debug)]
pub enum InternalOp {
    /// Run a message through the reactor's own table or one link's
    /// internal table.
    Msg(Message, TargetReactor),
    /// Install a link to the named peer; the flag marks an auto link.
    OpenLink(ReactorID, LinkParams, bool),
    /// Remove the link to the named peer, running its closer first.
    CloseLink(ReactorID),
    /// Remove the link to the named peer without its closer.
    CloseLinkHard(ReactorID),
    /// Begin shutting the reactor down.
    Destroy,
}

/// The queue operations a handler's effects turn into, in order; sends
/// across the broker are not queued.
pub open spec fn queued_ops(effects: Seq<Effect>) -> Seq<InternalOp>
    decreases effects.len(),
{
    if effects.len() == 0 {
        Seq::<InternalOp>::empty()
    } else {
        (match effects[0] {
            Effect::Internal(m, t) => seq![InternalOp::Msg(m, t)],
            Effect::OpenLink(peer, p, auto) => seq![InternalOp::OpenLink(peer, p, auto)],
            Effect::CloseLink(peer) => seq![InternalOp::CloseLink(peer)],
            Effect::CloseLinkHard(peer) => seq![InternalOp::CloseLinkHard(peer)],
            Effect::Destroy => seq![InternalOp::Destroy],
            Effect::External(..) => Seq::<InternalOp>::empty(),
        }) + queued_ops(effects.drop_first())
    }
}

/// The envelopes a handler's effects put on the wire, in order.
pub open spec fn outbound(effects: Seq<Effect>) -> Seq<Envelope>
    decreases effects.len(),
{
    if effects.len() == 0 {
        Seq::<Envelope>::empty()
    } else {
        (match effects[0] {
            Effect::External(env) => seq![env],
            _ => Seq::<Envelope>::empty(),
        }) + outbound(effects.drop_first())
    }
}

/// What one dispatch does to the registry: nothing for the runtime
/// identifier or an unregistered receiver, an append at the back of the
/// receiver's mailbox otherwise.
pub open spec fn dispatch_one(
    actors: Seq<(ReactorID, Seq<Envelope>)>,
    rt: ReactorID,
    env: Envelope,
) -> Seq<(ReactorID, Seq<Envelope>)> {
    if env.to == rt || !broker::has_actor(actors, env.to) {
        actors
    } else {
        broker::with_mailbox(actors, env.to, broker::mailbox_of(actors, env.to).push(env))
    }
}

/// The registry after a sequence of dispatches, in order.
pub open spec fn dispatch_all(
    actors: Seq<(ReactorID, Seq<Envelope>)>,
    rt: ReactorID,
    envs: Seq<Envelope>,
) -> Seq<(ReactorID, Seq<Envelope>)>
    decreases envs.len(),
{
    if envs.len() == 0 {
        actors
    } else {
        dispatch_all(dispatch_one(actors, rt, envs[0]), rt, envs.drop_first())
    }
}

/// Dispatching one more envelope applies it to the registry the earlier
/// ones produced.
proof fn lemma_dispatch_all_snoc(
    actors: Seq<(ReactorID, Seq<Envelope>)>,
    rt: ReactorID,
    envs: Seq<Envelope>,
    e: Envelope,
)
    ensures
        dispatch_all(actors, rt, envs.push(e)) == dispatch_one(
            dispatch_all(actors, rt, envs),
            rt,
            e,
        ),
    decreases envs.len(),
{
    if envs.len() == 0 {
        assert(envs.push(e)[0] == e);
        assert(envs.push(e).drop_first() =~= Seq::<Envelope>::empty());
        assert(dispatch_all(actors, rt, envs.push(e)) == dispatch_all(
            dispatch_one(actors, rt, e),
            rt,
            envs.push(e).drop_first(),
        ));
    } else {
        assert(envs.push(e)[0] == envs[0]);
        assert(envs.push(e).drop_first() =~= envs.drop_first().push(e));
        lemma_dispatch_all_snoc(dispatch_one(actors, rt, envs[0]), rt, envs.drop_first(), e);
    }
}

/// Queueing one more effect appends that effect's own queue operations.
proof fn lemma_queued_ops_snoc(effects: Seq<Effect>, e: Effect)
    ensures
        queued_ops(effects.push(e)) == queued_ops(effects) + queued_ops(seq![e]),
    decreases effects.len(),
{
    if effects.len() == 0 {
        assert(effects.push(e)[0] == e);
        assert(effects.push(e).drop_first() =~= Seq::<Effect>::empty());
        assert(seq![e][0] == e);
        assert(seq![e].drop_first() =~= Seq::<Effect>::empty());
        assert(queued_ops(effects.push(e)) =~= queued_ops(effects) + queued_ops(seq![e]));
    } else {
        assert(effects.push(e)[0] == effects[0]);
        assert(effects.push(e).drop_first() =~= effects.drop_first().push(e));
        lemma_queued_ops_snoc(effects.drop_first(), e);
        assert(queued_ops(effects.push(e)) =~= queued_ops(effects) + queued_ops(seq![e]));
    }
}

/// Sending one more effect appends that effect's own envelope, if any.
proof fn lemma_outbound_snoc(effects: Seq<Effect>, e: Effect)
    ensures
        outbound(effects.push(e)) == outbound(effects) + outbound(seq![e]),
    decreases effects.len(),
{
    if effects.len() == 0 {
        assert(effects.push(e)[0] == e);
        assert(effects.push(e).drop_first() =~= Seq::<Effect>::empty());
        assert(seq![e][0] == e);
        assert(seq![e].drop_first() =~= Seq::<Effect>::empty());
        assert(outbound(effects.push(e)) =~= outbound(effects) + outbound(seq![e]));
    } else {
        assert(effects.push(e)[0] == effects[0]);
        assert(effects.push(e).drop_first() =~= effects.drop_first().push(e));
        lemma_outbound_snoc(effects.drop_first(), e);
        assert(outbound(effects.push(e)) =~= outbound(effects) + outbound(seq![e]));
    }
}

/// The state a reactor's behavior dispatches into: one of the runtime's
/// component state machines.
#[derive(Debug)]
pub enum Behavior<C> {
    /// The client manager.
    ClientManager(ClientManager),
    /// One player's client controller.
    ClientController(CCReactor),
    /// A match's step-lock.
    StepLock(StepLock),
    /// A match reactor with its game controller.
    GameHost(GameHost<C>),
}

impl<C: Controller> Behavior<C> {
    /// The component invariants that every dispatch preserves.
    pub open spec fn wf(&self) -> bool {
        match self {
            Behavior::ClientManager(cm) => cm.wf(),
            Behavior::ClientController(cc) => cc.wf(),
            Behavior::StepLock(..) => true,
            Behavior::GameHost(..) => true,
        }
    }

    /// Dispatch one message aimed at the reactor itself to the component's
    /// matching handler, exactly as each component's own contract fixes
    /// it; a message the component has no handler for — and a match
    /// announcement that would exhaust the token counter — is dropped
    /// with nothing changed.
    pub fn handle(&mut self, handle: &mut ReactorHandle, msg: Message)
        requires
            old(self).wf(),
        ensures
            final(self).wf(),
            final(handle).spec_id() == old(handle).spec_id(),
            final(handle).effects@.len() >= old(handle).effects@.len(),
            final(handle).effects@.take(old(handle).effects@.len() as int)
                == old(handle).effects@,
            (*old(self) matches Behavior::ClientManager(c) ==> ({
                let t = msg.spec_tag();
                let h0 = old(handle).effects@;
                let h1 = final(handle).effects@;
                &&& (*final(self) matches Behavior::ClientManager(c2) ==> ({
                    &&& (t == TAG_INITIALIZE ==> (c2 == c && h1.len() == h0.len() + 1
                        && (h1.last() matches Effect::OpenLink(peer, p, auto)
                        && peer == c.spec_game_manager()
                        && crate::client_manager::is_gm_link_params(p) && !auto)))
                    &&& (t == TAG_REGISTER_GAME ==> ({
                        &&& (msg.content() matches Some(Payload::RegisterGame(cs)) ==> ({
                            &&& (c.spec_minted() + cs.players@.len() <= u64::MAX ==> (
                                c2.spec_game_manager() == c.spec_game_manager()
                                && c2.spec_salt() == c.spec_salt()
                                && c2.spec_minted() == c.spec_minted() + cs.players@.len()
                                && c2.spec_clients() == c.spec_clients() + Seq::new(
                                    cs.players@.len(),
                                    |k: int| (
                                        crate::client_manager::minted_token(
                                            c.spec_salt(),
                                            (c.spec_minted() + k) as u64,
                                        ),
                                        cs.players@[k],
                                    ),
                                )
                                && h1.len() == h0.len() + 1 + cs.players@.len()
                                && (h1[h0.len() as int] matches Effect::Internal(m, tr)
                                    && m.spec_tag() == crate::message::TAG_PLAYER_UUIDS
                                    && tr == TargetReactor::Link(c.spec_game_manager()))
                                && (forall|k: int| 0 <= k < cs.players@.len()
                                    ==> (#[trigger] h1[h0.len() + 1 + k]
                                        matches Effect::OpenLink(peer, p, auto)
                                        && peer == cs.players@[k].1
                                        && crate::client_manager::is_cc_link_params(p)
                                        && auto))))
                            &&& (!(c.spec_minted() + cs.players@.len() <= u64::MAX) ==> (
                                c2 == c && h1 == h0))
                        }))
                        &&& (!(msg.content() matches Some(Payload::RegisterGame(..))) ==> (
                            c2 == c && h1 == h0))
                    }))
                    &&& (t == TAG_PEER_CLOSED ==> ({
                        &&& (msg.content() matches Some(Payload::PeerClosed(pid)) ==> (
                            c2.spec_clients() == crate::client_manager::drop_controller(
                                c.spec_clients(),
                                pid,
                            ) && c2.spec_game_manager() == c.spec_game_manager()
                            && c2.spec_salt() == c.spec_salt()
                            && c2.spec_minted() == c.spec_minted() && h1 == h0))
                        &&& (!(msg.content() matches Some(Payload::PeerClosed(..))) ==> (
                            c2 == c && h1 == h0))
                    }))
                    &&& (t == TAG_REGISTER_ENDPOINT ==> ({
                        &&& (msg.content() matches Some(Payload::RegisterEndpoint(reg)) ==> (
                            c2 == c && h1.len() == h0.len() + 1
                            && (h1.last() matches Effect::OpenLink(peer, p, auto)
                            && peer == reg.0
                            && crate::client_manager::is_endpoint_link_params(p) && !auto)))
                        &&& (!(msg.content() matches Some(Payload::RegisterEndpoint(..))) ==> (
                            c2 == c && h1 == h0))
                    }))
                    &&& (t == TAG_SPAWN_PLAYER ==> ({
                        &&& (msg.content() matches Some(Payload::SpawnPlayer(sp)) ==> ({
                            &&& c2 == c
                            &&& (crate::client_manager::lookup_client(
                                c.spec_clients(),
                                sp.player,
                            ) is None ==> h1 == h0)
                            &&& (crate::client_manager::lookup_client(
                                c.spec_clients(),
                                sp.player,
                            ) matches Some(entry) ==> h1 == h0.push(
                                Effect::Internal(
                                    Message::wrap_spec(
                                        Payload::Accepted(
                                            crate::net::Accepted {
                                                player: entry.0,
                                                client_id: sp.session,
                                                contr_id: entry.1,
                                            },
                                        ),
                                    ),
                                    TargetReactor::Link(entry.1),
                                ),
                            ))
                        }))
                        &&& (!(msg.content() matches Some(Payload::SpawnPlayer(..))) ==> (
                            c2 == c && h1 == h0))
                    }))
                    &&& (t != TAG_INITIALIZE && t != TAG_REGISTER_GAME && t != TAG_PEER_CLOSED
                        && t != TAG_REGISTER_ENDPOINT && t != TAG_SPAWN_PLAYER ==> (c2 == c && h1
                        == h0))
                }))
                &&& *final(self) matches Behavior::ClientManager(..)
            })),
            (*old(self) matches Behavior::StepLock(sl) ==> ({
                let t = msg.spec_tag();
                let h0 = old(handle).effects@;
                let h1 = final(handle).effects@;
                &&& (*final(self) matches Behavior::StepLock(sl2) ==> ({
                    &&& (t == TAG_INITIALIZE ==> (sl2 == sl && h1.len() == h0.len() + 1
                        + sl.spec_roster().len()
                        && (h1[h0.len() as int] matches Effect::OpenLink(peer, p, auto)
                        && peer == sl.spec_host()
                        && crate::step_lock::is_lock_host_link_params(p) && !auto)
                        && (forall|j: int| 0 <= j < sl.spec_roster().len()
                            ==> (#[trigger] h1[h0.len() as int + 1 + j]
                                matches Effect::OpenLink(peer, p, auto)
                                && peer == sl.spec_roster()[j].1
                                && crate::step_lock::is_lock_controller_link_params(p)
                                && !auto))))
                    &&& (t == TAG_TICK ==> ({
                        &&& sl2.spec_host() == sl.spec_host()
                        &&& sl2.spec_roster() == sl.spec_roster()
                        &&& sl2.spec_timeout_ms() == sl.spec_timeout_ms()
                        &&& (sl.spec_phase() is Broadcasting ==> (sl2 == sl && h1 == h0))
                        &&& (sl.spec_phase() matches crate::step_lock::Phase::Collecting(entries)
                            ==> (sl2.spec_phase() == crate::step_lock::Phase::Broadcasting
                            && h1.len() == h0.len() + 1 && h1.drop_last() == h0
                            && (h1.last() matches Effect::Internal(m, tr)
                            && m.spec_tag() == crate::message::TAG_TURN
                            && (m.content() matches Some(Payload::Turn(b))
                            && b@ == crate::step_lock::batch_of(entries@))
                            && tr == TargetReactor::Link(sl.spec_host()))))
                    }))
                    &&& (t == TAG_CLOSE ==> (sl2 == sl && h1 == h0 + Seq::new(
                        sl.spec_roster().len(),
                        |j: int| Effect::Internal(
                            Message::wrap_spec(Payload::ClientKicked(sl.spec_roster()[j].0)),
                            TargetReactor::Link(sl.spec_roster()[j].1),
                        ),
                    ) + seq![Effect::Destroy]))
                    &&& (t == TAG_HOST_BATCH && !(msg.content()
                        matches Some(Payload::HostBatch(..))) ==> (sl2 == sl && h1 == h0))
                    &&& (t == TAG_PLAYER_MSG && !(msg.content()
                        matches Some(Payload::Player(..))) ==> (sl2 == sl && h1 == h0))
                    &&& (t == TAG_DROP_PLAYER ==> ({
                        &&& (msg.content() matches Some(Payload::DropPlayer(pid)) ==> (
                            sl2.spec_roster() == crate::step_lock::roster_without(
                                sl.spec_roster(),
                                pid,
                            ) && sl2.spec_host() == sl.spec_host()))
                        &&& (!(msg.content() matches Some(Payload::DropPlayer(..))) ==> (
                            sl2 == sl && h1 == h0))
                    }))
                    &&& (t == TAG_CLIENT_KICKED ==> ({
                        &&& (msg.content() matches Some(Payload::ClientKicked(pid)) ==> ({
                            &&& sl2 == sl
                            &&& (crate::step_lock::lookup_player(sl.spec_roster(), pid) is None
                                ==> h1 == h0)
                            &&& (crate::step_lock::lookup_player(sl.spec_roster(), pid)
                                matches Some(cc) ==> h1 == h0.push(
                                Effect::Internal(
                                    Message::wrap_spec(Payload::ClientKicked(pid)),
                                    TargetReactor::Link(cc),
                                ),
                            ))
                        }))
                        &&& (!(msg.content() matches Some(Payload::ClientKicked(..))) ==> (
                            sl2 == sl && h1 == h0))
                    }))
                    &&& (t != TAG_INITIALIZE && t != TAG_TICK && t != TAG_CLOSE
                        && t != TAG_HOST_BATCH && t != TAG_PLAYER_MSG && t != TAG_DROP_PLAYER
                        && t != TAG_CLIENT_KICKED ==> (sl2 == sl && h1 == h0))
                }))
                &&& *final(self) matches Behavior::StepLock(..)
            })),
            (*old(self) matches Behavior::ClientController(cc) ==> ({
                let t = msg.spec_tag();
                let h0 = old(handle).effects@;
                let h1 = final(handle).effects@;
                &&& (*final(self) matches Behavior::ClientController(cc2) ==> ({
                    &&& (t == TAG_INITIALIZE ==> (cc2 == cc && h1.len() == h0.len() + 2
                        && (h1[h0.len() as int] matches Effect::OpenLink(peer, p, auto)
                        && peer == cc.spec_host()
                        && crate::client_controller::is_host_link_params(p) && !auto)
                        && (h1[h0.len() as int + 1] matches Effect::OpenLink(peer, p, auto)
                        && peer == cc.spec_client_manager()
                        && crate::client_controller::is_manager_link_params(p) && !auto)))
                    &&& (t == TAG_ACCEPTED ==> ({
                        &&& (msg.content() matches Some(Payload::Accepted(acc)) ==> (
                            cc2.spec_connected() && cc2.spec_session() == Some(acc.client_id)
                            && cc2.spec_queue() == Seq::<crate::types::Data>::empty()
                            && cc2.spec_host() == cc.spec_host()
                            && cc2.spec_player() == cc.spec_player()
                            && h1.len() == h0.len() + (match cc.spec_session() {
                                Option::Some(..) => 2int,
                                Option::None => 1int,
                            }) + cc.spec_queue().len()))
                        &&& (!(msg.content() matches Some(Payload::Accepted(..))) ==> (
                            cc2 == cc && h1 == h0))
                    }))
                    &&& (t == TAG_DATA ==> ({
                        &&& (msg.content() matches Some(Payload::Data(d)) ==> ({
                            &&& (cc.spec_connected() ==> (cc2.spec_queue()
                                == Seq::<crate::types::Data>::empty()
                                && (cc.spec_session() matches Some(sid) && h1 == h0.push(
                                Effect::Internal(
                                    Message::wrap_spec(Payload::Data(d)),
                                    TargetReactor::Link(sid),
                                ),
                            ))))
                            &&& (!cc.spec_connected() ==> (h1 == h0 && cc2.spec_queue() == (
                                if cc.spec_queue().len() < cc.spec_cap() {
                                    cc.spec_queue().push(d)
                                } else {
                                    cc.spec_queue().drop_first().push(d)
                                })))
                        }))
                        &&& (!(msg.content() matches Some(Payload::Data(..))) ==> (cc2 == cc
                            && h1 == h0))
                    }))
                    &&& (t == TAG_CLIENT_KICKED ==> ({
                        &&& (msg.content() matches Some(Payload::ClientKicked(..)) ==> h1 == h0
                            + (match cc.spec_session() {
                            Option::Some(sid) => seq![
                                Effect::Internal(
                                    Message::wrap_spec(
                                        Payload::ClientKicked(cc.spec_player()),
                                    ),
                                    TargetReactor::Link(sid),
                                ),
                                Effect::Internal(
                                    Message::wrap_spec(
                                        Payload::Close(crate::types::Close {  }),
                                    ),
                                    TargetReactor::Link(sid),
                                ),
                            ],
                            Option::None => Seq::<Effect>::empty(),
                        }) + seq![
                            Effect::Internal(
                                Message::wrap_spec(Payload::ClientKicked(cc.spec_player())),
                                TargetReactor::Link(cc.spec_host()),
                            ),
                            Effect::Internal(
                                Message::wrap_spec(
                                    Payload::PeerClosed(old(handle).spec_id()),
                                ),
                                TargetReactor::Link(cc.spec_client_manager()),
                            ),
                            Effect::Destroy,
                        ])
                        &&& (!(msg.content() matches Some(Payload::ClientKicked(..))) ==> (
                            cc2 == cc && h1 == h0))
                    }))
                    &&& (t == TAG_PEER_CLOSED ==> ({
                        &&& (msg.content() matches Some(Payload::PeerClosed(pid)) ==> ({
                            &&& (cc.spec_session() == Some(pid) ==> (
                                cc2.spec_session() is None && !cc2.spec_connected()
                                && h1 == h0.push(Effect::CloseLinkHard(pid))))
                            &&& (cc.spec_session() != Some(pid) ==> (cc2 == cc && h1 == h0))
                        }))
                        &&& (!(msg.content() matches Some(Payload::PeerClosed(..))) ==> (
                            cc2 == cc && h1 == h0))
                    }))
                    &&& (t != TAG_INITIALIZE && t != TAG_ACCEPTED && t != TAG_DATA
                        && t != TAG_CLIENT_KICKED && t != TAG_PEER_CLOSED ==> (cc2 == cc && h1
                        == h0))
                }))
                &&& *final(self) matches Behavior::ClientController(..)
            })),
            (*old(self) matches Behavior::GameHost(host) ==> ({
                let t = msg.spec_tag();
                let h0 = old(handle).effects@;
                let h1 = final(handle).effects@;
                &&& (*final(self) matches Behavior::GameHost(host2) ==> ({
                    &&& host2.spec_step_lock() == host.spec_step_lock()
                    &&& host2.spec_game_manager() == host.spec_game_manager()
                    &&& (t == TAG_INITIALIZE ==> (h1.len() == h0.len() + 3
                        && (h1[h0.len() as int] matches Effect::OpenLink(peer, p, auto)
                        && peer == host.spec_step_lock()
                        && crate::game_host::is_host_lock_link_params(p) && !auto)
                        && (h1[h0.len() as int + 1] matches Effect::OpenLink(peer, p, auto)
                        && peer == host.spec_game_manager()
                        && crate::game_host::is_host_gm_link_params(p) && !auto)))
                    &&& (t == TAG_TURN ==> ({
                        &&& (msg.content() matches Some(Payload::Turn(..)) ==> ({
                            &&& (host.spec_done() ==> host2.spec_done())
                            &&& exists|out: Vec<crate::types::HostMsg>, fv: Option<String>|
                                h1 == h0 + #[trigger] crate::game_host::step_effects(
                                    out,
                                    fv,
                                    host.spec_step_lock(),
                                    host.spec_game_manager(),
                                )
                        }))
                        &&& (!(msg.content() matches Some(Payload::Turn(..))) ==> (h1 == h0
                            && host2.spec_done() == host.spec_done()))
                    }))
                    &&& (t == TAG_STATE_REQUEST ==> ({
                        &&& (msg.content() matches Some(Payload::StateRequest(corr)) ==> (
                            host2.spec_done() == host.spec_done()
                            && h1.len() == h0.len() + 1
                            && (h1.last() matches Effect::Internal(m, tr)
                            && m.spec_tag() == crate::message::TAG_STATE_RESPONSE
                            && (m.content() matches Some(Payload::StateResponse(c3, _))
                            && c3 == corr)
                            && tr == TargetReactor::Link(host.spec_game_manager()))))
                        &&& (!(msg.content() matches Some(Payload::StateRequest(..))) ==> (
                            h1 == h0 && host2.spec_done() == host.spec_done()))
                    }))
                    &&& (t == TAG_KILL_REQUEST ==> ({
                        &&& (msg.content() matches Some(Payload::KillRequest(corr)) ==> (
                            host2.spec_done() && h1.len() == h0.len() + 5
                            && h1[h0.len() as int + 1] == Effect::Internal(
                                Message::wrap_spec(Payload::KillAck(corr)),
                                TargetReactor::Link(host.spec_game_manager()),
                            )
                            && h1[h0.len() as int + 3] == Effect::CloseLink(
                                host.spec_step_lock(),
                            )
                            && h1[h0.len() as int + 4] == Effect::CloseLink(
                                host.spec_game_manager(),
                            )))
                        &&& (!(msg.content() matches Some(Payload::KillRequest(..))) ==> (
                            h1 == h0 && host2.spec_done() == host.spec_done()))
                    }))
                    &&& (t != TAG_INITIALIZE && t != TAG_TURN && t != TAG_STATE_REQUEST
                        && t != TAG_KILL_REQUEST ==> (h1 == h0 && host2.spec_done()
                        == host.spec_done()))
                }))
                &&& *final(self) matches Behavior::GameHost(..)
            })),
    {
        let mut msg = msg;
        match self {
            Behavior::ClientManager(cm) => {
                let tag = msg.tag();
                if tag == TAG_INITIALIZE {
                    cm.init(handle);
                } else if tag == TAG_REGISTER_GAME {
                    match msg.take_as(TAG_REGISTER_GAME) {
                        Ok(Payload::RegisterGame(cs)) => {
                            let n = cs.players.len() as u64;
                            if cm.minted() <= u64::MAX - n {
                                cm.handle_spawn_game(handle, &cs);
                            }
                        },
                        _ => {},
                    }
                } else if tag == TAG_PEER_CLOSED {
                    match msg.take_as(TAG_PEER_CLOSED) {
                        Ok(Payload::PeerClosed(id)) => {
                            cm.handle_cc_close(handle, &id);
                        },
                        _ => {},
                    }
                } else if tag == TAG_REGISTER_ENDPOINT {
                    match msg.take_as(TAG_REGISTER_ENDPOINT) {
                        Ok(Payload::RegisterEndpoint(reg)) => {
                            cm.handle_register_endpoint(handle, &reg);
                        },
                        _ => {},
                    }
                } else if tag == TAG_SPAWN_PLAYER {
                    match msg.take_as(TAG_SPAWN_PLAYER) {
                        Ok(Payload::SpawnPlayer(reg)) => {
                            cm.handle_player_regiser(handle, &reg);
                        },
                        _ => {},
                    }
                }
            },
            Behavior::ClientController(cc) => {
                let tag = msg.tag();
                if tag == TAG_INITIALIZE {
                    cc.handle_initialize(handle);
                } else if tag == TAG_ACCEPTED {
                    match msg.take_as(TAG_ACCEPTED) {
                        Ok(Payload::Accepted(acc)) => {
                            cc.handle_connect(handle, &acc);
                        },
                        _ => {},
                    }
                } else if tag == TAG_DATA {
                    match msg.take_as(TAG_DATA) {
                        Ok(Payload::Data(d)) => {
                            cc.handle_host_msg(handle, d);
                        },
                        _ => {},
                    }
                } else if tag == TAG_CLIENT_KICKED {
                    match msg.take_as(TAG_CLIENT_KICKED) {
                        Ok(Payload::ClientKicked(..)) => {
                            cc.handle_kicked(handle);
                        },
                        _ => {},
                    }
                } else if tag == TAG_PEER_CLOSED {
                    match msg.take_as(TAG_PEER_CLOSED) {
                        Ok(Payload::PeerClosed(id)) => {
                            cc.handle_peer_closed(handle, id);
                        },
                        _ => {},
                    }
                }
            },
            Behavior::StepLock(sl) => {
                let tag = msg.tag();
                if tag == TAG_INITIALIZE {
                    sl.handle_initialize(handle);
                } else if tag == TAG_HOST_BATCH {
                    match msg.take_as(TAG_HOST_BATCH) {
                        Ok(Payload::HostBatch(msgs)) => {
                            sl.handle_host_batch(handle, msgs);
                        },
                        _ => {},
                    }
                } else if tag == TAG_PLAYER_MSG {
                    match msg.take_as(TAG_PLAYER_MSG) {
                        Ok(Payload::Player(m)) => {
                            sl.handle_player_msg(handle, m);
                        },
                        _ => {},
                    }
                } else if tag == TAG_TICK {
                    sl.handle_tick(handle);
                } else if tag == TAG_DROP_PLAYER {
                    match msg.take_as(TAG_DROP_PLAYER) {
                        Ok(Payload::DropPlayer(p)) => {
                            sl.handle_drop_player(handle, p);
                        },
                        _ => {},
                    }
                } else if tag == TAG_CLIENT_KICKED {
                    match msg.take_as(TAG_CLIENT_KICKED) {
                        Ok(Payload::ClientKicked(p)) => {
                            sl.handle_client_kicked(handle, p);
                        },
                        _ => {},
                    }
                } else if tag == TAG_CLOSE {
                    sl.handle_close(handle);
                }
            },
            Behavior::GameHost(host) => {
                let tag = msg.tag();
                if tag == TAG_INITIALIZE {
                    host.handle_initialize(handle);
                } else if tag == TAG_TURN {
                    match msg.take_as(TAG_TURN) {
                        Ok(Payload::Turn(batch)) => {
                            host.handle_turn(handle, batch);
                        },
                        _ => {},
                    }
                } else if tag == TAG_STATE_REQUEST {
                    match msg.take_as(TAG_STATE_REQUEST) {
                        Ok(Payload::StateRequest(corr)) => {
                            host.handle_state_request(handle, corr);
                        },
                        _ => {},
                    }
                } else if tag == TAG_KILL_REQUEST {
                    match msg.take_as(TAG_KILL_REQUEST) {
                        Ok(Payload::KillRequest(corr)) => {
                            host.handle_kill_request(handle, corr);
                        },
                        _ => {},
                    }
                }
            },
        }
    }
}

/// What the driver reported after one scheduling step.
#[derive(Clone, Copy, PartialEq, Eq, Structural, Debug)]
pub enum PollStatus {
    /// The reactor is waiting for its next external message.
    Pending,
    /// The reactor has exited and left the broker's registry.
    Ready,
}

/// One reactor's driver state: the reactor record and its event loop
/// bookkeeping.
#[derive(Debug)]
pub struct ReactorDriver<C> {
    id: ReactorID,
    behavior: Behavior<C>,
    links: Vec<(ReactorID, Link, bool)>,
    queue: Vec<InternalOp>,
    should_close: bool,
    external_handled: u64,
    internal_handled: u64,
}

/// Whether any link entry is not an auto link.
pub open spec fn exists_non_auto(s: Seq<(ReactorID, Link, bool)>) -> bool
    decreases s.len(),
{
    if s.len() == 0 {
        false
    } else {
        !s[0].2 || exists_non_auto(s.drop_first())
    }
}

/// Every stored link is properly wired — owned by this reactor, aimed at
/// the peer it is keyed under — and has handed its effects to the driver.
pub open spec fn links_ok(s: Seq<(ReactorID, Link, bool)>, id: ReactorID) -> bool {
    forall|k: int| 0 <= k < s.len() ==> ((#[trigger] s[k].1.spec_effects()).len() == 0
        && s[k].1.spec_source_id() == id && s[k].1.spec_target_id() == s[k].0)
}

/// Removing a link entry keeps the rest properly wired.
proof fn lemma_links_ok_remove(s: Seq<(ReactorID, Link, bool)>, id: ReactorID, i: int)
    requires
        links_ok(s, id),
        0 <= i < s.len(),
    ensures
        links_ok(s.remove(i), id),
{
    assert forall|k: int| 0 <= k < s.remove(i).len() implies ((
    #[trigger] s.remove(i)[k].1.spec_effects()).len() == 0 && s.remove(i)[k].1.spec_source_id()
        == id && s.remove(i)[k].1.spec_target_id() == s.remove(i)[k].0) by {
        if k < i {
            assert(s.remove(i)[k] == s[k]);
        } else {
            assert(s.remove(i)[k] == s[k + 1]);
        }
    }
}

/// Inserting a properly wired link entry keeps the table properly wired.
proof fn lemma_links_ok_insert(
    s: Seq<(ReactorID, Link, bool)>,
    id: ReactorID,
    i: int,
    e: (ReactorID, Link, bool),
)
    requires
        links_ok(s, id),
        0 <= i <= s.len(),
        e.1.spec_effects().len() == 0,
        e.1.spec_source_id() == id,
        e.1.spec_target_id() == e.0,
    ensures
        links_ok(s.insert(i, e), id),
{
    assert forall|k: int| 0 <= k < s.insert(i, e).len() implies ((
    #[trigger] s.insert(i, e)[k].1.spec_effects()).len() == 0 && s.insert(
        i,
        e,
    )[k].1.spec_source_id() == id && s.insert(i, e)[k].1.spec_target_id() == s.insert(
        i,
        e,
    )[k].0) by {
        if k < i {
            assert(s.insert(i, e)[k] == s[k]);
        } else if k == i {
            assert(s.insert(i, e)[k] == e);
        } else {
            assert(s.insert(i, e)[k] == s[k - 1]);
        }
    }
}

/// The first link recorded for the peer, if any.
pub open spec fn link_lookup(s: Seq<(ReactorID, Link, bool)>, peer: ReactorID) -> Option<Link>
    decreases s.len(),
{
    if s.len() == 0 {
        Option::None
    } else if s[0].0 == peer {
        Option::Some(s[0].1)
    } else {
        link_lookup(s.drop_first(), peer)
    }
}

/// The operations a closing link leaves behind: its closer's notice to
/// the owning reactor, if one was still owed.
pub open spec fn closer_ops(l: Option<Link>, peer: ReactorID) -> Seq<InternalOp> {
    match l {
        Option::None => Seq::<InternalOp>::empty(),
        Option::Some(link) => match link.spec_closer() {
            Option::None => Seq::<InternalOp>::empty(),
            Option::Some(crate::link::Closer::NotifyReactor) => seq![
                InternalOp::Msg(
                    Message::wrap_spec(Payload::PeerClosed(peer)),
                    TargetReactor::Reactor,
                ),
            ],
        },
    }
}

/// The table shapes after installing a link to `peer` with shape `sh`:
/// the peer's first entry replaced, or the new entry appended at the end.
pub open spec fn shapes_after_set(
    s: Seq<(ReactorID, Link, bool)>,
    peer: ReactorID,
    sh: (
        ReactorID,
        Seq<(u64, LinkAction)>,
        Seq<(u64, LinkAction)>,
        Option<crate::link::Closer>,
        ReactorID,
        ReactorID,
        bool,
    ),
) -> Seq<
    (
        ReactorID,
        Seq<(u64, LinkAction)>,
        Seq<(u64, LinkAction)>,
        Option<crate::link::Closer>,
        ReactorID,
        ReactorID,
        bool,
    ),
>
    decreases s.len(),
{
    if s.len() == 0 {
        seq![sh]
    } else if s[0].0 == peer {
        seq![sh] + s.drop_first().map_values(|e: (ReactorID, Link, bool)| link_shape(e))
    } else {
        seq![link_shape(s[0])] + shapes_after_set(s.drop_first(), peer, sh)
    }
}

/// The table shapes after removing the peer's first entry, if any.
pub open spec fn shapes_after_remove(s: Seq<(ReactorID, Link, bool)>, peer: ReactorID) -> Seq<
    (
        ReactorID,
        Seq<(u64, LinkAction)>,
        Seq<(u64, LinkAction)>,
        Option<crate::link::Closer>,
        ReactorID,
        ReactorID,
        bool,
    ),
>
    decreases s.len(),
{
    if s.len() == 0 {
        Seq::empty()
    } else if s[0].0 == peer {
        s.drop_first().map_values(|e: (ReactorID, Link, bool)| link_shape(e))
    } else {
        seq![link_shape(s[0])] + shapes_after_remove(s.drop_first(), peer)
    }
}

/// Installing at the peer's first position replaces exactly that shape.
proof fn lemma_shapes_set_at(
    s: Seq<(ReactorID, Link, bool)>,
    i: int,
    peer: ReactorID,
    sh: (
        ReactorID,
        Seq<(u64, LinkAction)>,
        Seq<(u64, LinkAction)>,
        Option<crate::link::Closer>,
        ReactorID,
        ReactorID,
        bool,
    ),
)
    requires
        0 <= i < s.len(),
        s[i].0 == peer,
        forall|j: int| 0 <= j < i ==> (#[trigger] s[j]).0 != peer,
    ensures
        shapes_after_set(s, peer, sh) == s.map_values(
            |e: (ReactorID, Link, bool)| link_shape(e),
        ).update(i, sh),
    decreases i,
{
    if i == 0 {
        assert(shapes_after_set(s, peer, sh) == seq![sh] + s.drop_first().map_values(
            |e: (ReactorID, Link, bool)| link_shape(e),
        ));
        assert(seq![sh] + s.drop_first().map_values(|e: (ReactorID, Link, bool)| link_shape(e))
            =~= s.map_values(|e: (ReactorID, Link, bool)| link_shape(e)).update(0, sh));
    } else {
        assert(forall|j: int| 0 <= j < s.drop_first().len()
            ==> #[trigger] s.drop_first()[j] == s[j + 1]);
        lemma_shapes_set_at(s.drop_first(), i - 1, peer, sh);
        assert(shapes_after_set(s, peer, sh) == seq![link_shape(s[0])] + shapes_after_set(
            s.drop_first(),
            peer,
            sh,
        ));
        assert(seq![link_shape(s[0])] + s.drop_first().map_values(
            |e: (ReactorID, Link, bool)| link_shape(e),
        ).update(i - 1, sh) =~= s.map_values(|e: (ReactorID, Link, bool)| link_shape(e)).update(
            i,
            sh,
        ));
    }
}

/// Installing a link to a peer without an entry appends its shape.
proof fn lemma_shapes_set_absent(
    s: Seq<(ReactorID, Link, bool)>,
    peer: ReactorID,
    sh: (
        ReactorID,
        Seq<(u64, LinkAction)>,
        Seq<(u64, LinkAction)>,
        Option<crate::link::Closer>,
        ReactorID,
        ReactorID,
        bool,
    ),
)
    requires
        forall|j: int| 0 <= j < s.len() ==> (#[trigger] s[j]).0 != peer,
    ensures
        shapes_after_set(s, peer, sh) == s.map_values(
            |e: (ReactorID, Link, bool)| link_shape(e),
        ).push(sh),
    decreases s.len(),
{
    if s.len() == 0 {
        assert(shapes_after_set(s, peer, sh) =~= s.map_values(
            |e: (ReactorID, Link, bool)| link_shape(e),
        ).push(sh));
    } else {
        assert(forall|j: int| 0 <= j < s.drop_first().len()
            ==> #[trigger] s.drop_first()[j] == s[j + 1]);
        lemma_shapes_set_absent(s.drop_first(), peer, sh);
        assert(seq![link_shape(s[0])] + s.drop_first().map_values(
            |e: (ReactorID, Link, bool)| link_shape(e),
        ).push(sh) =~= s.map_values(|e: (ReactorID, Link, bool)| link_shape(e)).push(sh));
    }
}

/// Removing at the peer's first position removes exactly that shape.
proof fn lemma_shapes_remove_at(s: Seq<(ReactorID, Link, bool)>, i: int, peer: ReactorID)
    requires
        0 <= i < s.len(),
        s[i].0 == peer,
        forall|j: int| 0 <= j < i ==> (#[trigger] s[j]).0 != peer,
    ensures
        shapes_after_remove(s, peer) == s.map_values(
            |e: (ReactorID, Link, bool)| link_shape(e),
        ).remove(i),
    decreases i,
{
    if i == 0 {
        assert(shapes_after_remove(s, peer) =~= s.map_values(
            |e: (ReactorID, Link, bool)| link_shape(e),
        ).remove(0));
    } else {
        assert(forall|j: int| 0 <= j < s.drop_first().len()
            ==> #[trigger] s.drop_first()[j] == s[j + 1]);
        lemma_shapes_remove_at(s.drop_first(), i - 1, peer);
        assert(seq![link_shape(s[0])] + s.drop_first().map_values(
            |e: (ReactorID, Link, bool)| link_shape(e),
        ).remove(i - 1) =~= s.map_values(|e: (ReactorID, Link, bool)| link_shape(e)).remove(i));
    }
}

/// Removing the entry of a peer without one changes nothing.
proof fn lemma_shapes_remove_absent(s: Seq<(ReactorID, Link, bool)>, peer: ReactorID)
    requires
        forall|j: int| 0 <= j < s.len() ==> (#[trigger] s[j]).0 != peer,
    ensures
        shapes_after_remove(s, peer) == s.map_values(
            |e: (ReactorID, Link, bool)| link_shape(e),
        ),
    decreases s.len(),
{
    if s.len() == 0 {
        assert(shapes_after_remove(s, peer) =~= s.map_values(
            |e: (ReactorID, Link, bool)| link_shape(e),
        ));
    } else {
        assert(forall|j: int| 0 <= j < s.drop_first().len()
            ==> #[trigger] s.drop_first()[j] == s[j + 1]);
        lemma_shapes_remove_absent(s.drop_first(), peer);
        assert(seq![link_shape(s[0])] + s.drop_first().map_values(
            |e: (ReactorID, Link, bool)| link_shape(e),
        ) =~= s.map_values(|e: (ReactorID, Link, bool)| link_shape(e)));
    }
}

/// Everything that identifies a link entry apart from its drained effect
/// buffer: the peer, the two tables, the closer, both ends, and the auto
/// mark.
pub open spec fn link_shape(e: (ReactorID, Link, bool)) -> (
    ReactorID,
    Seq<(u64, LinkAction)>,
    Seq<(u64, LinkAction)>,
    Option<crate::link::Closer>,
    ReactorID,
    ReactorID,
    bool,
) {
    (
        e.0,
        e.1.spec_internal(),
        e.1.spec_external(),
        e.1.spec_closer(),
        e.1.spec_source_id(),
        e.1.spec_target_id(),
        e.2,
    )
}

/// What one `step_op` call does: the relation between the driver and
/// broker before and after popping and carrying out one front operation.
pub open spec fn step_rel<C: Controller>(
    d0: ReactorDriver<C>,
    b0: Broker,
    d1: ReactorDriver<C>,
    b1: Broker,
) -> bool {
    &&& d1.wf()
    &&& d1.spec_id() == d0.spec_id()
    &&& b1.spec_runtime_id() == b0.spec_runtime_id()
    &&& (d0.spec_should_close() ==> d1.spec_should_close())
    &&& (broker::ids_distinct(b0.spec_actors()) ==> broker::ids_distinct(b1.spec_actors()))
    &&& (forall|x: ReactorID| #[trigger] broker::has_actor(b1.spec_actors(), x)
        == broker::has_actor(b0.spec_actors(), x))
    &&& d1.spec_queue().len() >= d0.spec_queue().len() - 1
    &&& d1.spec_queue().take(d0.spec_queue().len() - 1) == d0.spec_queue().drop_first()
    &&& ({
        let op = d0.spec_queue()[0];
        let rest = d0.spec_queue().drop_first();
        let shapes = d0.spec_links().map_values(|e: (ReactorID, Link, bool)| link_shape(e));
        &&& (op is Destroy ==> (d1.spec_should_close() && d1.spec_queue() == rest
            && d1.spec_links() == d0.spec_links() && d1.spec_behavior() == d0.spec_behavior()
            && b1.spec_actors() == b0.spec_actors()))
        &&& (op matches InternalOp::OpenLink(peer, params, auto) ==> (d1.spec_queue() == rest
            && d1.spec_behavior() == d0.spec_behavior() && d1.spec_should_close()
            == d0.spec_should_close() && b1.spec_actors() == b0.spec_actors()
            && d1.spec_links().map_values(|e: (ReactorID, Link, bool)| link_shape(e))
            == shapes_after_set(
            d0.spec_links(),
            peer,
            (
                peer,
                params.spec_internal(),
                params.spec_external(),
                params.spec_closer(),
                d0.spec_id(),
                peer,
                auto,
            ),
        )))
        &&& (op matches InternalOp::CloseLink(peer) ==> (d1.spec_behavior()
            == d0.spec_behavior() && d1.spec_should_close() == d0.spec_should_close()
            && b1.spec_actors() == b0.spec_actors() && d1.spec_links().map_values(
            |e: (ReactorID, Link, bool)| link_shape(e),
        ) == shapes_after_remove(d0.spec_links(), peer) && d1.spec_queue() == rest + closer_ops(
            link_lookup(d0.spec_links(), peer),
            peer,
        )))
        &&& (op matches InternalOp::CloseLinkHard(peer) ==> (d1.spec_queue() == rest
            && d1.spec_behavior() == d0.spec_behavior() && d1.spec_should_close()
            == d0.spec_should_close() && b1.spec_actors() == b0.spec_actors()
            && d1.spec_links().map_values(|e: (ReactorID, Link, bool)| link_shape(e))
            == shapes_after_remove(d0.spec_links(), peer)))
        &&& (op matches InternalOp::Msg(m, t) ==> ({
            &&& t == TargetReactor::Reactor ==> (d1.spec_links() == d0.spec_links()
                && d1.spec_should_close() == d0.spec_should_close())
            &&& t matches TargetReactor::Link(peer) ==> (d1.spec_behavior()
                == d0.spec_behavior() && d1.spec_should_close() == d0.spec_should_close()
                && d1.spec_links().map_values(|e: (ReactorID, Link, bool)| link_shape(e))
                == shapes && (link_lookup(d0.spec_links(), peer) is None ==> (d1.spec_queue()
                == rest && b1.spec_actors() == b0.spec_actors())) && (link_lookup(
                d0.spec_links(),
                peer,
            ) matches Some(l) ==> ({
                let eff = dispatch_effects(l.spec_internal(), m, d0.spec_id(), peer);
                d1.spec_queue() == rest + queued_ops(eff) && b1.spec_actors() == dispatch_all(
                    b0.spec_actors(),
                    b0.spec_runtime_id(),
                    outbound(eff),
                )
            })))
        }))
    })
}

/// The fuel-bounded drain: `n` front operations were carried out, one
/// `step_rel` step after another, stopping early once the queue is empty.
pub open spec fn drain_rel<C: Controller>(
    d0: ReactorDriver<C>,
    b0: Broker,
    d1: ReactorDriver<C>,
    b1: Broker,
    n: nat,
) -> bool
    decreases n,
{
    if n == 0 {
        d1 == d0 && b1 == b0
    } else if d0.spec_queue().len() == 0 {
        d1 == d0 && b1 == b0
    } else {
        exists|dm: ReactorDriver<C>, bm: Broker| #[trigger] step_rel(d0, b0, dm, bm)
            && drain_rel(dm, bm, d1, b1, (n - 1) as nat)
    }
}

/// Draining one more operation extends the chain at the back.
proof fn lemma_drain_rel_snoc<C: Controller>(
    d0: ReactorDriver<C>,
    b0: Broker,
    dm: ReactorDriver<C>,
    bm: Broker,
    d1: ReactorDriver<C>,
    b1: Broker,
    n: nat,
)
    requires
        drain_rel(d0, b0, dm, bm, n),
        dm.spec_queue().len() > 0,
        step_rel(dm, bm, d1, b1),
    ensures
        drain_rel(d0, b0, d1, b1, n + 1),
    decreases n,
{
    if n == 0 {
        assert(dm == d0 && bm == b0);
        assert(step_rel(d0, b0, d1, b1) && drain_rel(d1, b1, d1, b1, 0nat));
    } else if d0.spec_queue().len() == 0 {
        // the chain stopped on an empty queue, so no further step fits
        assert(dm == d0);
        assert(false);
    } else {
        let (dx, bx) = choose|dx: ReactorDriver<C>, bx: Broker| #[trigger] step_rel(
            d0,
            b0,
            dx,
            bx,
        ) && drain_rel(dx, bx, dm, bm, (n - 1) as nat);
        lemma_drain_rel_snoc(dx, bx, dm, bm, d1, b1, (n - 1) as nat);
    }
}

impl<C: Controller> ReactorDriver<C> {
    /// The reactor's identifier, as a specification value.
    pub closed spec fn spec_id(&self) -> ReactorID {
        self.id
    }

    /// The component state, as a specification value.
    pub closed spec fn spec_behavior(&self) -> Behavior<C> {
        self.behavior
    }

    /// The open links, as a specification value.
    pub closed spec fn spec_links(&self) -> Seq<(ReactorID, Link, bool)> {
        self.links@
    }

    /// The pending internal operations, as a specification value.
    pub closed spec fn spec_queue(&self) -> Seq<InternalOp> {
        self.queue@
    }

    /// Whether the reactor is shutting down, as a specification value.
    pub closed spec fn spec_should_close(&self) -> bool {
        self.should_close
    }

    /// The component invariants, every stored link wired to this reactor
    /// and drained of effects.
    pub open spec fn wf(&self) -> bool {
        self.spec_behavior().wf() && links_ok(self.spec_links(), self.spec_id())
    }

    /// The reactor's identifier.
    pub fn id(&self) -> (r: ReactorID)
        ensures
            r == self.spec_id(),
    {
        self.id
    }

    /// The peers of the open links, with each link's auto mark.
    pub fn link_peers(&self) -> (r: Vec<(ReactorID, bool)>)
        ensures
            r@ == self.spec_links().map_values(|e: (ReactorID, Link, bool)| (e.0, e.2)),
    {
        let mut out: Vec<(ReactorID, bool)> = Vec::new();
        let mut i: usize = 0;
        while i < self.links.len()
            invariant
                i <= self.links@.len(),
                out@ == self.spec_links().map_values(
                    |e: (ReactorID, Link, bool)| (e.0, e.2),
                ).take(i as int),
            decreases self.links@.len() - i,
        {
            out.push((self.links[i].0, self.links[i].2));
            i = i + 1;
            proof {
                assert(out@ =~= self.spec_links().map_values(
                    |e: (ReactorID, Link, bool)| (e.0, e.2),
                ).take(i as int));
            }
        }
        proof {
            assert(out@ =~= self.spec_links().map_values(
                |e: (ReactorID, Link, bool)| (e.0, e.2),
            ));
        }
        out
    }

    /// A fresh driver around a component: no links yet, and exactly the
    /// start-up message queued, so the component installs its links when
    /// the driver first runs.
    pub fn new(id: ReactorID, behavior: Behavior<C>) -> (r: ReactorDriver<C>)
        requires
            behavior.wf(),
        ensures
            r.spec_id() == id,
            r.spec_behavior() == behavior,
            r.spec_links() == Seq::<(ReactorID, Link, bool)>::empty(),
            r.spec_queue() == seq![
                InternalOp::Msg(
                    Message::wrap_spec(Payload::Initialize),
                    TargetReactor::Reactor,
                ),
            ],
            !r.spec_should_close(),
            r.wf(),
    {
        let mut queue: Vec<InternalOp> = Vec::new();
        queue.push(InternalOp::Msg(Message::wrap(Payload::Initialize), TargetReactor::Reactor));
        let r = ReactorDriver {
            id,
            behavior,
            links: Vec::new(),
            queue,
            should_close: false,
            external_handled: 0,
            internal_handled: 0,
        };
        proof {
            assert(r.spec_queue() =~= seq![
                InternalOp::Msg(
                    Message::wrap_spec(Payload::Initialize),
                    TargetReactor::Reactor,
                ),
            ]);
            assert(links_ok(r.spec_links(), r.spec_id()));
        }
        r
    }

    /// Carry a handler's effects out: sends go through the broker at once,
    /// in order; everything else is appended to the internal queue, in
    /// order.
    fn apply_effects(&mut self, broker: &mut Broker, effects: Vec<Effect>)
        ensures
            final(self).spec_id() == old(self).spec_id(),
            final(self).spec_behavior() == old(self).spec_behavior(),
            final(self).spec_links() == old(self).spec_links(),
            final(self).spec_should_close() == old(self).spec_should_close(),
            final(self).spec_queue() == old(self).spec_queue() + queued_ops(effects@),
            final(broker).spec_runtime_id() == old(broker).spec_runtime_id(),
            final(broker).spec_actors() == dispatch_all(
                old(broker).spec_actors(),
                old(broker).spec_runtime_id(),
                outbound(effects@),
            ),
    {
        let ghost effs = effects@;
        let ghost q0 = self.queue@;
        let ghost a0 = broker.spec_actors();
        let ghost rt = broker.spec_runtime_id();
        let mut effects = effects;
        let mut i: usize = 0;
        proof {
            assert(effects.len() == effs.len());
            assert(queued_ops(effs.take(0)) =~= Seq::<InternalOp>::empty());
            assert(outbound(effs.take(0)) =~= Seq::<Envelope>::empty());
            assert(q0 + queued_ops(effs.take(0)) =~= q0);
        }
        while effects.len() > 0
            invariant
                i <= effs.len(),
                effs.len() <= usize::MAX,
                effects@ == effs.skip(i as int),
                self.spec_id() == old(self).spec_id(),
                self.spec_behavior() == old(self).spec_behavior(),
                self.spec_links() == old(self).spec_links(),
                self.spec_should_close() == old(self).spec_should_close(),
                q0 == old(self).spec_queue(),
                a0 == old(broker).spec_actors(),
                rt == old(broker).spec_runtime_id(),
                self.spec_queue() == q0 + queued_ops(effs.take(i as int)),
                broker.spec_runtime_id() == rt,
                broker.spec_actors() == dispatch_all(a0, rt, outbound(effs.take(i as int))),
            decreases effects@.len(),
        {
            proof {
                assert(effs.skip(i as int)[0] == effs[i as int]);
                assert(effs.skip(i as int).drop_first() =~= effs.skip(i as int + 1));
                assert(i < effs.len());
            }
            let e = effects.remove(0);
            match e {
                Effect::External(env) => {
                    let _ = broker.dispatch(env);
                },
                Effect::Internal(m, t) => {
                    self.queue.push(InternalOp::Msg(m, t));
                },
                Effect::OpenLink(peer, p, auto) => {
                    self.queue.push(InternalOp::OpenLink(peer, p, auto));
                },
                Effect::CloseLink(peer) => {
                    self.queue.push(InternalOp::CloseLink(peer));
                },
                Effect::CloseLinkHard(peer) => {
                    self.queue.push(InternalOp::CloseLinkHard(peer));
                },
                Effect::Destroy => {
                    self.queue.push(InternalOp::Destroy);
                },
            }
            i = i + 1;
            proof {
                assert(effects@ =~= effs.skip(i as int));
                assert(effs.take(i as int).drop_last() =~= effs.take(i as int - 1));
                assert(effs.take(i as int).last() == effs[i as int - 1]);
                assert(effs.take(i as int) =~= effs.take(i as int - 1).push(effs[i as int - 1]));
                lemma_queued_ops_snoc(effs.take(i as int - 1), effs[i as int - 1]);
                lemma_outbound_snoc(effs.take(i as int - 1), effs[i as int - 1]);
                assert(seq![effs[i as int - 1]][0] == effs[i as int - 1]);
                assert(seq![effs[i as int - 1]].drop_first() =~= Seq::<Effect>::empty());
                assert(outbound(Seq::<Effect>::empty()) =~= Seq::<Envelope>::empty());
                assert(queued_ops(Seq::<Effect>::empty()) =~= Seq::<InternalOp>::empty());
                match effs[i as int - 1] {
                    Effect::External(env) => {
                        assert(outbound(seq![effs[i as int - 1]]) =~= seq![env]);
                        assert(queued_ops(seq![effs[i as int - 1]])
                            =~= Seq::<InternalOp>::empty());
                        lemma_dispatch_all_snoc(a0, rt, outbound(effs.take(i as int - 1)), env);
                        assert(outbound(effs.take(i as int)) =~= outbound(
                            effs.take(i as int - 1),
                        ).push(env));
                        assert(self.spec_queue() =~= q0 + queued_ops(effs.take(i as int)));
                    },
                    _ => {
                        assert(outbound(seq![effs[i as int - 1]]) =~= Seq::<Envelope>::empty());
                        assert(outbound(effs.take(i as int)) =~= outbound(
                            effs.take(i as int - 1),
                        ));
                        assert(self.spec_queue() =~= q0 + queued_ops(effs.take(i as int)));
                    },
                }
            }
        }
        proof {
            assert(effs.skip(i as int).len() == 0);
            assert(i == effs.len());
            assert(effs.take(i as int) =~= effs);
        }
    }

    /// Run one message through the reactor's own table.
    fn dispatch_to_reactor(&mut self, broker: &mut Broker, m: Message)
        requires
            old(self).wf(),
        ensures
            final(self).wf(),
            final(self).spec_id() == old(self).spec_id(),
            final(broker).spec_runtime_id() == old(broker).spec_runtime_id(),
            broker::ids_distinct(old(broker).spec_actors()) ==> broker::ids_distinct(
                final(broker).spec_actors(),
            ),
            final(self).spec_should_close() == old(self).spec_should_close(),
            final(self).spec_links() == old(self).spec_links(),
            final(self).spec_queue().len() >= old(self).spec_queue().len(),
            final(self).spec_queue().take(old(self).spec_queue().len() as int)
                == old(self).spec_queue(),
            forall|x: ReactorID| #[trigger] broker::has_actor(final(broker).spec_actors(), x)
                == broker::has_actor(old(broker).spec_actors(), x),
    {
        let mut handle = ReactorHandle::new(self.id);
        self.behavior.handle(&mut handle, m);
        let effects = handle.effects;
        let ghost pre = broker.spec_actors();
        let ghost effs = effects@;
        self.apply_effects(broker, effects);
        proof {
            if broker::ids_distinct(pre) {
                lemma_dispatch_all_preserves_distinct(
                    pre,
                    broker.spec_runtime_id(),
                    outbound(effs),
                );
            }
            lemma_dispatch_all_preserves_registered(pre, broker.spec_runtime_id(), outbound(effs));
            assert(final(self).spec_queue().take(old(self).spec_queue().len() as int)
                =~= old(self).spec_queue());
        }
    }

    /// Run one message through one link's table; `internal` picks the
    /// side. The handler's effects are carried out: sends go through the
    /// broker in order, everything else joins the internal queue in
    /// order, and the link itself keeps its shape. A message for a peer
    /// without a link is dropped silently.
    fn dispatch_to_link(&mut self, broker: &mut Broker, peer: ReactorID, m: Message, internal: bool)
        requires
            old(self).wf(),
        ensures
            final(self).wf(),
            final(self).spec_id() == old(self).spec_id(),
            final(self).spec_behavior() == old(self).spec_behavior(),
            final(broker).spec_runtime_id() == old(broker).spec_runtime_id(),
            broker::ids_distinct(old(broker).spec_actors()) ==> broker::ids_distinct(
                final(broker).spec_actors(),
            ),
            final(self).spec_should_close() == old(self).spec_should_close(),
            forall|x: ReactorID| #[trigger] broker::has_actor(final(broker).spec_actors(), x)
                == broker::has_actor(old(broker).spec_actors(), x),
            final(self).spec_links().map_values(|e: (ReactorID, Link, bool)| link_shape(e))
                == old(self).spec_links().map_values(
                |e: (ReactorID, Link, bool)| link_shape(e),
            ),
            link_lookup(old(self).spec_links(), peer) is None ==> (*final(self) == *old(self)
                && final(broker).spec_actors() == old(broker).spec_actors()),
            (link_lookup(old(self).spec_links(), peer) matches Some(l) ==> ({
                let eff = dispatch_effects(
                    if internal {
                        l.spec_internal()
                    } else {
                        l.spec_external()
                    },
                    m,
                    old(self).spec_id(),
                    peer,
                );
                final(self).spec_queue() == old(self).spec_queue() + queued_ops(eff)
                    && final(broker).spec_actors() == dispatch_all(
                    old(broker).spec_actors(),
                    old(broker).spec_runtime_id(),
                    outbound(eff),
                )
            })),
    {
        let ghost links0 = self.links@;
        let mut i: usize = 0;
        let n = self.links.len();
        proof {
            assert(links0.skip(0) =~= links0);
        }
        while i < n
            invariant
                i <= n,
                n == self.links@.len(),
                self.wf(),
                self.spec_id() == old(self).spec_id(),
                *self == *old(self),
                *broker == *old(broker),
                links0 == old(self).spec_links(),
                link_lookup(links0, peer) == link_lookup(links0.skip(i as int), peer),
                forall|j: int| 0 <= j < i ==> #[trigger] links0[j].0 != peer,
            decreases n - i,
        {
            proof {
                assert(links0.skip(i as int)[0] == links0[i as int]);
                assert(links0.skip(i as int).drop_first() =~= links0.skip(i as int + 1));
            }
            if self.links[i].0 == peer {
                let entry = self.links.remove(i);
                let lid = entry.0;
                let mut link = entry.1;
                let auto = entry.2;
                proof {
                    assert(links0[i as int].1.spec_effects() =~= Seq::<Effect>::empty());
                    assert(links0[i as int].1.spec_source_id() == old(self).spec_id());
                    assert(links0[i as int].1.spec_target_id() == peer);
                }
                if internal {
                    link.handle(LinkOperation::Internal(m));
                } else {
                    link.handle(LinkOperation::External(m));
                }
                let effects = link.take_effects();
                let ghost link_g = link;
                self.links.insert(i, (lid, link, auto));
                proof {
                    assert(effects@ =~= dispatch_effects(
                        if internal {
                            links0[i as int].1.spec_internal()
                        } else {
                            links0[i as int].1.spec_external()
                        },
                        m,
                        old(self).spec_id(),
                        peer,
                    ));
                    lemma_links_ok_remove(links0, old(self).spec_id(), i as int);
                    lemma_links_ok_insert(
                        links0.remove(i as int),
                        old(self).spec_id(),
                        i as int,
                        (lid, link_g, auto),
                    );
                    assert(self.spec_links() == links0.remove(i as int).insert(
                        i as int,
                        (lid, link_g, auto),
                    ));
                    assert(self.spec_links().map_values(
                        |e: (ReactorID, Link, bool)| link_shape(e),
                    ) =~= links0.map_values(|e: (ReactorID, Link, bool)| link_shape(e)));
                }
                let ghost pre = broker.spec_actors();
                let ghost effs = effects@;
                self.apply_effects(broker, effects);
                proof {
                    if broker::ids_distinct(pre) {
                        lemma_dispatch_all_preserves_distinct(
                            pre,
                            broker.spec_runtime_id(),
                            outbound(effs),
                        );
                    }
                    lemma_dispatch_all_preserves_registered(
                        pre,
                        broker.spec_runtime_id(),
                        outbound(effs),
                    );
                }
                return ;
            }
            i = i + 1;
        }
        proof {
            assert(links0.skip(i as int) =~= Seq::<(ReactorID, Link, bool)>::empty());
        }
    }

    /// Process one internal operation.
    /// Pop and carry out the front internal operation: a message runs
    /// through the reactor's own table or the named link's internal
    /// table, an open installs the link keyed by its peer, a close
    /// removes it — running its closer first, at most once — a hard close
    /// removes it silently, and a destroy order starts the shutdown. The
    /// rest of the queue survives at the front, in order.
    pub fn step_op(&mut self, broker: &mut Broker)
        requires
            old(self).wf(),
            old(self).spec_queue().len() > 0,
        ensures
            final(self).wf(),
            final(self).spec_id() == old(self).spec_id(),
            final(broker).spec_runtime_id() == old(broker).spec_runtime_id(),
            old(self).spec_should_close() ==> final(self).spec_should_close(),
            broker::ids_distinct(old(broker).spec_actors()) ==> broker::ids_distinct(
                final(broker).spec_actors(),
            ),
            forall|x: ReactorID| #[trigger] broker::has_actor(final(broker).spec_actors(), x)
                == broker::has_actor(old(broker).spec_actors(), x),
            final(self).spec_queue().len() >= old(self).spec_queue().len() - 1,
            final(self).spec_queue().take(old(self).spec_queue().len() - 1)
                == old(self).spec_queue().drop_first(),
            ({
                let op = old(self).spec_queue()[0];
                let rest = old(self).spec_queue().drop_first();
                let shapes = old(self).spec_links().map_values(
                    |e: (ReactorID, Link, bool)| link_shape(e),
                );
                &&& (op is Destroy ==> (final(self).spec_should_close()
                    && final(self).spec_queue() == rest
                    && final(self).spec_links() == old(self).spec_links()
                    && final(self).spec_behavior() == old(self).spec_behavior()
                    && final(broker).spec_actors() == old(broker).spec_actors()))
                &&& (op matches InternalOp::OpenLink(peer, params, auto) ==> (
                    final(self).spec_queue() == rest
                    && final(self).spec_behavior() == old(self).spec_behavior()
                    && final(self).spec_should_close() == old(self).spec_should_close()
                    && final(broker).spec_actors() == old(broker).spec_actors()
                    && final(self).spec_links().map_values(
                        |e: (ReactorID, Link, bool)| link_shape(e),
                    ) == shapes_after_set(
                        old(self).spec_links(),
                        peer,
                        (
                            peer,
                            params.spec_internal(),
                            params.spec_external(),
                            params.spec_closer(),
                            old(self).spec_id(),
                            peer,
                            auto,
                        ),
                    )))
                &&& (op matches InternalOp::CloseLink(peer) ==> (
                    final(self).spec_behavior() == old(self).spec_behavior()
                    && final(self).spec_should_close() == old(self).spec_should_close()
                    && final(broker).spec_actors() == old(broker).spec_actors()
                    && final(self).spec_links().map_values(
                        |e: (ReactorID, Link, bool)| link_shape(e),
                    ) == shapes_after_remove(old(self).spec_links(), peer)
                    && final(self).spec_queue() == rest + closer_ops(
                        link_lookup(old(self).spec_links(), peer),
                        peer,
                    )))
                &&& (op matches InternalOp::CloseLinkHard(peer) ==> (
                    final(self).spec_queue() == rest
                    && final(self).spec_behavior() == old(self).spec_behavior()
                    && final(self).spec_should_close() == old(self).spec_should_close()
                    && final(broker).spec_actors() == old(broker).spec_actors()
                    && final(self).spec_links().map_values(
                        |e: (ReactorID, Link, bool)| link_shape(e),
                    ) == shapes_after_remove(old(self).spec_links(), peer)))
                &&& (op matches InternalOp::Msg(m, t) ==> ({
                    &&& t == TargetReactor::Reactor ==> (final(self).spec_links()
                        == old(self).spec_links() && final(self).spec_should_close()
                        == old(self).spec_should_close())
                    &&& t matches TargetReactor::Link(peer) ==> (final(self).spec_behavior()
                        == old(self).spec_behavior()
                        && final(self).spec_should_close() == old(self).spec_should_close()
                        && final(self).spec_links().map_values(
                            |e: (ReactorID, Link, bool)| link_shape(e),
                        ) == shapes
                        && (link_lookup(old(self).spec_links(), peer) is None ==> (
                            final(self).spec_queue() == rest
                            && final(broker).spec_actors() == old(broker).spec_actors()))
                        && (link_lookup(old(self).spec_links(), peer) matches Some(l) ==> ({
                            let eff = dispatch_effects(
                                l.spec_internal(),
                                m,
                                old(self).spec_id(),
                                peer,
                            );
                            final(self).spec_queue() == rest + queued_ops(eff)
                                && final(broker).spec_actors() == dispatch_all(
                                old(broker).spec_actors(),
                                old(broker).spec_runtime_id(),
                                outbound(eff),
                            )
                        })))
                }))
            }),
    {
        let op = self.queue.remove(0);
        self.internal_handled = if self.internal_handled < u64::MAX {
            self.internal_handled + 1
        } else {
            self.internal_handled
        };
        let ghost rest = old(self).spec_queue().drop_first();
        proof {
            assert(self.queue@ =~= rest);
            assert(rest.take(rest.len() as int) =~= rest);
        }
        match op {
            InternalOp::Msg(m, TargetReactor::Reactor) => {
                self.dispatch_to_reactor(broker, m);
            },
            InternalOp::Msg(m, TargetReactor::Link(peer)) => {
                self.dispatch_to_link(broker, peer, m, true);
                proof {
                    if link_lookup(old(self).spec_links(), peer) is None {
                        assert(self.spec_queue() =~= rest);
                    }
                }
            },
            InternalOp::OpenLink(peer, params, auto) => {
                let ghost params_g = params;
                let handles = LinkHandle::new(self.id, peer);
                let link = Link::new(handles, params);
                let ghost link_g = link;
                let ghost links0 = self.links@;
                let mut i: usize = 0;
                let n = self.links.len();
                while i < n
                    invariant
                        i <= n,
                        n == self.links@.len(),
                        self.wf(),
                        self.spec_id() == old(self).spec_id(),
                        self.spec_should_close() == old(self).spec_should_close(),
                        self.spec_behavior() == old(self).spec_behavior(),
                        self.spec_queue() == rest,
                        old(self).spec_queue().len() > 0,
                        rest == old(self).spec_queue().drop_first(),
                        rest.take(rest.len() as int) == rest,
                        *broker == *old(broker),
                        self.links@ == links0,
                        links0 == old(self).spec_links(),
                        forall|j: int| 0 <= j < i ==> (#[trigger] links0[j]).0 != peer,
                        old(self).spec_queue()[0] == InternalOp::OpenLink(peer, params_g, auto),
                        link == link_g,
                        link_g.spec_effects() == Seq::<Effect>::empty(),
                        link_g.spec_source_id() == old(self).spec_id(),
                        link_g.spec_target_id() == peer,
                        link_g.spec_internal() == params_g.spec_internal(),
                        link_g.spec_external() == params_g.spec_external(),
                        link_g.spec_closer() == params_g.spec_closer(),
                    decreases n - i,
                {
                    if self.links[i].0 == peer {
                        self.links.remove(i);
                        self.links.insert(i, (peer, link, auto));
                        proof {
                            lemma_links_ok_remove(links0, old(self).spec_id(), i as int);
                            lemma_links_ok_insert(
                                links0.remove(i as int),
                                old(self).spec_id(),
                                i as int,
                                (peer, link_g, auto),
                            );
                            assert(self.spec_links() == links0.remove(i as int).insert(
                                i as int,
                                (peer, link_g, auto),
                            ));
                            lemma_shapes_set_at(
                                links0,
                                i as int,
                                peer,
                                (
                                    peer,
                                    params_g.spec_internal(),
                                    params_g.spec_external(),
                                    params_g.spec_closer(),
                                    old(self).spec_id(),
                                    peer,
                                    auto,
                                ),
                            );
                            assert(self.spec_links().map_values(
                                |e: (ReactorID, Link, bool)| link_shape(e),
                            ) =~= links0.map_values(
                                |e: (ReactorID, Link, bool)| link_shape(e),
                            ).update(
                                i as int,
                                (
                                    peer,
                                    params_g.spec_internal(),
                                    params_g.spec_external(),
                                    params_g.spec_closer(),
                                    old(self).spec_id(),
                                    peer,
                                    auto,
                                ),
                            ));
                        }
                        return ;
                    }
                    i = i + 1;
                }
                self.links.push((peer, link, auto));
                proof {
                    lemma_links_ok_insert(
                        links0,
                        old(self).spec_id(),
                        links0.len() as int,
                        (peer, link_g, auto),
                    );
                    assert(self.spec_links() =~= links0.insert(
                        links0.len() as int,
                        (peer, link_g, auto),
                    ));
                    lemma_shapes_set_absent(
                        links0,
                        peer,
                        (
                            peer,
                            params_g.spec_internal(),
                            params_g.spec_external(),
                            params_g.spec_closer(),
                            old(self).spec_id(),
                            peer,
                            auto,
                        ),
                    );
                    assert(self.spec_links().map_values(
                        |e: (ReactorID, Link, bool)| link_shape(e),
                    ) =~= links0.map_values(
                        |e: (ReactorID, Link, bool)| link_shape(e),
                    ).push(
                        (
                            peer,
                            params_g.spec_internal(),
                            params_g.spec_external(),
                            params_g.spec_closer(),
                            old(self).spec_id(),
                            peer,
                            auto,
                        ),
                    ));
                }
            },
            InternalOp::CloseLink(peer) => {
                let ghost links0 = self.links@;
                let mut i: usize = 0;
                let n = self.links.len();
                proof {
                    assert(links0.skip(0) =~= links0);
                }
                while i < n
                    invariant
                        i <= n,
                        n == self.links@.len(),
                        self.wf(),
                        self.spec_id() == old(self).spec_id(),
                        self.spec_should_close() == old(self).spec_should_close(),
                        self.spec_behavior() == old(self).spec_behavior(),
                        self.spec_queue() == rest,
                        old(self).spec_queue().len() > 0,
                        rest == old(self).spec_queue().drop_first(),
                        rest.take(rest.len() as int) == rest,
                        *broker == *old(broker),
                        self.links@ == links0,
                        links0 == old(self).spec_links(),
                        forall|j: int| 0 <= j < i ==> (#[trigger] links0[j]).0 != peer,
                        old(self).spec_queue()[0] == InternalOp::CloseLink(peer),
                        link_lookup(links0, peer) == link_lookup(links0.skip(i as int), peer),
                    decreases n - i,
                {
                    proof {
                        assert(links0.skip(i as int)[0] == links0[i as int]);
                        assert(links0.skip(i as int).drop_first() =~= links0.skip(i as int + 1));
                    }
                    if self.links[i].0 == peer {
                        let entry = self.links.remove(i);
                        proof {
                            lemma_links_ok_remove(links0, old(self).spec_id(), i as int);
                            lemma_shapes_remove_at(links0, i as int, peer);
                        }
                        let mut link = entry.1;
                        proof {
                            assert(links0[i as int].1.spec_effects() =~= Seq::<Effect>::empty());
                        }
                        link.run_closer();
                        let effects = link.take_effects();
                        let ghost pre = broker.spec_actors();
                        let ghost effs = effects@;
                        self.apply_effects(broker, effects);
                        proof {
                            if broker::ids_distinct(pre) {
                                lemma_dispatch_all_preserves_distinct(
                                    pre,
                                    broker.spec_runtime_id(),
                                    outbound(effs),
                                );
                            }
                            lemma_dispatch_all_preserves_registered(
                                pre,
                                broker.spec_runtime_id(),
                                outbound(effs),
                            );
                            assert(link_lookup(links0, peer) == Some(links0[i as int].1));
                            match links0[i as int].1.spec_closer() {
                                Option::None => {
                                    assert(effs =~= Seq::<Effect>::empty());
                                    assert(queued_ops(effs) =~= Seq::<InternalOp>::empty());
                                    assert(outbound(effs) =~= Seq::<Envelope>::empty());
                                },
                                Option::Some(crate::link::Closer::NotifyReactor) => {
                                    assert(effs =~= seq![
                                        Effect::Internal(
                                            Message::wrap_spec(Payload::PeerClosed(peer)),
                                            TargetReactor::Reactor,
                                        ),
                                    ]);
                                    assert(effs[0] == Effect::Internal(
                                        Message::wrap_spec(Payload::PeerClosed(peer)),
                                        TargetReactor::Reactor,
                                    ));
                                    assert(effs.drop_first() =~= Seq::<Effect>::empty());
                                    assert(queued_ops(effs.drop_first())
                                        =~= Seq::<InternalOp>::empty());
                                    assert(outbound(effs.drop_first())
                                        =~= Seq::<Envelope>::empty());
                                    assert(queued_ops(effs) =~= seq![
                                        InternalOp::Msg(
                                            Message::wrap_spec(Payload::PeerClosed(peer)),
                                            TargetReactor::Reactor,
                                        ),
                                    ]);
                                    assert(outbound(effs) =~= Seq::<Envelope>::empty());
                                },
                            }
                            assert(self.spec_queue() =~= rest + closer_ops(
                                link_lookup(links0, peer),
                                peer,
                            ));
                            assert(broker.spec_actors() == pre);
                            assert(self.spec_queue().take(rest.len() as int) =~= rest);
                        }
                        return ;
                    }
                    i = i + 1;
                }
                proof {
                    assert(links0.skip(i as int) =~= Seq::<(ReactorID, Link, bool)>::empty());
                    lemma_shapes_remove_absent(links0, peer);
                    assert(rest + closer_ops(link_lookup(links0, peer), peer) =~= rest);
                }
            },
            InternalOp::CloseLinkHard(peer) => {
                let ghost links0 = self.links@;
                let mut i: usize = 0;
                let n = self.links.len();
                while i < n
                    invariant
                        i <= n,
                        n == self.links@.len(),
                        self.wf(),
                        self.spec_id() == old(self).spec_id(),
                        self.spec_should_close() == old(self).spec_should_close(),
                        self.spec_behavior() == old(self).spec_behavior(),
                        self.spec_queue() == rest,
                        old(self).spec_queue().len() > 0,
                        rest == old(self).spec_queue().drop_first(),
                        rest.take(rest.len() as int) == rest,
                        *broker == *old(broker),
                        self.links@ == links0,
                        links0 == old(self).spec_links(),
                        forall|j: int| 0 <= j < i ==> (#[trigger] links0[j]).0 != peer,
                        old(self).spec_queue()[0] == InternalOp::CloseLinkHard(peer),
                    decreases n - i,
                {
                    if self.links[i].0 == peer {
                        self.links.remove(i);
                        proof {
                            lemma_links_ok_remove(links0, old(self).spec_id(), i as int);
                            lemma_shapes_remove_at(links0, i as int, peer);
                        }
                        return ;
                    }
                    i = i + 1;
                }
                proof {
                    lemma_shapes_remove_absent(links0, peer);
                }
            },
            InternalOp::Destroy => {
                self.should_close = true;
            },
        }
    }

    /// Drain the internal queue — one `step_op` per pending operation,
    /// front first — spending at most `fuel` operations; reports whether
    /// the queue was drained to empty. An empty queue is left exactly as
    /// it was found.
    pub fn handle_internal_queue(&mut self, broker: &mut Broker, fuel: usize) -> (drained: bool)
        requires
            old(self).wf(),
        ensures
            final(self).wf(),
            final(self).spec_id() == old(self).spec_id(),
            final(broker).spec_runtime_id() == old(broker).spec_runtime_id(),
            drained == (final(self).spec_queue().len() == 0),
            old(self).spec_should_close() ==> final(self).spec_should_close(),
            broker::ids_distinct(old(broker).spec_actors()) ==> broker::ids_distinct(
                final(broker).spec_actors(),
            ),
            forall|x: ReactorID| #[trigger] broker::has_actor(final(broker).spec_actors(), x)
                == broker::has_actor(old(broker).spec_actors(), x),
            old(self).spec_queue().len() == 0 ==> (*final(self) == *old(self)
                && final(broker).spec_actors() == old(broker).spec_actors()),
            fuel == 0 ==> (*final(self) == *old(self) && final(broker).spec_actors() == old(
                broker,
            ).spec_actors()),
            exists|n: nat| n <= fuel && #[trigger] drain_rel(
                *old(self),
                *old(broker),
                *final(self),
                *final(broker),
                n,
            ) && (n < fuel ==> final(self).spec_queue().len() == 0),
    {
        let mut spent: usize = 0;
        proof {
            assert(drain_rel(*old(self), *old(broker), *self, *broker, 0nat));
        }
        while self.queue.len() > 0 && spent < fuel
            invariant
                self.wf(),
                self.spec_id() == old(self).spec_id(),
                broker.spec_runtime_id() == old(broker).spec_runtime_id(),
                spent <= fuel,
                old(self).spec_should_close() ==> self.spec_should_close(),
                old(self).spec_queue().len() == 0 ==> (*self == *old(self)
                    && broker.spec_actors() == old(broker).spec_actors()),
                fuel == 0 ==> (*self == *old(self) && broker.spec_actors() == old(
                    broker,
                ).spec_actors()),
                broker::ids_distinct(old(broker).spec_actors()) ==> broker::ids_distinct(
                    broker.spec_actors(),
                ),
                forall|x: ReactorID| #[trigger] broker::has_actor(broker.spec_actors(), x)
                    == broker::has_actor(old(broker).spec_actors(), x),
                drain_rel(*old(self), *old(broker), *self, *broker, spent as nat),
            decreases fuel - spent,
        {
            let ghost pre_d = *self;
            let ghost pre_b = *broker;
            self.step_op(broker);
            proof {
                assert(step_rel(pre_d, pre_b, *self, *broker));
                lemma_drain_rel_snoc(
                    *old(self),
                    *old(broker),
                    pre_d,
                    pre_b,
                    *self,
                    *broker,
                    spent as nat,
                );
            }
            spent = spent + 1;
        }
        proof {
            assert(spent as nat <= fuel as nat);
            if (spent as nat) < fuel as nat {
                assert(self.spec_queue().len() == 0);
            }
        }
        self.queue.len() == 0
    }

    /// Handle one external message: the sender's identifier picks the
    /// link, the link's external table picks the handler; the handler's
    /// sends go out through the broker in order and everything else joins
    /// the internal queue in order. A message from a peer without a link
    /// is dropped silently.
    pub fn handle_external_message(&mut self, broker: &mut Broker, env: Envelope)
        requires
            old(self).wf(),
        ensures
            final(self).wf(),
            final(self).spec_id() == old(self).spec_id(),
            final(self).spec_behavior() == old(self).spec_behavior(),
            final(self).spec_should_close() == old(self).spec_should_close(),
            final(broker).spec_runtime_id() == old(broker).spec_runtime_id(),
            broker::ids_distinct(old(broker).spec_actors()) ==> broker::ids_distinct(
                final(broker).spec_actors(),
            ),
            forall|x: ReactorID| #[trigger] broker::has_actor(final(broker).spec_actors(), x)
                == broker::has_actor(old(broker).spec_actors(), x),
            final(self).spec_links().map_values(|e: (ReactorID, Link, bool)| link_shape(e))
                == old(self).spec_links().map_values(
                |e: (ReactorID, Link, bool)| link_shape(e),
            ),
            link_lookup(old(self).spec_links(), env.from) is None ==> (final(self).spec_queue()
                == old(self).spec_queue() && final(broker).spec_actors() == old(
                broker,
            ).spec_actors()),
            (link_lookup(old(self).spec_links(), env.from) matches Some(l) ==> ({
                let eff = dispatch_effects(l.spec_external(), env.msg, old(self).spec_id(), env.from);
                final(self).spec_queue() == old(self).spec_queue() + queued_ops(eff)
                    && final(broker).spec_actors() == dispatch_all(
                    old(broker).spec_actors(),
                    old(broker).spec_runtime_id(),
                    outbound(eff),
                )
            })),
    {
        self.external_handled = if self.external_handled < u64::MAX {
            self.external_handled + 1
        } else {
            self.external_handled
        };
        let from = env.from;
        self.dispatch_to_link(broker, from, env.msg, false);
    }

    /// Whether any non-auto link is still open.
    fn has_non_auto_link(&self) -> (r: bool)
        ensures
            r == exists_non_auto(self.spec_links()),
    {
        let mut i: usize = 0;
        proof {
            assert(self.spec_links().skip(0) =~= self.spec_links());
        }
        while i < self.links.len()
            invariant
                i <= self.links@.len(),
                exists_non_auto(self.spec_links()) == exists_non_auto(
                    self.spec_links().skip(i as int),
                ),
            decreases self.links@.len() - i,
        {
            proof {
                assert(self.spec_links().skip(i as int)[0] == self.spec_links()[i as int]);
                assert(self.spec_links().skip(i as int).drop_first() =~= self.spec_links().skip(
                    i as int + 1,
                ));
            }
            if !self.links[i].2 {
                return true;
            }
            i = i + 1;
        }
        proof {
            assert(self.spec_links().skip(i as int) =~= Seq::<(ReactorID, Link, bool)>::empty());
        }
        false
    }

    /// One scheduling step of the reactor's event loop: drain the internal
    /// queue; a closing reactor then unregisters and exits. A reactor with
    /// no non-auto link left tears its remaining links down, sends itself
    /// one last drop message, flushes it and exits too — auto links never
    /// keep a reactor alive. Otherwise one external message, if any
    /// arrived, is dispatched.
    ///
    /// A reactor that has received its destroy order exits within this one
    /// step: the status is then `Ready` and the broker's registry no
    /// longer carries the reactor, so no further message can be dispatched
    /// to it.
    pub fn poll(&mut self, broker: &mut Broker, fuel: usize) -> (status: PollStatus)
        requires
            old(self).wf(),
            broker::ids_distinct(old(broker).spec_actors()),
        ensures
            final(self).wf(),
            final(self).spec_id() == old(self).spec_id(),
            final(broker).spec_runtime_id() == old(broker).spec_runtime_id(),
            broker::ids_distinct(final(broker).spec_actors()),
            status == PollStatus::Ready ==> !final(broker).registered(old(self).spec_id()),
            status == PollStatus::Ready ==> final(self).spec_should_close(),
            status == PollStatus::Ready ==> (old(self).spec_should_close() || old(
                self,
            ).spec_queue().len() > 0 || !exists_non_auto(old(self).spec_links())),
            forall|x: ReactorID| x != old(self).spec_id() ==> #[trigger] broker::has_actor(
                final(broker).spec_actors(),
                x,
            ) == broker::has_actor(old(broker).spec_actors(), x),
            status == PollStatus::Pending ==> (forall|x: ReactorID| #[trigger] broker::has_actor(
                final(broker).spec_actors(),
                x,
            ) == broker::has_actor(old(broker).spec_actors(), x)),
            old(self).spec_should_close() && old(self).spec_queue().len() < fuel ==> status
                == PollStatus::Ready,
            old(self).spec_queue().len() == 0 && !old(self).spec_should_close()
                && !exists_non_auto(old(self).spec_links()) ==> status == PollStatus::Ready,
            !old(self).spec_should_close() && fuel == 0 && old(self).spec_queue().len() > 0 ==> (
                status == PollStatus::Pending && *final(self) == *old(self)
                && final(broker).spec_actors() == old(broker).spec_actors()),
            old(self).spec_queue().len() == 0 && !old(self).spec_should_close()
                && exists_non_auto(old(self).spec_links()) ==> ({
                let mb = old(broker).mailbox(old(self).spec_id());
                &&& status == PollStatus::Pending
                &&& final(self).spec_links().map_values(
                    |e: (ReactorID, Link, bool)| link_shape(e),
                ) == old(self).spec_links().map_values(
                    |e: (ReactorID, Link, bool)| link_shape(e),
                )
                &&& (mb.len() == 0 ==> (*final(self) == *old(self) && final(broker).spec_actors()
                    == old(broker).spec_actors()))
                &&& (mb.len() > 0 ==> ({
                    let env = mb[0];
                    let popped = broker::with_mailbox(
                        old(broker).spec_actors(),
                        old(self).spec_id(),
                        mb.drop_first(),
                    );
                    &&& (link_lookup(old(self).spec_links(), env.from) is None ==> (
                        final(self).spec_queue() == Seq::<InternalOp>::empty()
                        && final(broker).spec_actors() == popped))
                    &&& (link_lookup(old(self).spec_links(), env.from) matches Some(l) ==> ({
                        let eff = dispatch_effects(
                            l.spec_external(),
                            env.msg,
                            old(self).spec_id(),
                            env.from,
                        );
                        final(self).spec_queue() == queued_ops(eff)
                            && final(broker).spec_actors() == dispatch_all(
                            popped,
                            old(broker).spec_runtime_id(),
                            outbound(eff),
                        )
                    }))
                }))
            }),
    {
        let drained = self.handle_internal_queue(broker, fuel);
        if self.should_close {
            let ghost pre = broker.spec_actors();
            broker.unregister(self.id);
            proof {
                broker::lemma_ids_distinct_without(pre, self.spec_id());
                assert forall|x: ReactorID| x != old(self).spec_id() implies broker::has_actor(
                    broker.spec_actors(),
                    x,
                ) == broker::has_actor(old(broker).spec_actors(), x) by {
                    assert(broker::has_actor(pre, x) == broker::has_actor(
                        old(broker).spec_actors(),
                        x,
                    ));
                }
            }
            return PollStatus::Ready;
        }
        if !drained {
            // the internal queue is the atomic unit: no external message
            // is pulled while operations are still pending
            return PollStatus::Pending;
        }
        if !self.has_non_auto_link() {
            // auto links never keep a reactor alive: tear the remaining
            // ones down, closers included, send the last drop message,
            // flush it and exit
            while self.links.len() > 0
                invariant
                    self.wf(),
                    self.spec_id() == old(self).spec_id(),
                    broker.spec_runtime_id() == old(broker).spec_runtime_id(),
                    broker::ids_distinct(broker.spec_actors()),
                    forall|x: ReactorID| #[trigger] broker::has_actor(broker.spec_actors(), x)
                        == broker::has_actor(old(broker).spec_actors(), x),
                decreases self.links@.len(),
            {
                let ghost before = self.links@;
                let entry = self.links.remove(0);
                proof {
                    lemma_links_ok_remove(before, self.spec_id(), 0);
                }
                let mut link = entry.1;
                link.run_closer();
                let effects = link.take_effects();
                let ghost pre = broker.spec_actors();
                self.apply_effects(broker, effects);
                proof {
                    lemma_dispatch_all_preserves_distinct(
                        pre,
                        broker.spec_runtime_id(),
                        outbound(effects@),
                    );
                    lemma_dispatch_all_preserves_registered(
                        pre,
                        broker.spec_runtime_id(),
                        outbound(effects@),
                    );
                }
            }
            let mut handle = ReactorHandle::new(self.id);
            handle.send_internal(Payload::Drop, TargetReactor::Reactor);
            let effects = handle.effects;
            let ghost pre = broker.spec_actors();
            self.apply_effects(broker, effects);
            proof {
                lemma_dispatch_all_preserves_distinct(
                    pre,
                    broker.spec_runtime_id(),
                    outbound(effects@),
                );
                lemma_dispatch_all_preserves_registered(
                    pre,
                    broker.spec_runtime_id(),
                    outbound(effects@),
                );
            }
            self.should_close = true;
            let _ = self.handle_internal_queue(broker, fuel);
            let ghost pre2 = broker.spec_actors();
            broker.unregister(self.id);
            proof {
                broker::lemma_ids_distinct_without(pre2, self.spec_id());
                assert forall|x: ReactorID| x != old(self).spec_id() implies broker::has_actor(
                    broker.spec_actors(),
                    x,
                ) == broker::has_actor(old(broker).spec_actors(), x) by {
                    assert(broker::has_actor(pre2, x) == broker::has_actor(
                        old(broker).spec_actors(),
                        x,
                    ));
                }
            }
            return PollStatus::Ready;
        }
        let ghost quiescent = old(self).spec_queue().len() == 0 && !old(self).spec_should_close()
            && exists_non_auto(old(self).spec_links());
        let ghost pre_recv = broker.spec_actors();
        match broker.recv(self.id) {
            Some(env) => {
                proof {
                    broker::lemma_with_mailbox_preserves(
                        pre_recv,
                        self.spec_id(),
                        broker::mailbox_of(pre_recv, self.spec_id()).drop_first(),
                    );
                }
                let ghost env_g = env;
                self.handle_external_message(broker, env);
                proof {
                    if quiescent {
                        let mb = old(broker).mailbox(old(self).spec_id());
                        assert(env_g == mb[0]);
                        match link_lookup(old(self).spec_links(), env_g.from) {
                            Option::Some(l) => {
                                let eff = dispatch_effects(
                                    l.spec_external(),
                                    env_g.msg,
                                    old(self).spec_id(),
                                    env_g.from,
                                );
                                assert(self.spec_queue() =~= queued_ops(eff));
                            },
                            Option::None => {
                                assert(self.spec_queue() =~= Seq::<InternalOp>::empty());
                            },
                        }
                    }
                }
                PollStatus::Pending
            },
            None => PollStatus::Pending,
        }
    }
}

/// One dispatch never disturbs which identifiers are registered, nor
/// their distinctness.
proof fn lemma_dispatch_one_preserves_distinct(
    actors: Seq<(ReactorID, Seq<Envelope>)>,
    rt: ReactorID,
    env: Envelope,
)
    requires
        broker::ids_distinct(actors),
    ensures
        broker::ids_distinct(dispatch_one(actors, rt, env)),
{
    if env.to == rt || !broker::has_actor(actors, env.to) {
    } else {
        broker::lemma_with_mailbox_preserves(
            actors,
            env.to,
            broker::mailbox_of(actors, env.to).push(env),
        );
    }
}

/// A sequence of dispatches keeps the registry's identifiers distinct.
proof fn lemma_dispatch_all_preserves_distinct(
    actors: Seq<(ReactorID, Seq<Envelope>)>,
    rt: ReactorID,
    envs: Seq<Envelope>,
)
    requires
        broker::ids_distinct(actors),
    ensures
        broker::ids_distinct(dispatch_all(actors, rt, envs)),
    decreases envs.len(),
{
    if envs.len() > 0 {
        lemma_dispatch_one_preserves_distinct(actors, rt, envs[0]);
        lemma_dispatch_all_preserves_distinct(dispatch_one(actors, rt, envs[0]), rt, envs.drop_first());
    }
}

/// Dispatches only fill mailboxes: which identifiers are registered never
/// changes.
proof fn lemma_dispatch_all_preserves_registered(
    actors: Seq<(ReactorID, Seq<Envelope>)>,
    rt: ReactorID,
    envs: Seq<Envelope>,
)
    ensures
        forall|x: ReactorID| #[trigger] broker::has_actor(dispatch_all(actors, rt, envs), x)
            == broker::has_actor(actors, x),
    decreases envs.len(),
{
    if envs.len() > 0 {
        let e = envs[0];
        if !(e.to == rt || !broker::has_actor(actors, e.to)) {
            broker::lemma_with_mailbox_preserves(
                actors,
                e.to,
                broker::mailbox_of(actors, e.to).push(e),
            );
        }
        lemma_dispatch_all_preserves_registered(
            dispatch_one(actors, rt, e),
            rt,
            envs.drop_first(),
        );
        assert forall|x: ReactorID| #[trigger] broker::has_actor(
            dispatch_all(actors, rt, envs),
            x,
        ) == broker::has_actor(actors, x) by {
            assert(dispatch_all(actors, rt, envs) == dispatch_all(
                dispatch_one(actors, rt, e),
                rt,
                envs.drop_first(),
            ));
            assert(broker::has_actor(
                dispatch_all(dispatch_one(actors, rt, e), rt, envs.drop_first()),
                x,
            ) == broker::has_actor(dispatch_one(actors, rt, e), x));
            assert(broker::has_actor(dispatch_one(actors, rt, e), x) == broker::has_actor(
                actors,
                x,
            ));
        }
    }
}

} // verus!
