//! The client controller: one per player per match.
//!
//! While no session is attached, host traffic queues up in a bounded FIFO
//! buffer (the oldest entry is dropped when the bound is reached). When a
//! session attaches, the buffer is flushed in order before live traffic
//! resumes. A kick tells the session to shut down, reports the kick to the
//! host, and ends the controller.

use vstd::prelude::*;

use crate::handles::{Effect, ReactorHandle, TargetReactor};
use crate::ids::ReactorID;
use crate::link::{Closer, LinkAction, LinkParams};
use crate::message::{Message, Payload, TAG_ACCEPTED, TAG_CLIENT_KICKED, TAG_CLOSE, TAG_DATA,
    TAG_PEER_CLOSED, TAG_PLAYER_MSG};
use crate::net::Accepted;
use crate::types::{Close, Data, PlayerId, PlayerMsg};

verus! {

broadcast use crate::message::lemma_wrap_spec_content;

/// The parameters of the controller's link to the host side: host traffic
/// and kicks are republished to the controller, player messages pass
/// through to the host.
pub open spec fn is_host_link_params(p: LinkParams) -> bool {
    p.spec_internal() == seq![
        (TAG_CLIENT_KICKED, LinkAction::ToPeer),
        (TAG_PLAYER_MSG, LinkAction::ToPeer),
    ] && p.spec_external() == seq![
        (TAG_CLIENT_KICKED, LinkAction::ToReactor(TargetReactor::Reactor)),
        (TAG_DATA, LinkAction::ToReactor(TargetReactor::Reactor)),
    ] && p.spec_closer() is None
}

/// The parameters of the controller's link to the client manager:
/// acceptance notices are republished to the controller, and the
/// controller's own exit notice passes through to the manager.
pub open spec fn is_manager_link_params(p: LinkParams) -> bool {
    p.spec_internal() == seq![(TAG_PEER_CLOSED, LinkAction::ToPeer)] && p.spec_external() == seq![
        (TAG_ACCEPTED, LinkAction::ToReactor(TargetReactor::Reactor)),
    ] && p.spec_closer() is None
}

/// The parameters of the controller's link to an attached session: queued
/// and live host traffic and shutdown orders pass through to the session,
/// player messages are republished and aimed at the host link, a detach
/// notice — the transport dropped — is republished to the controller, and
/// the closer reports the session's end.
pub open spec fn is_session_link_params(p: LinkParams, host: ReactorID) -> bool {
    p.spec_internal() == seq![
        (TAG_CLIENT_KICKED, LinkAction::ToPeer),
        (TAG_CLOSE, LinkAction::ToPeer),
        (TAG_DATA, LinkAction::ToPeer),
    ] && p.spec_external() == seq![
        (TAG_PEER_CLOSED, LinkAction::ToReactor(TargetReactor::Reactor)),
        (TAG_PLAYER_MSG, LinkAction::ToReactor(TargetReactor::Link(host))),
    ] && p.spec_closer() == Some(Closer::NotifyReactor)
}

/// The per-player controller that buffers host traffic while its player is
/// detached.
#[derive(Debug)]
pub struct CCReactor {
    connected: bool,
    queue: Vec<Data>,
    cap: usize,
    id: PlayerId,
    client_manager: ReactorID,
    host: ReactorID,
    session: Option<ReactorID>,
}

impl CCReactor {
    /// Whether a session is attached, as a specification value.
    pub closed spec fn spec_connected(&self) -> bool {
        self.connected
    }

    /// The pending host traffic, oldest first, as a specification value.
    pub closed spec fn spec_queue(&self) -> Seq<Data> {
        self.queue@
    }

    /// The buffer bound, as a specification value.
    pub closed spec fn spec_cap(&self) -> usize {
        self.cap
    }

    /// The player served, as a specification value.
    pub closed spec fn spec_player(&self) -> PlayerId {
        self.id
    }

    /// The client manager's identifier, as a specification value.
    pub closed spec fn spec_client_manager(&self) -> ReactorID {
        self.client_manager
    }

    /// The host side's identifier, as a specification value.
    pub closed spec fn spec_host(&self) -> ReactorID {
        self.host
    }

    /// The attached session, as a specification value.
    pub closed spec fn spec_session(&self) -> Option<ReactorID> {
        self.session
    }

    /// A session is recorded exactly while connected, the buffer respects
    /// its bound, and no traffic waits while a session is attached.
    pub open spec fn wf(&self) -> bool {
        (self.spec_connected() <==> self.spec_session() is Some) && self.spec_queue().len()
            <= self.spec_cap() && self.spec_cap() >= 1 && (self.spec_connected()
            ==> self.spec_queue().len() == 0)
    }

    /// A detached controller for player `id`, buffering at most `cap`
    /// messages.
    pub fn params(id: PlayerId, client_manager: ReactorID, host: ReactorID, cap: usize) -> (r:
        CCReactor)
        requires
            cap >= 1,
        ensures
            r.wf(),
            !r.spec_connected(),
            r.spec_queue() == Seq::<Data>::empty(),
            r.spec_cap() == cap,
            r.spec_player() == id,
            r.spec_client_manager() == client_manager,
            r.spec_host() == host,
            r.spec_session() is None,
    {
        CCReactor {
            connected: false,
            queue: Vec::new(),
            cap,
            id,
            client_manager,
            host,
            session: None,
        }
    }

    /// On start-up the controller opens its links to the host side and to
    /// the client manager.
    pub fn handle_initialize(&self, handle: &mut ReactorHandle)
        ensures
            final(handle).spec_id() == old(handle).spec_id(),
            final(handle).effects@.len() == old(handle).effects@.len() + 2,
            final(handle).effects@.take(old(handle).effects@.len() as int) == old(handle).effects@,
            (final(handle).effects@[old(handle).effects@.len() as int]
                matches Effect::OpenLink(peer, p, auto) && peer == self.spec_host()
                && is_host_link_params(p) && !auto),
            (final(handle).effects@[old(handle).effects@.len() as int + 1]
                matches Effect::OpenLink(peer, p, auto) && peer == self.spec_client_manager()
                && is_manager_link_params(p) && !auto),
    {
        let mut host_params = LinkParams::new();
        host_params.internal_handler(TAG_PLAYER_MSG, LinkAction::ToPeer);
        host_params.internal_handler(TAG_CLIENT_KICKED, LinkAction::ToPeer);
        host_params.external_handler(TAG_DATA, LinkAction::ToReactor(TargetReactor::Reactor));
        host_params.external_handler(
            TAG_CLIENT_KICKED,
            LinkAction::ToReactor(TargetReactor::Reactor),
        );
        proof {
            assert(host_params.spec_internal() =~= seq![
                (TAG_CLIENT_KICKED, LinkAction::ToPeer),
                (TAG_PLAYER_MSG, LinkAction::ToPeer),
            ]);
            assert(host_params.spec_external() =~= seq![
                (TAG_CLIENT_KICKED, LinkAction::ToReactor(TargetReactor::Reactor)),
                (TAG_DATA, LinkAction::ToReactor(TargetReactor::Reactor)),
            ]);
        }
        handle.open_link(self.host, host_params, false);
        let mut cm_params = LinkParams::new();
        cm_params.internal_handler(TAG_PEER_CLOSED, LinkAction::ToPeer);
        cm_params.external_handler(TAG_ACCEPTED, LinkAction::ToReactor(TargetReactor::Reactor));
        proof {
            assert(cm_params.spec_internal() =~= seq![(TAG_PEER_CLOSED, LinkAction::ToPeer)]);
            assert(cm_params.spec_external() =~= seq![
                (TAG_ACCEPTED, LinkAction::ToReactor(TargetReactor::Reactor)),
            ]);
        }
        handle.open_link(self.client_manager, cm_params, false);
        proof {
            assert(final(handle).effects@.take(old(handle).effects@.len() as int)
                =~= old(handle).effects@);
        }
    }

    /// A session was bound to this controller: replace any earlier session
    /// (its link is dropped hard, the pipe being stale), open the link to
    /// the new one, and flush the buffered host traffic in order.
    pub fn handle_connect(&mut self, handle: &mut ReactorHandle, acc: &Accepted)
        requires
            old(self).wf(),
        ensures
            final(self).wf(),
            final(self).spec_connected(),
            final(self).spec_session() == Some(acc.client_id),
            final(self).spec_queue() == Seq::<Data>::empty(),
            final(self).spec_cap() == old(self).spec_cap(),
            final(self).spec_player() == old(self).spec_player(),
            final(self).spec_client_manager() == old(self).spec_client_manager(),
            final(self).spec_host() == old(self).spec_host(),
            final(handle).spec_id() == old(handle).spec_id(),
            ({
                let stale: Seq<Effect> = match old(self).spec_session() {
                    Option::Some(s) => seq![Effect::CloseLinkHard(s)],
                    Option::None => Seq::<Effect>::empty(),
                };
                let flushed = Seq::new(
                    old(self).spec_queue().len(),
                    |j: int| Effect::Internal(
                        Message::wrap_spec(Payload::Data(old(self).spec_queue()[j])),
                        TargetReactor::Link(acc.client_id),
                    ),
                );
                final(handle).effects@.len() == old(handle).effects@.len() + stale.len() + 1
                    + flushed.len() && final(handle).effects@.take(
                    old(handle).effects@.len() as int,
                ) == old(handle).effects@ && final(handle).effects@.subrange(
                    old(handle).effects@.len() as int,
                    old(handle).effects@.len() as int + stale.len() as int,
                ) == stale && (final(handle).effects@[old(handle).effects@.len() as int + stale.len() as int]
                    matches Effect::OpenLink(peer, p, auto) && peer == acc.client_id
                    && is_session_link_params(p, old(self).spec_host()) && auto)
                    && final(handle).effects@.subrange(
                    old(handle).effects@.len() as int + stale.len() as int + 1,
                    final(handle).effects@.len() as int,
                ) == flushed
            }),
    {
        match self.session {
            Some(s) => {
                handle.close_link_hard(s);
            },
            None => {},
        }
        let mut sess_params = LinkParams::new();
        sess_params.internal_handler(TAG_DATA, LinkAction::ToPeer);
        sess_params.internal_handler(TAG_CLOSE, LinkAction::ToPeer);
        sess_params.internal_handler(TAG_CLIENT_KICKED, LinkAction::ToPeer);
        sess_params.external_handler(
            TAG_PLAYER_MSG,
            LinkAction::ToReactor(TargetReactor::Link(self.host)),
        );
        sess_params.external_handler(
            TAG_PEER_CLOSED,
            LinkAction::ToReactor(TargetReactor::Reactor),
        );
        sess_params.closer(Closer::NotifyReactor);
        proof {
            assert(sess_params.spec_internal() =~= seq![
                (TAG_CLIENT_KICKED, LinkAction::ToPeer),
                (TAG_CLOSE, LinkAction::ToPeer),
                (TAG_DATA, LinkAction::ToPeer),
            ]);
            assert(sess_params.spec_external() =~= seq![
                (TAG_PEER_CLOSED, LinkAction::ToReactor(TargetReactor::Reactor)),
                (TAG_PLAYER_MSG, LinkAction::ToReactor(TargetReactor::Link(self.host))),
            ]);
        }
        handle.open_link(acc.client_id, sess_params, true);
        self.session = Some(acc.client_id);
        self.connected = true;
        let ghost pending = self.queue@;
        let ghost mid = handle.effects@;
        let ghost stale_g: Seq<Effect> = match old(self).spec_session() {
            Option::Some(s) => seq![Effect::CloseLinkHard(s)],
            Option::None => Seq::<Effect>::empty(),
        };
        let ghost open_eff = handle.effects@.last();
        let mut sent_count: usize = 0;
        proof {
            assert(pending.skip(0) =~= pending);
            assert(mid =~= old(handle).effects@ + stale_g + seq![open_eff]);
        }
        while self.queue.len() > 0
            invariant
                sent_count <= pending.len(),
                pending.len() <= usize::MAX,
                pending == old(self).spec_queue(),
                self.queue@ == pending.skip(sent_count as int),
                self.session == Some(acc.client_id),
                self.connected,
                self.spec_cap() == old(self).spec_cap(),
                self.spec_player() == old(self).spec_player(),
                self.spec_client_manager() == old(self).spec_client_manager(),
                self.spec_host() == old(self).spec_host(),
                handle.spec_id() == old(handle).spec_id(),
                handle.effects@.len() == mid.len() + sent_count,
                handle.effects@.take(mid.len() as int) == mid,
                mid == old(handle).effects@ + stale_g + seq![open_eff],
                stale_g == match old(self).spec_session() {
                    Option::Some(s) => seq![Effect::CloseLinkHard(s)],
                    Option::None => Seq::<Effect>::empty(),
                },
                (open_eff matches Effect::OpenLink(peer, p, auto) && peer == acc.client_id
                    && is_session_link_params(p, old(self).spec_host()) && auto),
                forall|j: int| 0 <= j < sent_count ==> handle.effects@[mid.len() + j]
                    == Effect::Internal(
                    Message::wrap_spec(Payload::Data(pending[j])),
                    TargetReactor::Link(acc.client_id),
                ),
            decreases self.queue@.len(),
        {
            proof {
                assert(pending.skip(sent_count as int)[0] == pending[sent_count as int]);
                assert(pending.skip(sent_count as int).drop_first() =~= pending.skip(
                    sent_count as int + 1,
                ));
                assert(sent_count < pending.len());
            }
            let d = self.queue.remove(0);
            handle.send_internal(Payload::Data(d), TargetReactor::Link(acc.client_id));
            sent_count = sent_count + 1;
            proof {
                assert(handle.effects@.take(mid.len() as int) =~= mid);
                assert(self.queue@ =~= pending.skip(sent_count as int));
            }
        }
        proof {
            assert(pending.skip(sent_count as int).len() == 0);
            assert(sent_count == pending.len());
        }
        proof {
            assert(final(handle).effects@.take(old(handle).effects@.len() as int)
                =~= old(handle).effects@);
            let stale: Seq<Effect> = match old(self).spec_session() {
                Option::Some(s) => seq![Effect::CloseLinkHard(s)],
                Option::None => Seq::<Effect>::empty(),
            };
            let flushed = Seq::new(
                old(self).spec_queue().len(),
                |j: int| Effect::Internal(
                    Message::wrap_spec(Payload::Data(old(self).spec_queue()[j])),
                    TargetReactor::Link(acc.client_id),
                ),
            );
            assert forall|i: int| 0 <= i < mid.len() implies final(handle).effects@[i]
                == mid[i] by {
                assert(final(handle).effects@.take(mid.len() as int)[i]
                    == final(handle).effects@[i]);
            }
            match old(self).spec_session() {
                Option::Some(s) => {
                    assert(stale =~= seq![Effect::CloseLinkHard(s)]);
                    assert((old(handle).effects@ + stale_g + seq![open_eff])[old(
                        handle,
                    ).effects@.len() as int] == stale_g[0]);
                    assert(final(handle).effects@[old(handle).effects@.len() as int]
                        == Effect::CloseLinkHard(s));
                },
                Option::None => {
                    assert(stale.len() == 0);
                },
            }
            assert(final(handle).effects@.subrange(
                old(handle).effects@.len() as int,
                old(handle).effects@.len() as int + stale.len() as int,
            ) =~= stale);
            assert(final(handle).effects@.subrange(
                old(handle).effects@.len() as int + stale.len() as int + 1,
                final(handle).effects@.len() as int,
            ) =~= flushed);
        }
    }

    /// The attached session went away: note the detachment and drop the
    /// stale link hard. Notice of any other peer changes nothing.
    pub fn handle_peer_closed(&mut self, handle: &mut ReactorHandle, peer: ReactorID)
        requires
            old(self).wf(),
        ensures
            final(self).wf(),
            final(self).spec_queue() == old(self).spec_queue(),
            final(self).spec_cap() == old(self).spec_cap(),
            final(self).spec_player() == old(self).spec_player(),
            final(self).spec_client_manager() == old(self).spec_client_manager(),
            final(self).spec_host() == old(self).spec_host(),
            final(handle).spec_id() == old(handle).spec_id(),
            old(self).spec_session() == Some(peer) ==> (final(self).spec_session() is None
                && !final(self).spec_connected() && final(handle).effects@
                == old(handle).effects@.push(Effect::CloseLinkHard(peer))),
            old(self).spec_session() != Some(peer) ==> (*final(self) == *old(self)
                && final(handle).effects@ == old(handle).effects@),
    {
        let matches_session: bool = match self.session {
            Some(s) => s == peer,
            None => false,
        };
        if matches_session {
            self.session = None;
            self.connected = false;
            handle.close_link_hard(peer);
        }
    }

    /// Host traffic arrived. With a session attached it passes straight
    /// through; while detached it queues, and when the buffer is full the
    /// oldest entry is dropped to make room.
    pub fn handle_host_msg(&mut self, handle: &mut ReactorHandle, d: Data)
        requires
            old(self).wf(),
        ensures
            final(self).wf(),
            final(self).spec_connected() == old(self).spec_connected(),
            final(self).spec_session() == old(self).spec_session(),
            final(self).spec_cap() == old(self).spec_cap(),
            final(self).spec_player() == old(self).spec_player(),
            final(self).spec_client_manager() == old(self).spec_client_manager(),
            final(self).spec_host() == old(self).spec_host(),
            final(handle).spec_id() == old(handle).spec_id(),
            old(self).spec_connected() ==> (final(self).spec_queue()
                == Seq::<Data>::empty() && (old(self).spec_session() matches Some(s)
                && final(handle).effects@ == old(handle).effects@.push(
                Effect::Internal(
                    Message::wrap_spec(Payload::Data(d)),
                    TargetReactor::Link(s),
                ),
            ))),
            !old(self).spec_connected() ==> (final(handle).effects@ == old(handle).effects@
                && final(self).spec_queue() == if old(self).spec_queue().len()
                < old(self).spec_cap() {
                old(self).spec_queue().push(d)
            } else {
                old(self).spec_queue().drop_first().push(d)
            }),
    {
        if self.connected {
            let s = match self.session {
                Some(s) => s,
                None => {
                    return ;  // unreachable while well-formed
                },
            };
            handle.send_internal(Payload::Data(d), TargetReactor::Link(s));
        } else {
            if self.queue.len() == self.cap {
                self.queue.remove(0);
            }
            self.queue.push(d);
        }
    }

    /// The host kicked this player: order the session to shut down,
    /// report the kick back to the host, report the controller's own exit
    /// to the client manager — which then forgets this controller's
    /// tokens — and end the controller.
    pub fn handle_kicked(&mut self, handle: &mut ReactorHandle)
        requires
            old(self).wf(),
        ensures
            final(self).wf(),
            final(handle).spec_id() == old(handle).spec_id(),
            ({
                let to_session: Seq<Effect> = match old(self).spec_session() {
                    Option::Some(s) => seq![
                        Effect::Internal(
                            Message::wrap_spec(Payload::ClientKicked(old(self).spec_player())),
                            TargetReactor::Link(s),
                        ),
                        Effect::Internal(
                            Message::wrap_spec(Payload::Close(Close {})),
                            TargetReactor::Link(s),
                        ),
                    ],
                    Option::None => Seq::<Effect>::empty(),
                };
                final(handle).effects@ == old(handle).effects@ + to_session + seq![
                    Effect::Internal(
                        Message::wrap_spec(Payload::ClientKicked(old(self).spec_player())),
                        TargetReactor::Link(old(self).spec_host()),
                    ),
                    Effect::Internal(
                        Message::wrap_spec(Payload::PeerClosed(old(handle).spec_id())),
                        TargetReactor::Link(old(self).spec_client_manager()),
                    ),
                    Effect::Destroy,
                ]
            }),
    {
        match self.session {
            Some(s) => {
                handle.send_internal(
                    Payload::ClientKicked(self.id),
                    TargetReactor::Link(s),
                );
                handle.send_internal(Payload::Close(Close {}), TargetReactor::Link(s));
            },
            None => {},
        }
        handle.send_internal(
            Payload::ClientKicked(self.id),
            TargetReactor::Link(self.host),
        );
        let own = handle.id();
        handle.send_internal(
            Payload::PeerClosed(own),
            TargetReactor::Link(self.client_manager),
        );
        handle.destroy();
        proof {
            let to_session: Seq<Effect> = match old(self).spec_session() {
                Option::Some(s) => seq![
                    Effect::Internal(
                        Message::wrap_spec(Payload::ClientKicked(old(self).spec_player())),
                        TargetReactor::Link(s),
                    ),
                    Effect::Internal(
                        Message::wrap_spec(Payload::Close(Close {})),
                        TargetReactor::Link(s),
                    ),
                ],
                Option::None => Seq::<Effect>::empty(),
            };
            assert(final(handle).effects@ =~= old(handle).effects@ + to_session + seq![
                Effect::Internal(
                    Message::wrap_spec(Payload::ClientKicked(old(self).spec_player())),
                    TargetReactor::Link(old(self).spec_host()),
                ),
                Effect::Internal(
                    Message::wrap_spec(Payload::PeerClosed(old(handle).spec_id())),
                    TargetReactor::Link(old(self).spec_client_manager()),
                ),
                Effect::Destroy,
            ]);
        }
    }

    /// A player message from the session on its way to the host; the
    /// controller stamps it with its player's number.
    pub fn player_msg(&self, value: String) -> (r: PlayerMsg)
        ensures
            r.id == self.spec_player(),
            (r.data matches Some(d) && d.value == value),
    {
        PlayerMsg { id: self.id, data: Some(Data { value }) }
    }
}

} // verus!
