//! The step-lock: the per-match turn barrier.
//!
//! The lock alternates between two phases. In the broadcasting phase it
//! waits for a host-message batch, fans the batch out to the targeted
//! controllers, and moves to collecting with every rostered player
//! expected. In the collecting phase each player message from an expected
//! player is recorded and removed from the expected set; the turn completes
//! — with exactly one `Turn` batch handed to the host — as soon as nobody
//! is expected any more, and at the latest when the deadline tick fires,
//! whatever the players do. Players still pending at the tick are reported
//! with no payload.

use vstd::prelude::*;

use crate::handles::{Effect, ReactorHandle, TargetReactor};
use crate::ids::ReactorID;
use crate::link::{LinkAction, LinkParams};
use crate::message::{Message, Payload, TAG_CLIENT_KICKED, TAG_CLOSE, TAG_DATA, TAG_DROP_PLAYER,
    TAG_HOST_BATCH, TAG_PLAYER_MSG, TAG_TICK, TAG_TURN};
use crate::types::{Data, HostMsg, PlayerId, PlayerMsg};

verus! {

broadcast use crate::message::lemma_wrap_spec_content;

/// What the lock has heard from one expected player this turn.
#[derive(Clone, PartialEq, Eq, Debug)]
pub enum TurnEntry {
    /// Nothing yet.
    Pending,
    /// The player's payload for this turn.
    Received(Data),
    /// The player was dropped from the turn (kick or disconnect).
    Dropped,
}

/// The lock's two phases.
#[derive(Clone, PartialEq, Eq, Debug)]
pub enum Phase {
    /// Waiting for the next host-message batch.
    Broadcasting,
    /// Gathering player answers; one entry per player expected this turn.
    Collecting(Vec<(PlayerId, TurnEntry)>),
}

/// The controller recorded for a player, if any.
pub open spec fn lookup_player(
    roster: Seq<(PlayerId, ReactorID)>,
    p: PlayerId,
) -> Option<ReactorID>
    decreases roster.len(),
{
    if roster.len() == 0 {
        Option::None
    } else if roster[0].0 == p {
        Option::Some(roster[0].1)
    } else {
        lookup_player(roster.drop_first(), p)
    }
}

/// The roster with the named player removed.
pub open spec fn roster_without(
    roster: Seq<(PlayerId, ReactorID)>,
    p: PlayerId,
) -> Seq<(PlayerId, ReactorID)>
    decreases roster.len(),
{
    if roster.len() == 0 {
        roster
    } else if roster[0].0 == p {
        roster_without(roster.drop_first(), p)
    } else {
        seq![roster[0]] + roster_without(roster.drop_first(), p)
    }
}

/// The fan-out of one host message: targeted traffic goes to the target's
/// controller (or nowhere when the target is not rostered), untargeted
/// traffic goes to every controller, and kicks are the host's own duty.
pub open spec fn fanout_one(m: HostMsg, roster: Seq<(PlayerId, ReactorID)>) -> Seq<Effect> {
    match m {
        HostMsg::Data(d, Some(p)) => match lookup_player(roster, p) {
            Option::Some(cc) => seq![
                Effect::Internal(Message::wrap_spec(Payload::Data(d)), TargetReactor::Link(cc)),
            ],
            Option::None => Seq::<Effect>::empty(),
        },
        HostMsg::Data(d, None) => Seq::new(
            roster.len(),
            |j: int| Effect::Internal(
                Message::wrap_spec(Payload::Data(d)),
                TargetReactor::Link(roster[j].1),
            ),
        ),
        HostMsg::Kick(..) => Seq::<Effect>::empty(),
    }
}

/// The fan-out of a whole batch, message by message in order.
pub open spec fn fanout(msgs: Seq<HostMsg>, roster: Seq<(PlayerId, ReactorID)>) -> Seq<Effect>
    decreases msgs.len(),
{
    if msgs.len() == 0 {
        Seq::<Effect>::empty()
    } else {
        fanout_one(msgs[0], roster) + fanout(msgs.drop_first(), roster)
    }
}

/// Fanning out one more message appends that message's own fan-out.
proof fn lemma_fanout_snoc(msgs: Seq<HostMsg>, m: HostMsg, roster: Seq<(PlayerId, ReactorID)>)
    ensures
        fanout(msgs.push(m), roster) == fanout(msgs, roster) + fanout_one(m, roster),
    decreases msgs.len(),
{
    if msgs.len() == 0 {
        assert(msgs.push(m)[0] == m);
        assert(msgs.push(m).drop_first() =~= Seq::<HostMsg>::empty());
        assert(fanout(msgs.push(m), roster) == fanout_one(m, roster) + fanout(
            Seq::<HostMsg>::empty(),
            roster,
        ));
        assert(fanout(msgs.push(m), roster) =~= fanout(msgs, roster) + fanout_one(m, roster));
    } else {
        assert(msgs.push(m)[0] == msgs[0]);
        assert(msgs.push(m).drop_first() =~= msgs.drop_first().push(m));
        lemma_fanout_snoc(msgs.drop_first(), m, roster);
        assert(fanout(msgs.push(m), roster) == fanout_one(msgs[0], roster) + fanout(
            msgs.drop_first().push(m),
            roster,
        ));
        assert(fanout(msgs, roster) == fanout_one(msgs[0], roster) + fanout(
            msgs.drop_first(),
            roster,
        ));
        assert(fanout(msgs.push(m), roster) =~= fanout(msgs, roster) + fanout_one(m, roster));
    }
}

/// The fresh expected set: one pending entry per rostered player.
pub open spec fn fresh_entries(roster: Seq<(PlayerId, ReactorID)>) -> Seq<(PlayerId, TurnEntry)> {
    Seq::new(roster.len(), |j: int| (roster[j].0, TurnEntry::Pending))
}

/// How many entries are still pending.
pub open spec fn count_pending(entries: Seq<(PlayerId, TurnEntry)>) -> int
    decreases entries.len(),
{
    if entries.len() == 0 {
        0int
    } else {
        (if entries[0].1 is Pending {
            1int
        } else {
            0int
        }) + count_pending(entries.drop_first())
    }
}

/// The completed turn batch: one message per expected player, in roster
/// order, with no payload for the players that never answered.
pub open spec fn batch_of(entries: Seq<(PlayerId, TurnEntry)>) -> Seq<PlayerMsg> {
    Seq::new(
        entries.len(),
        |j: int| PlayerMsg {
            id: entries[j].0,
            data: match entries[j].1 {
                TurnEntry::Received(d) => Option::Some(d),
                TurnEntry::Pending => Option::None,
                TurnEntry::Dropped => Option::None,
            },
        },
    )
}

/// Whether any entry is still pending.
pub open spec fn has_pending(entries: Seq<(PlayerId, TurnEntry)>) -> bool
    decreases entries.len(),
{
    if entries.len() == 0 {
        false
    } else {
        entries[0].1 is Pending || has_pending(entries.drop_first())
    }
}

/// The entries with the named player's record replaced.
pub open spec fn entries_set(
    entries: Seq<(PlayerId, TurnEntry)>,
    p: PlayerId,
    e: TurnEntry,
) -> Seq<(PlayerId, TurnEntry)>
    decreases entries.len(),
{
    if entries.len() == 0 {
        entries
    } else if entries[0].0 == p {
        seq![(p, e)] + entries.drop_first()
    } else {
        seq![entries[0]] + entries_set(entries.drop_first(), p, e)
    }
}

/// Whether the named player is still pending.
pub open spec fn is_pending(entries: Seq<(PlayerId, TurnEntry)>, p: PlayerId) -> bool
    decreases entries.len(),
{
    if entries.len() == 0 {
        false
    } else if entries[0].0 == p {
        entries[0].1 is Pending
    } else {
        is_pending(entries.drop_first(), p)
    }
}

/// The per-match turn barrier.
#[derive(Debug)]
pub struct StepLock {
    host: ReactorID,
    roster: Vec<(PlayerId, ReactorID)>,
    phase: Phase,
    timeout_ms: Option<u64>,
}

impl StepLock {
    /// The host's identifier, as a specification value.
    pub closed spec fn spec_host(&self) -> ReactorID {
        self.host
    }

    /// The rostered players, as a specification value.
    pub closed spec fn spec_roster(&self) -> Seq<(PlayerId, ReactorID)> {
        self.roster@
    }

    /// The phase, as a specification value.
    pub closed spec fn spec_phase(&self) -> Phase {
        self.phase
    }

    /// The configured per-turn deadline, as a specification value; none
    /// means wait for every player.
    pub closed spec fn spec_timeout_ms(&self) -> Option<u64> {
        self.timeout_ms
    }

    /// A lock for the given match graph, broadcasting, with every player
    /// rostered.
    pub fn new(host: ReactorID, roster: Vec<(PlayerId, ReactorID)>, timeout_ms: Option<u64>) -> (r:
        StepLock)
        ensures
            r.spec_host() == host,
            r.spec_roster() == roster@,
            r.spec_phase() == Phase::Broadcasting,
            r.spec_timeout_ms() == timeout_ms,
    {
        StepLock { host, roster, phase: Phase::Broadcasting, timeout_ms }
    }

    /// The configured per-turn deadline.
    pub fn timeout_ms(&self) -> (r: Option<u64>)
        ensures
            r == self.spec_timeout_ms(),
    {
        self.timeout_ms
    }

    /// On start-up the lock opens its link to the host and one link per
    /// rostered controller.
    pub fn handle_initialize(&self, handle: &mut ReactorHandle)
        ensures
            final(handle).spec_id() == old(handle).spec_id(),
            final(handle).effects@.len() == old(handle).effects@.len() + 1
                + self.spec_roster().len(),
            final(handle).effects@.take(old(handle).effects@.len() as int) == old(handle).effects@,
            (final(handle).effects@[old(handle).effects@.len() as int]
                matches Effect::OpenLink(peer, p, auto) && peer == self.spec_host()
                && is_lock_host_link_params(p) && !auto),
            forall|j: int| 0 <= j < self.spec_roster().len()
                ==> (#[trigger] final(handle).effects@[old(handle).effects@.len() as int + 1 + j]
                    matches Effect::OpenLink(peer, p, auto) && peer == self.spec_roster()[j].1
                    && is_lock_controller_link_params(p) && !auto),
    {
        let mut host_params = LinkParams::new();
        host_params.internal_handler(TAG_TURN, LinkAction::ToPeer);
        host_params.external_handler(
            TAG_HOST_BATCH,
            LinkAction::ToReactor(TargetReactor::Reactor),
        );
        host_params.external_handler(
            TAG_DROP_PLAYER,
            LinkAction::ToReactor(TargetReactor::Reactor),
        );
        host_params.external_handler(TAG_TICK, LinkAction::ToReactor(TargetReactor::Reactor));
        host_params.external_handler(
            TAG_CLIENT_KICKED,
            LinkAction::ToReactor(TargetReactor::Reactor),
        );
        host_params.external_handler(TAG_CLOSE, LinkAction::ToReactor(TargetReactor::Reactor));
        proof {
            assert(host_params.spec_internal() =~= seq![(TAG_TURN, LinkAction::ToPeer)]);
            assert(host_params.spec_external() =~= seq![
                (TAG_CLOSE, LinkAction::ToReactor(TargetReactor::Reactor)),
                (TAG_CLIENT_KICKED, LinkAction::ToReactor(TargetReactor::Reactor)),
                (TAG_TICK, LinkAction::ToReactor(TargetReactor::Reactor)),
                (TAG_DROP_PLAYER, LinkAction::ToReactor(TargetReactor::Reactor)),
                (TAG_HOST_BATCH, LinkAction::ToReactor(TargetReactor::Reactor)),
            ]);
        }
        handle.open_link(self.host, host_params, false);
        let ghost mid = handle.effects@;
        let mut j: usize = 0;
        while j < self.roster.len()
            invariant
                j <= self.roster@.len(),
                handle.spec_id() == old(handle).spec_id(),
                handle.effects@.len() == mid.len() + j,
                handle.effects@.take(mid.len() as int) == mid,
                mid == old(handle).effects@.push(handle.effects@[old(handle).effects@.len() as int]),
                mid.len() == old(handle).effects@.len() + 1,
                mid.take(old(handle).effects@.len() as int) == old(handle).effects@,
                (mid.last() matches Effect::OpenLink(peer, p, auto) && peer == self.spec_host()
                    && is_lock_host_link_params(p) && !auto),
                forall|i: int| 0 <= i < j
                    ==> (#[trigger] handle.effects@[mid.len() + i]
                        matches Effect::OpenLink(peer, p, auto) && peer == self.spec_roster()[i].1
                        && is_lock_controller_link_params(p) && !auto),
            decreases self.roster@.len() - j,
        {
            let mut cc_params = LinkParams::new();
            cc_params.internal_handler(TAG_DATA, LinkAction::ToPeer);
            cc_params.internal_handler(TAG_CLIENT_KICKED, LinkAction::ToPeer);
            cc_params.external_handler(
                TAG_PLAYER_MSG,
                LinkAction::ToReactor(TargetReactor::Reactor),
            );
            proof {
                assert(cc_params.spec_internal() =~= seq![
                    (TAG_CLIENT_KICKED, LinkAction::ToPeer),
                    (TAG_DATA, LinkAction::ToPeer),
                ]);
                assert(cc_params.spec_external() =~= seq![
                    (TAG_PLAYER_MSG, LinkAction::ToReactor(TargetReactor::Reactor)),
                ]);
            }
            handle.open_link(self.roster[j].1, cc_params, false);
            j = j + 1;
            proof {
                assert(handle.effects@.take(mid.len() as int) =~= mid);
            }
        }
        proof {
            assert(final(handle).effects@.take(old(handle).effects@.len() as int)
                =~= old(handle).effects@);
            assert(final(handle).effects@[old(handle).effects@.len() as int]
                == mid[old(handle).effects@.len() as int]) by {
                assert(final(handle).effects@.take(mid.len() as int)[old(handle).effects@.len() as int] == final(handle).effects@[old(handle).effects@.len() as int]);
            }
        }
    }

    /// A host batch arrived while broadcasting: fan it out to the
    /// controllers and start collecting, expecting every rostered player.
    /// With an empty roster the turn completes on the spot, with one empty
    /// `Turn` batch. A batch arriving while collecting is dropped.
    pub fn handle_host_batch(&mut self, handle: &mut ReactorHandle, msgs: Vec<HostMsg>)
        ensures
            final(self).spec_host() == old(self).spec_host(),
            final(self).spec_roster() == old(self).spec_roster(),
            final(self).spec_timeout_ms() == old(self).spec_timeout_ms(),
            final(handle).spec_id() == old(handle).spec_id(),
            old(self).spec_phase() is Collecting ==> (*final(self) == *old(self)
                && final(handle).effects@ == old(handle).effects@),
            old(self).spec_phase() is Broadcasting && old(self).spec_roster().len() > 0 ==> (
                (final(self).spec_phase() matches Phase::Collecting(entries) && entries@
                    == fresh_entries(old(self).spec_roster()))
                && final(handle).effects@ == old(handle).effects@ + fanout(
                msgs@,
                old(self).spec_roster(),
            )),
            old(self).spec_phase() is Broadcasting && old(self).spec_roster().len() == 0 ==> (
                final(self).spec_phase() == Phase::Broadcasting
                && final(handle).effects@.len() == old(handle).effects@.len() + fanout(
                msgs@,
                old(self).spec_roster(),
            ).len() + 1 && final(handle).effects@.drop_last() == old(handle).effects@ + fanout(
                msgs@,
                old(self).spec_roster(),
            ) && (final(handle).effects@.last() matches Effect::Internal(m, t) && m.spec_tag()
                == TAG_TURN && (m.content() matches Some(Payload::Turn(b)) && b@
                == Seq::<PlayerMsg>::empty()) && t == TargetReactor::Link(old(self).spec_host()))),
    {
        match &self.phase {
            Phase::Collecting(..) => {
                return ;
            },
            Phase::Broadcasting => {},
        }
        let ghost roster_g = self.roster@;
        let ghost mid = handle.effects@;
        let mut i: usize = 0;
        proof {
            assert(fanout(msgs@.take(0), roster_g) =~= Seq::<Effect>::empty());
            assert(mid + fanout(msgs@.take(0), roster_g) =~= mid);
        }
        while i < msgs.len()
            invariant
                i <= msgs@.len(),
                self.roster@ == roster_g,
                *self == *old(self),
                roster_g == old(self).spec_roster(),
                mid == old(handle).effects@,
                handle.spec_id() == old(handle).spec_id(),
                handle.effects@ == mid + fanout(msgs@.take(i as int), roster_g),
            decreases msgs@.len() - i,
        {
            let m = &msgs[i];
            match m {
                HostMsg::Data(d, Some(p)) => {
                    match lookup_player_cc(&self.roster, *p) {
                        Some(cc) => {
                            handle.send_internal(
                                Payload::Data(clone_data(d)),
                                TargetReactor::Link(cc),
                            );
                        },
                        None => {},
                    }
                },
                HostMsg::Data(d, None) => {
                    let ghost inner_mid = handle.effects@;
                    let mut j: usize = 0;
                    while j < self.roster.len()
                        invariant
                            j <= self.roster@.len(),
                            self.roster@ == roster_g,
                            *self == *old(self),
                            handle.spec_id() == old(handle).spec_id(),
                            handle.effects@ == inner_mid + Seq::new(
                                j as nat,
                                |t: int| Effect::Internal(
                                    Message::wrap_spec(Payload::Data(*d)),
                                    TargetReactor::Link(roster_g[t].1),
                                ),
                            ),
                            msgs@[i as int] == HostMsg::Data(*d, None),
                            i < msgs@.len(),
                        decreases self.roster@.len() - j,
                    {
                        handle.send_internal(
                            Payload::Data(clone_data(d)),
                            TargetReactor::Link(self.roster[j].1),
                        );
                        j = j + 1;
                        proof {
                            assert(handle.effects@ =~= inner_mid + Seq::new(
                                j as nat,
                                |t: int| Effect::Internal(
                                    Message::wrap_spec(Payload::Data(*d)),
                                    TargetReactor::Link(roster_g[t].1),
                                ),
                            ));
                        }
                    }
                    proof {
                        assert(Seq::new(
                            roster_g.len(),
                            |t: int| Effect::Internal(
                                Message::wrap_spec(Payload::Data(*d)),
                                TargetReactor::Link(roster_g[t].1),
                            ),
                        ) =~= fanout_one(msgs@[i as int], roster_g));
                    }
                },
                HostMsg::Kick(..) => {},
            }
            i = i + 1;
            proof {
                assert(msgs@.take(i as int).drop_last() =~= msgs@.take(i as int - 1));
                assert(msgs@.take(i as int).last() == msgs@[i as int - 1]);
                assert(msgs@.take(i as int) =~= msgs@.take(i as int - 1).push(msgs@[i as int - 1]));
                lemma_fanout_snoc(msgs@.take(i as int - 1), msgs@[i as int - 1], roster_g);
                assert(handle.effects@ =~= mid + fanout(msgs@.take(i as int), roster_g));
            }
        }
        proof {
            assert(msgs@.take(i as int) =~= msgs@);
        }
        if self.roster.len() == 0 {
            let batch: Vec<PlayerMsg> = Vec::new();
            handle.send_internal(Payload::Turn(batch), TargetReactor::Link(self.host));
            return ;
        }
        let mut entries: Vec<(PlayerId, TurnEntry)> = Vec::new();
        let mut j: usize = 0;
        while j < self.roster.len()
            invariant
                j <= self.roster@.len(),
                self.roster@ == roster_g,
                *self == *old(self),
                entries@ == fresh_entries(roster_g).take(j as int),
                handle.spec_id() == old(handle).spec_id(),
                handle.effects@ == mid + fanout(msgs@, roster_g),
                mid == old(handle).effects@,
                roster_g == old(self).spec_roster(),
            decreases self.roster@.len() - j,
        {
            entries.push((self.roster[j].0, TurnEntry::Pending));
            j = j + 1;
            proof {
                assert(entries@ =~= fresh_entries(roster_g).take(j as int));
            }
        }
        proof {
            assert(entries@ =~= fresh_entries(roster_g));
        }
        self.phase = Phase::Collecting(entries);
    }

    /// Close the turn: hand the host exactly one `Turn` batch, one message
    /// per expected player in roster order, and return to broadcasting.
    fn complete(&mut self, handle: &mut ReactorHandle, entries: Vec<(PlayerId, TurnEntry)>)
        ensures
            final(self).spec_host() == old(self).spec_host(),
            final(self).spec_roster() == old(self).spec_roster(),
            final(self).spec_timeout_ms() == old(self).spec_timeout_ms(),
            final(self).spec_phase() == Phase::Broadcasting,
            final(handle).spec_id() == old(handle).spec_id(),
            final(handle).effects@.len() == old(handle).effects@.len() + 1,
            final(handle).effects@.drop_last() == old(handle).effects@,
            (final(handle).effects@.last() matches Effect::Internal(m, t) && m.spec_tag()
                == TAG_TURN && (m.content() matches Some(Payload::Turn(b)) && b@ == batch_of(
                entries@,
            )) && t == TargetReactor::Link(old(self).spec_host())),
    {
        let ghost entries_g = entries@;
        let mut entries = entries;
        let mut batch: Vec<PlayerMsg> = Vec::new();
        let mut taken: usize = 0;
        proof {
            assert(entries.len() == entries_g.len());
            assert(entries_g.skip(0) =~= entries_g);
            assert(batch@ =~= batch_of(entries_g).take(0));
        }
        while entries.len() > 0
            invariant
                taken <= entries_g.len(),
                entries_g.len() <= usize::MAX,
                entries@ == entries_g.skip(taken as int),
                batch@ == batch_of(entries_g).take(taken as int),
                *self == *old(self),
                handle.spec_id() == old(handle).spec_id(),
                handle.effects@ == old(handle).effects@,
            decreases entries@.len(),
        {
            proof {
                assert(entries_g.skip(taken as int)[0] == entries_g[taken as int]);
                assert(entries_g.skip(taken as int).drop_first() =~= entries_g.skip(
                    taken as int + 1,
                ));
                assert(taken < entries_g.len());
            }
            let entry = entries.remove(0);
            let data = match entry.1 {
                TurnEntry::Received(d) => Some(d),
                TurnEntry::Pending => None,
                TurnEntry::Dropped => None,
            };
            batch.push(PlayerMsg { id: entry.0, data });
            taken = taken + 1;
            proof {
                assert(entries@ =~= entries_g.skip(taken as int));
                assert(batch@ =~= batch_of(entries_g).take(taken as int));
            }
        }
        proof {
            assert(taken == entries_g.len());
            assert(batch@ =~= batch_of(entries_g));
        }
        handle.send_internal(Payload::Turn(batch), TargetReactor::Link(self.host));
        self.phase = Phase::Broadcasting;
        proof {
            assert(final(handle).effects@.drop_last() =~= old(handle).effects@);
        }
    }

    /// A player's answer arrived. While collecting, an answer from a
    /// player still expected is recorded and the player stops being
    /// expected; the turn completes — with exactly one `Turn` batch — as
    /// soon as no player is. Answers from unexpected players, and answers
    /// while broadcasting, change nothing.
    pub fn handle_player_msg(&mut self, handle: &mut ReactorHandle, msg: PlayerMsg)
        ensures
            final(self).spec_host() == old(self).spec_host(),
            final(self).spec_roster() == old(self).spec_roster(),
            final(self).spec_timeout_ms() == old(self).spec_timeout_ms(),
            final(handle).spec_id() == old(handle).spec_id(),
            old(self).spec_phase() is Broadcasting ==> (*final(self) == *old(self)
                && final(handle).effects@ == old(handle).effects@),
            old(self).spec_phase() matches Phase::Collecting(entries) ==> ({
                let after = entries_set(entries@, msg.id, record_of(msg));
                &&& !is_pending(entries@, msg.id) ==> ((final(self).spec_phase()
                    matches Phase::Collecting(now) && now@ == entries@)
                    && final(handle).effects@ == old(handle).effects@)
                &&& is_pending(entries@, msg.id) && has_pending(after) ==> ((final(self).spec_phase() matches Phase::Collecting(now) && now@ == after)
                    && final(handle).effects@ == old(handle).effects@)
                &&& is_pending(entries@, msg.id) && !has_pending(after) ==> (final(self).spec_phase() == Phase::Broadcasting && final(handle).effects@.len()
                    == old(handle).effects@.len() + 1
                    && final(handle).effects@.drop_last() == old(handle).effects@
                    && (final(handle).effects@.last() matches Effect::Internal(m, t)
                    && m.spec_tag() == TAG_TURN && (m.content() matches Some(Payload::Turn(b))
                    && b@ == batch_of(after)) && t == TargetReactor::Link(old(self).spec_host())))
            }),
    {
        let mut ph = Phase::Broadcasting;
        core::mem::swap(&mut ph, &mut self.phase);
        match ph {
            Phase::Broadcasting => {
                self.phase = Phase::Broadcasting;
            },
            Phase::Collecting(entries) => {
                let ghost entries_g = entries@;
                let ghost entries_vec_g = entries;
                let mut entries = entries;
                let mut i: usize = 0;
                proof {
                    assert(entries_g.skip(0) =~= entries_g);
                }
                while i < entries.len()
                    invariant
                        i <= entries@.len(),
                        entries@.len() == entries_g.len(),
                        entries@ == entries_g,
                        self.spec_host() == old(self).spec_host(),
                        self.spec_roster() == old(self).spec_roster(),
                        self.spec_timeout_ms() == old(self).spec_timeout_ms(),
                        self.spec_phase() == Phase::Broadcasting,
                        old(self).spec_phase() == Phase::Collecting(entries_vec_g),
                        entries_vec_g@ == entries_g,
                        handle.spec_id() == old(handle).spec_id(),
                        handle.effects@ == old(handle).effects@,
                        is_pending(entries_g, msg.id) == is_pending(
                            entries_g.skip(i as int),
                            msg.id,
                        ),
                        forall|j: int| 0 <= j < i ==> #[trigger] entries_g[j].0 != msg.id,
                    decreases entries@.len() - i,
                {
                    proof {
                        assert(entries_g.skip(i as int)[0] == entries_g[i as int]);
                        assert(entries_g.skip(i as int).drop_first() =~= entries_g.skip(
                            i as int + 1,
                        ));
                    }
                    if entries[i].0 == msg.id {
                        if !is_entry_pending(&entries[i].1) {
                            self.phase = Phase::Collecting(entries);
                            proof {
                                lemma_not_pending_here(entries_g, i as int, msg.id);
                            }
                            return ;
                        }
                        let entry = entries.remove(i);
                        let rec = match msg.data {
                            Some(d) => TurnEntry::Received(d),
                            None => TurnEntry::Dropped,
                        };
                        entries.insert(i, (msg.id, rec));
                        proof {
                            lemma_entries_set_at(entries_g, i as int, msg.id, record_of(msg));
                            assert(entries@ =~= entries_set(entries_g, msg.id, record_of(msg)));
                        }
                        if scan_has_pending(&entries) {
                            self.phase = Phase::Collecting(entries);
                        } else {
                            self.complete(handle, entries);
                        }
                        return ;
                    }
                    i = i + 1;
                }
                proof {
                    assert(entries_g.skip(i as int) =~= Seq::<(PlayerId, TurnEntry)>::empty());
                }
                self.phase = Phase::Collecting(entries);
            },
        }
    }

    /// The turn deadline fired: close the turn at once, whatever is still
    /// pending — the players that never answered are reported with no
    /// payload. A stray tick while broadcasting changes nothing.
    pub fn handle_tick(&mut self, handle: &mut ReactorHandle)
        ensures
            final(self).spec_host() == old(self).spec_host(),
            final(self).spec_roster() == old(self).spec_roster(),
            final(self).spec_timeout_ms() == old(self).spec_timeout_ms(),
            final(handle).spec_id() == old(handle).spec_id(),
            old(self).spec_phase() is Broadcasting ==> (*final(self) == *old(self)
                && final(handle).effects@ == old(handle).effects@),
            old(self).spec_phase() matches Phase::Collecting(entries) ==> (final(self).spec_phase() == Phase::Broadcasting && final(handle).effects@.len() == old(handle).effects@.len() + 1 && final(handle).effects@.drop_last() == old(handle).effects@
                && (final(handle).effects@.last() matches Effect::Internal(m, t) && m.spec_tag()
                == TAG_TURN && (m.content() matches Some(Payload::Turn(b)) && b@ == batch_of(
                entries@,
            )) && t == TargetReactor::Link(old(self).spec_host()))),
    {
        let mut ph = Phase::Broadcasting;
        core::mem::swap(&mut ph, &mut self.phase);
        match ph {
            Phase::Broadcasting => {
                self.phase = Phase::Broadcasting;
            },
            Phase::Collecting(entries) => {
                self.complete(handle, entries);
            },
        }
    }

    /// The match is being torn down: relay a kick order to every still
    /// rostered controller — so the per-player controllers and their
    /// sessions end with the match — and then end the lock's own state
    /// machine. Any armed deadline dies with the reactor, so no late turn
    /// can reach the match reactor.
    pub fn handle_close(&mut self, handle: &mut ReactorHandle)
        ensures
            *final(self) == *old(self),
            final(handle).spec_id() == old(handle).spec_id(),
            final(handle).effects@ == old(handle).effects@ + Seq::new(
                old(self).spec_roster().len(),
                |j: int| Effect::Internal(
                    Message::wrap_spec(Payload::ClientKicked(old(self).spec_roster()[j].0)),
                    TargetReactor::Link(old(self).spec_roster()[j].1),
                ),
            ) + seq![Effect::Destroy],
    {
        let ghost mid0 = handle.effects@;
        let ghost roster_g = self.roster@;
        let mut j: usize = 0;
        while j < self.roster.len()
            invariant
                j <= self.roster@.len(),
                *self == *old(self),
                self.roster@ == roster_g,
                roster_g == old(self).spec_roster(),
                mid0 == old(handle).effects@,
                handle.spec_id() == old(handle).spec_id(),
                handle.effects@ == mid0 + Seq::new(
                    j as nat,
                    |k: int| Effect::Internal(
                        Message::wrap_spec(Payload::ClientKicked(roster_g[k].0)),
                        TargetReactor::Link(roster_g[k].1),
                    ),
                ),
            decreases self.roster@.len() - j,
        {
            handle.send_internal(
                Payload::ClientKicked(self.roster[j].0),
                TargetReactor::Link(self.roster[j].1),
            );
            j = j + 1;
            proof {
                assert(handle.effects@ =~= mid0 + Seq::new(
                    j as nat,
                    |k: int| Effect::Internal(
                        Message::wrap_spec(Payload::ClientKicked(roster_g[k].0)),
                        TargetReactor::Link(roster_g[k].1),
                    ),
                ));
            }
        }
        handle.destroy();
        proof {
            assert(final(handle).effects@ =~= old(handle).effects@ + Seq::new(
                old(self).spec_roster().len(),
                |k: int| Effect::Internal(
                    Message::wrap_spec(Payload::ClientKicked(old(self).spec_roster()[k].0)),
                    TargetReactor::Link(old(self).spec_roster()[k].1),
                ),
            ) + seq![Effect::Destroy]);
        }
    }

    /// The host kicked a player: relay the kick order to that player's
    /// controller. The kick of a player without a rostered controller
    /// changes nothing; the roster itself is updated by the accompanying
    /// drop order.
    pub fn handle_client_kicked(&mut self, handle: &mut ReactorHandle, p: PlayerId)
        ensures
            *final(self) == *old(self),
            final(handle).spec_id() == old(handle).spec_id(),
            lookup_player(old(self).spec_roster(), p) is None ==> final(handle).effects@ == old(
                handle,
            ).effects@,
            (lookup_player(old(self).spec_roster(), p) matches Some(cc) ==> final(handle).effects@
                == old(handle).effects@.push(
                Effect::Internal(
                    Message::wrap_spec(Payload::ClientKicked(p)),
                    TargetReactor::Link(cc),
                ),
            )),
    {
        match lookup_player_cc(&self.roster, p) {
            Some(cc) => {
                handle.send_internal(Payload::ClientKicked(p), TargetReactor::Link(cc));
            },
            None => {},
        }
    }

    /// A player disconnected or was kicked: strike the player off the
    /// roster and, while collecting, stop expecting an answer; if that
    /// leaves nobody expected the turn completes immediately.
    pub fn handle_drop_player(&mut self, handle: &mut ReactorHandle, p: PlayerId)
        ensures
            final(self).spec_host() == old(self).spec_host(),
            final(self).spec_timeout_ms() == old(self).spec_timeout_ms(),
            final(self).spec_roster() == roster_without(old(self).spec_roster(), p),
            final(handle).spec_id() == old(handle).spec_id(),
            old(self).spec_phase() is Broadcasting ==> (final(self).spec_phase()
                == Phase::Broadcasting && final(handle).effects@ == old(handle).effects@),
            old(self).spec_phase() matches Phase::Collecting(entries) ==> ({
                let after = entries_set(entries@, p, TurnEntry::Dropped);
                &&& has_pending(after) ==> ((final(self).spec_phase()
                    matches Phase::Collecting(now) && now@ == after)
                    && final(handle).effects@ == old(handle).effects@)
                &&& !has_pending(after) ==> (final(self).spec_phase() == Phase::Broadcasting
                    && final(handle).effects@.len() == old(handle).effects@.len() + 1
                    && final(handle).effects@.drop_last() == old(handle).effects@
                    && (final(handle).effects@.last() matches Effect::Internal(m, t)
                    && m.spec_tag() == TAG_TURN && (m.content() matches Some(Payload::Turn(b))
                    && b@ == batch_of(after)) && t == TargetReactor::Link(old(self).spec_host())))
            }),
    {
        let ghost roster_g = self.roster@;
        let mut kept: Vec<(PlayerId, ReactorID)> = Vec::new();
        let mut i: usize = 0;
        proof {
            assert(roster_g.skip(0) =~= roster_g);
            assert(kept@ + roster_without(roster_g.skip(0), p) =~= roster_without(roster_g, p));
        }
        while i < self.roster.len()
            invariant
                i <= self.roster@.len(),
                self.roster@ == roster_g,
                self.spec_host() == old(self).spec_host(),
                self.spec_timeout_ms() == old(self).spec_timeout_ms(),
                self.spec_phase() == old(self).spec_phase(),
                roster_g == old(self).spec_roster(),
                kept@ + roster_without(roster_g.skip(i as int), p) == roster_without(roster_g, p),
            decreases self.roster@.len() - i,
        {
            proof {
                assert(roster_g.skip(i as int)[0] == roster_g[i as int]);
                assert(roster_g.skip(i as int).drop_first() =~= roster_g.skip(i as int + 1));
            }
            let entry = self.roster[i];
            if entry.0 != p {
                kept.push(entry);
                proof {
                    assert(kept@ + roster_without(roster_g.skip(i as int + 1), p)
                        =~= roster_without(roster_g, p));
                }
            }
            i = i + 1;
        }
        proof {
            assert(roster_g.skip(i as int) =~= Seq::<(PlayerId, ReactorID)>::empty());
            assert(kept@ =~= kept@ + roster_without(roster_g.skip(i as int), p));
        }
        self.roster = kept;
        let mut ph = Phase::Broadcasting;
        core::mem::swap(&mut ph, &mut self.phase);
        match ph {
            Phase::Broadcasting => {
                self.phase = Phase::Broadcasting;
            },
            Phase::Collecting(entries) => {
                let ghost entries_g = entries@;
                let ghost entries_vec_g = entries;
                let mut entries = entries;
                let mut i: usize = 0;
                proof {
                    assert(entries_g.skip(0) =~= entries_g);
                }
                while i < entries.len()
                    invariant
                        i <= entries@.len(),
                        entries@.len() == entries_g.len(),
                        entries@ == entries_g,
                        self.spec_host() == old(self).spec_host(),
                        self.spec_timeout_ms() == old(self).spec_timeout_ms(),
                        self.spec_roster() == roster_without(old(self).spec_roster(), p),
                        self.spec_phase() == Phase::Broadcasting,
                        old(self).spec_phase() == Phase::Collecting(entries_vec_g),
                        entries_vec_g@ == entries_g,
                        handle.spec_id() == old(handle).spec_id(),
                        handle.effects@ == old(handle).effects@,
                        forall|j: int| 0 <= j < i ==> #[trigger] entries_g[j].0 != p,
                    decreases entries@.len() - i,
                {
                    proof {
                        assert(entries_g.skip(i as int)[0] == entries_g[i as int]);
                        assert(entries_g.skip(i as int).drop_first() =~= entries_g.skip(
                            i as int + 1,
                        ));
                    }
                    if entries[i].0 == p {
                        entries.remove(i);
                        entries.insert(i, (p, TurnEntry::Dropped));
                        proof {
                            lemma_entries_set_at(entries_g, i as int, p, TurnEntry::Dropped);
                            assert(entries@ =~= entries_set(entries_g, p, TurnEntry::Dropped));
                        }
                        if scan_has_pending(&entries) {
                            self.phase = Phase::Collecting(entries);
                        } else {
                            self.complete(handle, entries);
                        }
                        return ;
                    }
                    i = i + 1;
                }
                proof {
                    assert(entries_g.skip(i as int) =~= Seq::<(PlayerId, TurnEntry)>::empty());
                    lemma_entries_set_absent(entries_g, p, TurnEntry::Dropped);
                }
                if scan_has_pending(&entries) {
                    self.phase = Phase::Collecting(entries);
                } else {
                    self.complete(handle, entries);
                }
            },
        }
    }
}

/// What the lock records for a player's answer: the payload when one came,
/// a dropped mark when none did.
pub open spec fn record_of(msg: PlayerMsg) -> TurnEntry {
    match msg.data {
        Option::Some(d) => TurnEntry::Received(d),
        Option::None => TurnEntry::Dropped,
    }
}

/// A player whose entry at `i` is not pending is not pending at all when
/// no earlier entry carries the player.
proof fn lemma_not_pending_here(entries: Seq<(PlayerId, TurnEntry)>, i: int, p: PlayerId)
    requires
        0 <= i < entries.len(),
        entries[i].0 == p,
        !(entries[i].1 is Pending),
        forall|j: int| 0 <= j < i ==> #[trigger] entries[j].0 != p,
    ensures
        !is_pending(entries, p),
    decreases i,
{
    if i == 0 {
    } else {
        assert(forall|j: int| 0 <= j < entries.drop_first().len()
            ==> entries.drop_first()[j] == entries[j + 1]);
        lemma_not_pending_here(entries.drop_first(), i - 1, p);
    }
}

/// Replacing the entry at the player's first position is what
/// `entries_set` does.
proof fn lemma_entries_set_at(entries: Seq<(PlayerId, TurnEntry)>, i: int, p: PlayerId, e: TurnEntry)
    requires
        0 <= i < entries.len(),
        entries[i].0 == p,
        forall|j: int| 0 <= j < i ==> #[trigger] entries[j].0 != p,
    ensures
        entries_set(entries, p, e) == entries.update(i, (p, e)),
    decreases i,
{
    if i == 0 {
        assert(entries_set(entries, p, e) == seq![(p, e)] + entries.drop_first());
        assert(seq![(p, e)] + entries.drop_first() =~= entries.update(0, (p, e)));
    } else {
        assert(forall|j: int| 0 <= j < entries.drop_first().len()
            ==> entries.drop_first()[j] == entries[j + 1]);
        lemma_entries_set_at(entries.drop_first(), i - 1, p, e);
        assert(entries_set(entries, p, e) == seq![entries[0]] + entries_set(
            entries.drop_first(),
            p,
            e,
        ));
        assert(seq![entries[0]] + entries.drop_first().update(i - 1, (p, e)) =~= entries.update(
            i,
            (p, e),
        ));
    }
}

/// Replacing the record of a player that carries no entry changes nothing.
proof fn lemma_entries_set_absent(entries: Seq<(PlayerId, TurnEntry)>, p: PlayerId, e: TurnEntry)
    requires
        forall|j: int| 0 <= j < entries.len() ==> #[trigger] entries[j].0 != p,
    ensures
        entries_set(entries, p, e) == entries,
    decreases entries.len(),
{
    if entries.len() > 0 {
        assert(forall|j: int| 0 <= j < entries.drop_first().len()
            ==> entries.drop_first()[j] == entries[j + 1]);
        lemma_entries_set_absent(entries.drop_first(), p, e);
        assert(entries_set(entries, p, e) =~= entries);
    }
}

/// Step-lock progress: recording the answer of a player still expected
/// strictly lowers the number of pending entries, and the deadline tick
/// closes the turn outright — so from any collecting state, each event
/// either brings the turn strictly closer to completion or completes it,
/// and at the deadline exactly one `Turn` batch reaches the host whatever
/// the players do.
pub proof fn lemma_step_lock_progress(entries: Seq<(PlayerId, TurnEntry)>, p: PlayerId, e: TurnEntry)
    requires
        is_pending(entries, p),
        !(e is Pending),
    ensures
        count_pending(entries_set(entries, p, e)) == count_pending(entries) - 1,
        count_pending(entries) >= 1,
    decreases entries.len(),
{
    if entries.len() == 0 {
    } else if entries[0].0 == p {
        assert(entries_set(entries, p, e) == seq![(p, e)] + entries.drop_first());
        assert((seq![(p, e)] + entries.drop_first()).drop_first() =~= entries.drop_first());
        assert((seq![(p, e)] + entries.drop_first())[0] == (p, e));
        lemma_count_pending_nonneg(entries.drop_first());
    } else {
        lemma_step_lock_progress(entries.drop_first(), p, e);
        assert(entries_set(entries, p, e) == seq![entries[0]] + entries_set(
            entries.drop_first(),
            p,
            e,
        ));
        assert((seq![entries[0]] + entries_set(entries.drop_first(), p, e)).drop_first()
            =~= entries_set(entries.drop_first(), p, e));
        assert((seq![entries[0]] + entries_set(entries.drop_first(), p, e))[0] == entries[0]);
    }
}

/// Pending entries are never counted negatively.
proof fn lemma_count_pending_nonneg(entries: Seq<(PlayerId, TurnEntry)>)
    ensures
        count_pending(entries) >= 0,
    decreases entries.len(),
{
    if entries.len() > 0 {
        lemma_count_pending_nonneg(entries.drop_first());
    }
}

/// Whether this record is still pending.
fn is_entry_pending(e: &TurnEntry) -> (r: bool)
    ensures
        r == (*e is Pending),
{
    match e {
        TurnEntry::Pending => true,
        TurnEntry::Received(..) => false,
        TurnEntry::Dropped => false,
    }
}

/// Whether any record is still pending.
fn scan_has_pending(entries: &Vec<(PlayerId, TurnEntry)>) -> (r: bool)
    ensures
        r == has_pending(entries@),
{
    let mut i: usize = 0;
    proof {
        assert(entries@.skip(0) =~= entries@);
    }
    while i < entries.len()
        invariant
            i <= entries@.len(),
            has_pending(entries@) == has_pending(entries@.skip(i as int)),
            forall|j: int| 0 <= j < i ==> !(#[trigger] entries@[j].1 is Pending),
        decreases entries@.len() - i,
    {
        proof {
            assert(entries@.skip(i as int)[0] == entries@[i as int]);
            assert(entries@.skip(i as int).drop_first() =~= entries@.skip(i as int + 1));
        }
        if is_entry_pending(&entries[i].1) {
            return true;
        }
        i = i + 1;
    }
    proof {
        assert(entries@.skip(i as int) =~= Seq::<(PlayerId, TurnEntry)>::empty());
    }
    false
}

/// The parameters of the lock's link to the host: completed turns pass
/// through to the host; batches, roster drops and deadline ticks are
/// republished to the lock.
pub open spec fn is_lock_host_link_params(p: LinkParams) -> bool {
    p.spec_internal() == seq![(TAG_TURN, LinkAction::ToPeer)] && p.spec_external() == seq![
        (TAG_CLOSE, LinkAction::ToReactor(TargetReactor::Reactor)),
        (TAG_CLIENT_KICKED, LinkAction::ToReactor(TargetReactor::Reactor)),
        (TAG_TICK, LinkAction::ToReactor(TargetReactor::Reactor)),
        (TAG_DROP_PLAYER, LinkAction::ToReactor(TargetReactor::Reactor)),
        (TAG_HOST_BATCH, LinkAction::ToReactor(TargetReactor::Reactor)),
    ] && p.spec_closer() is None
}

/// The parameters of the lock's link to one controller: fanned-out traffic
/// passes through to the controller, player answers are republished to the
/// lock.
pub open spec fn is_lock_controller_link_params(p: LinkParams) -> bool {
    p.spec_internal() == seq![
        (TAG_CLIENT_KICKED, LinkAction::ToPeer),
        (TAG_DATA, LinkAction::ToPeer),
    ] && p.spec_external() == seq![
        (TAG_PLAYER_MSG, LinkAction::ToReactor(TargetReactor::Reactor)),
    ] && p.spec_closer() is None
}

/// Find the controller recorded for a player.
fn lookup_player_cc(roster: &Vec<(PlayerId, ReactorID)>, p: PlayerId) -> (r: Option<ReactorID>)
    ensures
        r == lookup_player(roster@, p),
{
    let mut i: usize = 0;
    proof {
        assert(roster@.skip(0) =~= roster@);
    }
    while i < roster.len()
        invariant
            i <= roster@.len(),
            lookup_player(roster@, p) == lookup_player(roster@.skip(i as int), p),
        decreases roster@.len() - i,
    {
        proof {
            assert(roster@.skip(i as int)[0] == roster@[i as int]);
            assert(roster@.skip(i as int).drop_first() =~= roster@.skip(i as int + 1));
        }
        if roster[i].0 == p {
            return Some(roster[i].1);
        }
        i = i + 1;
    }
    proof {
        assert(roster@.skip(i as int) =~= Seq::<(PlayerId, ReactorID)>::empty());
    }
    None
}

/// Copy a payload chunk.
fn clone_data(d: &Data) -> (r: Data)
    ensures
        r == *d,
{
    Data { value: clone_string(&d.value) }
}

/// Copy a string.
fn clone_string(s: &String) -> (r: String)
    ensures
        r == *s,
{
    s.clone()
}

} // verus!
