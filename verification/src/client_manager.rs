//! The client manager: binds player tokens to client controllers.
//!
//! At match creation the manager mints one fresh 64-bit token per player
//! and answers the game supervisor with the token list. A transport
//! session that presents a known token is bound to that token's
//! controller; an unknown token is dropped silently. All tokens the
//! manager knows are distinct at all times: a token is the bitwise
//! exclusive-or of a salt drawn at start-up and a counter that never
//! repeats, so no two minted tokens coincide.

use vstd::prelude::*;

use crate::handles::{Effect, ReactorHandle, TargetReactor};
use crate::ids::ReactorID;
use crate::link::{Closer, LinkAction, LinkParams};
use crate::message::{Message, Payload, TAG_ACCEPTED, TAG_PEER_CLOSED, TAG_REGISTER_ENDPOINT,
    TAG_REGISTER_GAME, TAG_PLAYER_UUIDS, TAG_SPAWN_PLAYER};
use crate::net::{Accepted, PlayerUUIDs, RegisterEndpoint, RegisterGame, SpawnPlayer};
use crate::types::PlayerId;

verus! {

broadcast use crate::message::lemma_wrap_spec_content;

/// The token minted for counter value `ctr` under `salt`.
pub open spec fn minted_token(salt: u64, ctr: u64) -> u64 {
    salt ^ ctr
}

/// Whether some entry carries the token `t`.
pub open spec fn contains_token(s: Seq<(u64, (PlayerId, ReactorID))>, t: u64) -> bool
    decreases s.len(),
{
    if s.len() == 0 {
        false
    } else {
        s[0].0 == t || contains_token(s.drop_first(), t)
    }
}

/// No two entries carry the same token.
pub open spec fn tokens_distinct(s: Seq<(u64, (PlayerId, ReactorID))>) -> bool
    decreases s.len(),
{
    if s.len() == 0 {
        true
    } else {
        !contains_token(s.drop_first(), s[0].0) && tokens_distinct(s.drop_first())
    }
}

/// Every recorded token decodes, under `salt`, to a counter value that was
/// already used up.
pub open spec fn counters_spent(
    s: Seq<(u64, (PlayerId, ReactorID))>,
    salt: u64,
    next: u64,
) -> bool
    decreases s.len(),
{
    if s.len() == 0 {
        true
    } else {
        (s[0].0 ^ salt) < next && counters_spent(s.drop_first(), salt, next)
    }
}

/// The entry recorded for `token`, if any.
pub open spec fn lookup_client(
    s: Seq<(u64, (PlayerId, ReactorID))>,
    token: u64,
) -> Option<(PlayerId, ReactorID)>
    decreases s.len(),
{
    if s.len() == 0 {
        Option::None
    } else if s[0].0 == token {
        Option::Some(s[0].1)
    } else {
        lookup_client(s.drop_first(), token)
    }
}

/// The table with every entry bound to the controller `cc` removed.
pub open spec fn drop_controller(
    s: Seq<(u64, (PlayerId, ReactorID))>,
    cc: ReactorID,
) -> Seq<(u64, (PlayerId, ReactorID))>
    decreases s.len(),
{
    if s.len() == 0 {
        s
    } else if s[0].1.1 == cc {
        drop_controller(s.drop_first(), cc)
    } else {
        seq![s[0]] + drop_controller(s.drop_first(), cc)
    }
}

/// A token carried by the filtered table is carried by the original one.
proof fn lemma_drop_controller_keeps(s: Seq<(u64, (PlayerId, ReactorID))>, cc: ReactorID, t: u64)
    ensures
        contains_token(drop_controller(s, cc), t) ==> contains_token(s, t),
    decreases s.len(),
{
    if s.len() == 0 {
    } else {
        lemma_drop_controller_keeps(s.drop_first(), cc, t);
        if s[0].1.1 != cc {
            let d = drop_controller(s, cc);
            assert(d[0] == s[0]);
            assert(d.drop_first() =~= drop_controller(s.drop_first(), cc));
        }
    }
}

/// Filtering by controller keeps the tokens distinct and the counters
/// spent.
proof fn lemma_drop_controller_wf(
    s: Seq<(u64, (PlayerId, ReactorID))>,
    cc: ReactorID,
    salt: u64,
    next: u64,
)
    requires
        tokens_distinct(s),
        counters_spent(s, salt, next),
    ensures
        tokens_distinct(drop_controller(s, cc)),
        counters_spent(drop_controller(s, cc), salt, next),
    decreases s.len(),
{
    if s.len() == 0 {
    } else {
        lemma_drop_controller_wf(s.drop_first(), cc, salt, next);
        if s[0].1.1 != cc {
            let d = drop_controller(s, cc);
            assert(d[0] == s[0]);
            assert(d.drop_first() =~= drop_controller(s.drop_first(), cc));
            lemma_drop_controller_keeps(s.drop_first(), cc, s[0].0);
        }
    }
}

/// Appending an entry keeps membership of the old tokens and adds the new
/// one.
proof fn lemma_contains_push(s: Seq<(u64, (PlayerId, ReactorID))>, e: (u64, (PlayerId, ReactorID)), t: u64)
    ensures
        contains_token(s.push(e), t) == (contains_token(s, t) || e.0 == t),
    decreases s.len(),
{
    if s.len() == 0 {
        assert(s.push(e)[0] == e);
        assert(s.push(e).drop_first() =~= Seq::<(u64, (PlayerId, ReactorID))>::empty());
        assert(s.push(e).len() == 1);
        assert(contains_token(s.push(e), t) == (s.push(e)[0].0 == t || contains_token(
            s.push(e).drop_first(),
            t,
        )));
        assert(!contains_token(s, t));
    } else {
        assert(s.push(e)[0] == s[0]);
        assert(s.push(e).drop_first() =~= s.drop_first().push(e));
        lemma_contains_push(s.drop_first(), e, t);
        assert(contains_token(s.push(e), t) == (s.push(e)[0].0 == t || contains_token(
            s.push(e).drop_first(),
            t,
        )));
        assert(contains_token(s, t) == (s[0].0 == t || contains_token(s.drop_first(), t)));
    }
}

/// Appending an entry whose token is fresh keeps the tokens distinct.
proof fn lemma_distinct_push(s: Seq<(u64, (PlayerId, ReactorID))>, e: (u64, (PlayerId, ReactorID)))
    requires
        tokens_distinct(s),
        !contains_token(s, e.0),
    ensures
        tokens_distinct(s.push(e)),
    decreases s.len(),
{
    if s.len() == 0 {
        assert(s.push(e)[0] == e);
        assert(s.push(e).drop_first() =~= Seq::<(u64, (PlayerId, ReactorID))>::empty());
        assert(tokens_distinct(s.push(e)) == (!contains_token(
            s.push(e).drop_first(),
            s.push(e)[0].0,
        ) && tokens_distinct(s.push(e).drop_first())));
    } else {
        assert(s.push(e)[0] == s[0]);
        assert(s.push(e).drop_first() =~= s.drop_first().push(e));
        lemma_distinct_push(s.drop_first(), e);
        lemma_contains_push(s.drop_first(), e, s[0].0);
        assert(tokens_distinct(s.push(e)) == (!contains_token(
            s.push(e).drop_first(),
            s.push(e)[0].0,
        ) && tokens_distinct(s.push(e).drop_first())));
        assert(!contains_token(s.drop_first(), s[0].0) && tokens_distinct(s.drop_first()));
    }
}

/// Appending an entry with a spent counter keeps the counters spent.
proof fn lemma_counters_push(
    s: Seq<(u64, (PlayerId, ReactorID))>,
    e: (u64, (PlayerId, ReactorID)),
    salt: u64,
    next: u64,
)
    requires
        counters_spent(s, salt, next),
        (e.0 ^ salt) < next,
    ensures
        counters_spent(s.push(e), salt, next),
    decreases s.len(),
{
    if s.len() == 0 {
        assert(s.push(e)[0] == e);
        assert(s.push(e).drop_first() =~= Seq::<(u64, (PlayerId, ReactorID))>::empty());
        assert(counters_spent(s.push(e), salt, next) == ((s.push(e)[0].0 ^ salt) < next
            && counters_spent(s.push(e).drop_first(), salt, next)));
    } else {
        assert(s.push(e)[0] == s[0]);
        assert(s.push(e).drop_first() =~= s.drop_first().push(e));
        lemma_counters_push(s.drop_first(), e, salt, next);
        assert(counters_spent(s.push(e), salt, next) == ((s.push(e)[0].0 ^ salt) < next
            && counters_spent(s.push(e).drop_first(), salt, next)));
        assert((s[0].0 ^ salt) < next && counters_spent(s.drop_first(), salt, next));
    }
}

/// Spent counters stay spent as the counter moves on.
proof fn lemma_counters_mono(s: Seq<(u64, (PlayerId, ReactorID))>, salt: u64, n1: u64, n2: u64)
    requires
        counters_spent(s, salt, n1),
        n1 <= n2,
    ensures
        counters_spent(s, salt, n2),
    decreases s.len(),
{
    if s.len() > 0 {
        lemma_counters_mono(s.drop_first(), salt, n1, n2);
    }
}

/// The token minted from the next counter value is carried by no entry
/// whose counter is already spent.
proof fn lemma_minted_fresh(s: Seq<(u64, (PlayerId, ReactorID))>, salt: u64, next: u64)
    requires
        counters_spent(s, salt, next),
    ensures
        !contains_token(s, minted_token(salt, next)),
    decreases s.len(),
{
    if s.len() > 0 {
        lemma_minted_fresh(s.drop_first(), salt, next);
        if s[0].0 == minted_token(salt, next) {
            lemma_xor_cancel(salt, next);
            assert((s[0].0 ^ salt) == next);
        }
    }
}

/// An entry's token is carried by the table.
proof fn lemma_contains_at(s: Seq<(u64, (PlayerId, ReactorID))>, i: int)
    requires
        0 <= i < s.len(),
    ensures
        contains_token(s, s[i].0),
    decreases i,
{
    if i > 0 {
        assert(forall|j: int| 0 <= j < s.drop_first().len()
            ==> s.drop_first()[j] == s[j + 1]);
        lemma_contains_at(s.drop_first(), i - 1);
    }
}

/// Token uniqueness at work: while the tokens are distinct, a token's
/// entry is the one and only binding the lookup can answer with — so a
/// session presenting the token is attached to exactly that entry's
/// controller, and never to a second one.
pub proof fn lemma_token_binding_unique(s: Seq<(u64, (PlayerId, ReactorID))>, i: int)
    requires
        tokens_distinct(s),
        0 <= i < s.len(),
    ensures
        lookup_client(s, s[i].0) == Some(s[i].1),
    decreases i,
{
    if i == 0 {
    } else {
        assert(forall|j: int| 0 <= j < s.drop_first().len()
            ==> s.drop_first()[j] == s[j + 1]);
        lemma_token_binding_unique(s.drop_first(), i - 1);
        lemma_contains_at(s.drop_first(), i - 1);
        assert(s[0].0 != s[i].0);
    }
}

/// Undoing the salt recovers the counter.
proof fn lemma_xor_cancel(salt: u64, ctr: u64)
    ensures
        (salt ^ ctr) ^ salt == ctr,
{
    assert((salt ^ ctr) ^ salt == ctr) by (bit_vector);
}

/// The parameters of the link the manager opens to a client controller:
/// acceptance notices pass through to the controller, the controller's
/// exit notice is republished to the manager — which then forgets the
/// controller's tokens — and the closer reports the controller's
/// identifier back when the link closes locally.
pub open spec fn is_cc_link_params(p: LinkParams) -> bool {
    p.spec_internal() == seq![(TAG_ACCEPTED, LinkAction::ToPeer)] && p.spec_external() == seq![
        (TAG_PEER_CLOSED, LinkAction::ToReactor(TargetReactor::Reactor)),
    ] && p.spec_closer() == Some(Closer::NotifyReactor)
}

/// The parameters of the link the manager opens to a transport endpoint:
/// session arrivals are republished to the manager itself.
pub open spec fn is_endpoint_link_params(p: LinkParams) -> bool {
    p.spec_internal() == Seq::<(u64, LinkAction)>::empty() && p.spec_external() == seq![
        (TAG_SPAWN_PLAYER, LinkAction::ToReactor(TargetReactor::Reactor)),
    ] && p.spec_closer() is None
}

/// The parameters of the manager's link to the game supervisor: token
/// lists pass through outward, match and endpoint announcements are
/// republished to the manager itself.
pub open spec fn is_gm_link_params(p: LinkParams) -> bool {
    p.spec_internal() == seq![(TAG_PLAYER_UUIDS, LinkAction::ToPeer)] && p.spec_external() == seq![
        (TAG_REGISTER_ENDPOINT, LinkAction::ToReactor(TargetReactor::Reactor)),
        (TAG_REGISTER_GAME, LinkAction::ToReactor(TargetReactor::Reactor)),
    ] && p.spec_closer() is None
}

/// The client manager's state: the token table and the supervisor's
/// identifier, plus the salt and counter the tokens are minted from.
#[derive(Debug)]
pub struct ClientManager {
    clients: Vec<(u64, (PlayerId, ReactorID))>,
    game_manager: ReactorID,
    token_salt: u64,
    tokens_minted: u64,
}

impl ClientManager {
    /// The token table, as a specification value.
    pub closed spec fn spec_clients(&self) -> Seq<(u64, (PlayerId, ReactorID))> {
        self.clients@
    }

    /// The supervisor's identifier, as a specification value.
    pub closed spec fn spec_game_manager(&self) -> ReactorID {
        self.game_manager
    }

    /// The salt, as a specification value.
    pub closed spec fn spec_salt(&self) -> u64 {
        self.token_salt
    }

    /// How many tokens were minted so far, as a specification value.
    pub closed spec fn spec_minted(&self) -> u64 {
        self.tokens_minted
    }

    /// Token uniqueness: all tokens the manager knows are distinct, and
    /// each decodes to a counter value below the next one to be used.
    pub open spec fn wf(&self) -> bool {
        tokens_distinct(self.spec_clients()) && counters_spent(
            self.spec_clients(),
            self.spec_salt(),
            self.spec_minted(),
        )
    }

    /// How many tokens were minted so far.
    pub fn minted(&self) -> (r: u64)
        ensures
            r == self.spec_minted(),
    {
        self.tokens_minted
    }

    /// A manager with no clients, answering to the given supervisor. The
    /// token salt is drawn at random.
    pub fn new(game_manager: ReactorID) -> (r: ClientManager)
        ensures
            r.spec_clients() == Seq::<(u64, (PlayerId, ReactorID))>::empty(),
            r.spec_game_manager() == game_manager,
            r.spec_minted() == 0,
            r.wf(),
    {
        ClientManager {
            clients: Vec::new(),
            game_manager,
            token_salt: crate::rng::random_u64(),
            tokens_minted: 0,
        }
    }

    /// On start-up the manager opens its link to the game supervisor.
    pub fn init(&self, handle: &mut ReactorHandle)
        ensures
            final(handle).spec_id() == old(handle).spec_id(),
            final(handle).effects@.len() == old(handle).effects@.len() + 1,
            final(handle).effects@.take(old(handle).effects@.len() as int) == old(handle).effects@,
            (final(handle).effects@.last() matches Effect::OpenLink(peer, p, auto)
                && peer == self.spec_game_manager() && is_gm_link_params(p) && !auto),
    {
        let mut params = LinkParams::new();
        params.internal_handler(TAG_PLAYER_UUIDS, LinkAction::ToPeer);
        params.external_handler(TAG_REGISTER_GAME, LinkAction::ToReactor(TargetReactor::Reactor));
        params.external_handler(
            TAG_REGISTER_ENDPOINT,
            LinkAction::ToReactor(TargetReactor::Reactor),
        );
        proof {
            assert(params.spec_internal() =~= seq![(TAG_PLAYER_UUIDS, LinkAction::ToPeer)]);
            assert(params.spec_external() =~= seq![
                (TAG_REGISTER_ENDPOINT, LinkAction::ToReactor(TargetReactor::Reactor)),
                (TAG_REGISTER_GAME, LinkAction::ToReactor(TargetReactor::Reactor)),
            ]);
        }
        handle.open_link(self.game_manager, params, false);
        proof {
            assert(final(handle).effects@.take(old(handle).effects@.len() as int)
                =~= old(handle).effects@);
        }
    }

    /// Accept a match announcement: mint one fresh token per player,
    /// record each under its player and controller, answer the supervisor
    /// with the token list, and open a notifying link to every controller.
    ///
    /// Token uniqueness is kept: the minted tokens are distinct from each
    /// other and from every token already recorded.
    pub fn handle_spawn_game(&mut self, handle: &mut ReactorHandle, cs: &RegisterGame)
        requires
            old(self).wf(),
            old(self).spec_minted() + cs.players@.len() <= u64::MAX,
        ensures
            final(self).wf(),
            final(self).spec_game_manager() == old(self).spec_game_manager(),
            final(self).spec_salt() == old(self).spec_salt(),
            final(self).spec_minted() == old(self).spec_minted() + cs.players@.len(),
            final(self).spec_clients() == old(self).spec_clients() + Seq::new(
                cs.players@.len(),
                |k: int| (
                    minted_token(old(self).spec_salt(), (old(self).spec_minted() + k) as u64),
                    cs.players@[k],
                ),
            ),
            final(handle).spec_id() == old(handle).spec_id(),
            final(handle).effects@.len() == old(handle).effects@.len() + 1 + cs.players@.len(),
            final(handle).effects@.take(old(handle).effects@.len() as int) == old(handle).effects@,
            (final(handle).effects@[old(handle).effects@.len() as int] matches Effect::Internal(
                m,
                t,
            ) && m.spec_tag() == TAG_PLAYER_UUIDS && (m.content() matches Some(
                Payload::PlayerUUIDs(u),
            ) && u.game == cs.game && u.ids@ == Seq::new(
                cs.players@.len(),
                |k: int| minted_token(old(self).spec_salt(), (old(self).spec_minted() + k) as u64),
            )) && t == TargetReactor::Link(old(self).spec_game_manager())),
            forall|k: int| 0 <= k < cs.players@.len()
                ==> (#[trigger] final(handle).effects@[old(handle).effects@.len() + 1 + k]
                    matches Effect::OpenLink(peer, p, auto) && peer == cs.players@[k].1
                    && is_cc_link_params(p) && auto),
    {
        let ghost old_clients = self.clients@;
        let ghost salt = self.token_salt;
        let ghost first = self.tokens_minted;
        let mut ids: Vec<u64> = Vec::new();
        let mut k: usize = 0;
        while k < cs.players.len()
            invariant
                k <= cs.players@.len(),
                self.spec_salt() == salt,
                self.spec_game_manager() == old(self).spec_game_manager(),
                first == old(self).spec_minted(),
                first + cs.players@.len() <= u64::MAX,
                self.spec_minted() == first + k,
                ids@.len() == k,
                forall|j: int| 0 <= j < k ==> ids@[j] == minted_token(salt, (first + j) as u64),
                self.spec_clients() == old_clients + Seq::new(
                    k as nat,
                    |j: int| (minted_token(salt, (first + j) as u64), cs.players@[j]),
                ),
                old_clients == old(self).spec_clients(),
                tokens_distinct(self.spec_clients()),
                counters_spent(self.spec_clients(), salt, self.spec_minted()),
            decreases cs.players@.len() - k,
        {
            let ghost pre = self.clients@;
            let ghost ctr = self.tokens_minted;
            let token = self.token_salt ^ self.tokens_minted;
            proof {
                lemma_minted_fresh(pre, salt, ctr);
            }
            ids.push(token);
            let player = (cs.players[k].0, cs.players[k].1);
            self.clients.push((token, player));
            proof {
                lemma_distinct_push(pre, (token, player));
                lemma_counters_mono(pre, salt, ctr, (ctr + 1) as u64);
                lemma_xor_cancel(salt, ctr);
                lemma_counters_push(pre, (token, player), salt, (ctr + 1) as u64);
            }
            self.tokens_minted = self.tokens_minted + 1;
            k = k + 1;
            proof {
                assert(self.spec_clients() =~= old_clients + Seq::new(
                    k as nat,
                    |j: int| (minted_token(salt, (first + j) as u64), cs.players@[j]),
                ));
            }
        }
        let uuids = PlayerUUIDs { game: cs.game, ids };
        handle.send_internal(Payload::PlayerUUIDs(uuids), TargetReactor::Link(self.game_manager));
        proof {
            assert(Seq::new(cs.players@.len(), |k: int| ids@[k]) =~= ids@);
            assert(ids@ =~= Seq::new(
                cs.players@.len(),
                |k: int| minted_token(salt, (first + k) as u64),
            ));
        }
        let ghost mid_effects = handle.effects@;
        let mut k: usize = 0;
        while k < cs.players.len()
            invariant
                k <= cs.players@.len(),
                handle.spec_id() == old(handle).spec_id(),
                handle.effects@.len() == mid_effects.len() + k,
                handle.effects@.take(mid_effects.len() as int) == mid_effects,
                forall|j: int| 0 <= j < k
                    ==> (#[trigger] handle.effects@[mid_effects.len() + j]
                        matches Effect::OpenLink(peer, p, auto) && peer == cs.players@[j].1
                        && is_cc_link_params(p) && auto),
            decreases cs.players@.len() - k,
        {
            let mut cc_params = LinkParams::new();
            cc_params.internal_handler(TAG_ACCEPTED, LinkAction::ToPeer);
            cc_params.external_handler(
                TAG_PEER_CLOSED,
                LinkAction::ToReactor(TargetReactor::Reactor),
            );
            cc_params.closer(Closer::NotifyReactor);
            proof {
                assert(cc_params.spec_internal() =~= seq![(TAG_ACCEPTED, LinkAction::ToPeer)]);
                assert(cc_params.spec_external() =~= seq![
                    (TAG_PEER_CLOSED, LinkAction::ToReactor(TargetReactor::Reactor)),
                ]);
            }
            handle.open_link(cs.players[k].1, cc_params, true);
            k = k + 1;
            proof {
                assert(handle.effects@.take(mid_effects.len() as int) =~= mid_effects);
            }
        }
        proof {
            assert(final(handle).effects@.take(old(handle).effects@.len() as int)
                =~= old(handle).effects@);
            assert(final(handle).effects@[old(handle).effects@.len() as int]
                == mid_effects[old(handle).effects@.len() as int]) by {
                assert(final(handle).effects@.take(mid_effects.len() as int)
                    == mid_effects);
            }
        }
    }

    /// A client controller exited: forget every token bound to it. Tokens
    /// stay distinct.
    pub fn handle_cc_close(&mut self, handle: &mut ReactorHandle, id: &ReactorID)
        requires
            old(self).wf(),
        ensures
            final(self).wf(),
            final(self).spec_game_manager() == old(self).spec_game_manager(),
            final(self).spec_salt() == old(self).spec_salt(),
            final(self).spec_minted() == old(self).spec_minted(),
            final(self).spec_clients() == drop_controller(old(self).spec_clients(), *id),
            *final(handle) == *old(handle),
    {
        let ghost orig = self.clients@;
        let mut kept: Vec<(u64, (PlayerId, ReactorID))> = Vec::new();
        let mut i: usize = 0;
        proof {
            assert(orig.skip(0) =~= orig);
            assert(kept@ + drop_controller(orig.skip(0), *id) =~= drop_controller(orig, *id));
        }
        while i < self.clients.len()
            invariant
                i <= self.clients@.len(),
                self.clients@ == orig,
                self.spec_game_manager() == old(self).spec_game_manager(),
                self.spec_salt() == old(self).spec_salt(),
                self.spec_minted() == old(self).spec_minted(),
                kept@ + drop_controller(orig.skip(i as int), *id) == drop_controller(orig, *id),
            decreases self.clients@.len() - i,
        {
            proof {
                assert(orig.skip(i as int)[0] == orig[i as int]);
                assert(orig.skip(i as int).drop_first() =~= orig.skip(i as int + 1));
            }
            let entry = self.clients[i];
            if entry.1.1 != *id {
                kept.push(entry);
                proof {
                    assert(kept@ + drop_controller(orig.skip(i as int + 1), *id)
                        =~= drop_controller(orig, *id));
                }
            }
            i = i + 1;
        }
        proof {
            assert(orig.skip(i as int) =~= Seq::<(u64, (PlayerId, ReactorID))>::empty());
            assert(kept@ =~= kept@ + drop_controller(orig.skip(i as int), *id));
            lemma_drop_controller_wf(orig, *id, self.token_salt, self.tokens_minted);
        }
        self.clients = kept;
    }

    /// An endpoint announced itself: open the link its session arrivals
    /// come in on.
    pub fn handle_register_endpoint(&mut self, handle: &mut ReactorHandle, reg: &RegisterEndpoint)
        ensures
            *final(self) == *old(self),
            final(handle).spec_id() == old(handle).spec_id(),
            final(handle).effects@.len() == old(handle).effects@.len() + 1,
            final(handle).effects@.take(old(handle).effects@.len() as int) == old(handle).effects@,
            (final(handle).effects@.last() matches Effect::OpenLink(peer, p, auto)
                && peer == reg.0 && is_endpoint_link_params(p) && !auto),
    {
        let mut params = LinkParams::new();
        params.external_handler(TAG_SPAWN_PLAYER, LinkAction::ToReactor(TargetReactor::Reactor));
        proof {
            assert(params.spec_external() =~= seq![
                (TAG_SPAWN_PLAYER, LinkAction::ToReactor(TargetReactor::Reactor)),
            ]);
        }
        handle.open_link(reg.0, params, false);
        proof {
            assert(final(handle).effects@.take(old(handle).effects@.len() as int)
                =~= old(handle).effects@);
        }
    }

    /// A session presented a token. A known token is answered with
    /// exactly one acceptance, aimed at the one controller recorded for
    /// it, so at most one session is attached per token at a time; an
    /// unknown token is dropped silently and nothing changes.
    pub fn handle_player_regiser(&mut self, handle: &mut ReactorHandle, reg: &SpawnPlayer)
        ensures
            *final(self) == *old(self),
            final(handle).spec_id() == old(handle).spec_id(),
            lookup_client(old(self).spec_clients(), reg.player) is None ==> final(handle).effects@
                == old(handle).effects@,
            (lookup_client(old(self).spec_clients(), reg.player) matches Some(entry)
                ==> final(handle).effects@ == old(handle).effects@.push(
                Effect::Internal(
                    Message::wrap_spec(
                        Payload::Accepted(
                            Accepted {
                                player: entry.0,
                                client_id: reg.session,
                                contr_id: entry.1,
                            },
                        ),
                    ),
                    TargetReactor::Link(entry.1),
                ),
            )),
    {
        let ghost orig = self.clients@;
        let mut i: usize = 0;
        proof {
            assert(orig.skip(0) =~= orig);
        }
        while i < self.clients.len()
            invariant
                i <= self.clients@.len(),
                self.clients@ == orig,
                orig == old(self).spec_clients(),
                handle.spec_id() == old(handle).spec_id(),
                handle.effects@ == old(handle).effects@,
                forall|j: int| 0 <= j < i ==> #[trigger] orig[j].0 != reg.player,
                lookup_client(orig, reg.player) == lookup_client(orig.skip(i as int), reg.player),
            decreases self.clients@.len() - i,
        {
            proof {
                assert(orig.skip(i as int)[0] == orig[i as int]);
                assert(orig.skip(i as int).drop_first() =~= orig.skip(i as int + 1));
            }
            let entry = self.clients[i];
            if entry.0 == reg.player {
                let accept = Accepted {
                    player: entry.1.0,
                    client_id: reg.session,
                    contr_id: entry.1.1,
                };
                handle.send_internal(
                    Payload::Accepted(accept),
                    TargetReactor::Link(entry.1.1),
                );
                return ;
            }
            i = i + 1;
        }
        proof {
            assert(orig.skip(i as int) =~= Seq::<(u64, (PlayerId, ReactorID))>::empty());
        }
    }
}

} // verus!
