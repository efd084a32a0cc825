//! The broker: the process-wide registry from reactor identifier to inbound
//! mailbox.
//!
//! The broker routes every cross-reactor message. A mailbox is a queue:
//! dispatch appends at the back, the driver receives from the front, so for
//! every ordered pair of reactors the receiver observes the sender's
//! messages in the order they were enqueued.

use vstd::prelude::*;

use crate::errors::ErrorKind;
use crate::handles::Envelope;
use crate::ids::ReactorID;

verus! {

/// Whether the table holds an entry for `id`.
pub open spec fn has_actor(s: Seq<(ReactorID, Seq<Envelope>)>, id: ReactorID) -> bool
    decreases s.len(),
{
    if s.len() == 0 {
        false
    } else if s[0].0 == id {
        true
    } else {
        has_actor(s.drop_first(), id)
    }
}

/// The mailbox recorded for `id`; the empty queue when none is.
pub open spec fn mailbox_of(s: Seq<(ReactorID, Seq<Envelope>)>, id: ReactorID) -> Seq<Envelope>
    decreases s.len(),
{
    if s.len() == 0 {
        Seq::<Envelope>::empty()
    } else if s[0].0 == id {
        s[0].1
    } else {
        mailbox_of(s.drop_first(), id)
    }
}

/// The table with the entry for `id` removed.
pub open spec fn without_actor(
    s: Seq<(ReactorID, Seq<Envelope>)>,
    id: ReactorID,
) -> Seq<(ReactorID, Seq<Envelope>)>
    decreases s.len(),
{
    if s.len() == 0 {
        s
    } else if s[0].0 == id {
        s.drop_first()
    } else {
        seq![s[0]] + without_actor(s.drop_first(), id)
    }
}

/// The table with the mailbox for `id` replaced by `mb`.
pub open spec fn with_mailbox(
    s: Seq<(ReactorID, Seq<Envelope>)>,
    id: ReactorID,
    mb: Seq<Envelope>,
) -> Seq<(ReactorID, Seq<Envelope>)>
    decreases s.len(),
{
    if s.len() == 0 {
        s
    } else if s[0].0 == id {
        seq![(id, mb)] + s.drop_first()
    } else {
        seq![s[0]] + with_mailbox(s.drop_first(), id, mb)
    }
}

/// A non-empty mailbox belongs to a registered identifier.
pub proof fn lemma_mailbox_needs_actor(s: Seq<(ReactorID, Seq<Envelope>)>, id: ReactorID)
    requires
        mailbox_of(s, id).len() > 0,
    ensures
        has_actor(s, id),
    decreases s.len(),
{
    if s.len() > 0 && s[0].0 != id {
        lemma_mailbox_needs_actor(s.drop_first(), id);
    }
}

/// Replacing a mailbox leaves exactly that mailbox under its identifier
/// and keeps every other entry.
pub proof fn lemma_with_mailbox_get(s: Seq<(ReactorID, Seq<Envelope>)>, id: ReactorID, mb: Seq<Envelope>)
    requires
        has_actor(s, id),
    ensures
        mailbox_of(with_mailbox(s, id, mb), id) == mb,
        has_actor(with_mailbox(s, id, mb), id),
    decreases s.len(),
{
    if s.len() == 0 {
    } else if s[0].0 == id {
        let w = with_mailbox(s, id, mb);
        assert(w == seq![(id, mb)] + s.drop_first());
        assert(w[0] == (id, mb));
    } else {
        lemma_with_mailbox_get(s.drop_first(), id, mb);
        let w = with_mailbox(s, id, mb);
        assert(w == seq![s[0]] + with_mailbox(s.drop_first(), id, mb));
        assert(w[0] == s[0]);
        assert(w.drop_first() =~= with_mailbox(s.drop_first(), id, mb));
    }
}

/// No two entries carry the same identifier.
pub open spec fn ids_distinct(s: Seq<(ReactorID, Seq<Envelope>)>) -> bool
    decreases s.len(),
{
    if s.len() == 0 {
        true
    } else {
        !has_actor(s.drop_first(), s[0].0) && ids_distinct(s.drop_first())
    }
}

/// Registering a fresh identifier keeps the identifiers distinct.
pub proof fn lemma_ids_distinct_push(
    s: Seq<(ReactorID, Seq<Envelope>)>,
    e: (ReactorID, Seq<Envelope>),
)
    requires
        ids_distinct(s),
        !has_actor(s, e.0),
    ensures
        ids_distinct(s.push(e)),
    decreases s.len(),
{
    if s.len() == 0 {
        assert(s.push(e)[0] == e);
        assert(s.push(e).drop_first() =~= Seq::<(ReactorID, Seq<Envelope>)>::empty());
        assert(ids_distinct(s.push(e)) == (!has_actor(s.push(e).drop_first(), s.push(e)[0].0)
            && ids_distinct(s.push(e).drop_first())));
    } else {
        assert(s.push(e)[0] == s[0]);
        assert(s.push(e).drop_first() =~= s.drop_first().push(e));
        lemma_ids_distinct_push(s.drop_first(), e);
        lemma_has_actor_push(s.drop_first(), e, s[0].0);
        assert(ids_distinct(s.push(e)) == (!has_actor(s.push(e).drop_first(), s.push(e)[0].0)
            && ids_distinct(s.push(e).drop_first())));
    }
}

/// Appending an entry keeps the old identifiers present and adds the new
/// one.
pub proof fn lemma_has_actor_push(
    s: Seq<(ReactorID, Seq<Envelope>)>,
    e: (ReactorID, Seq<Envelope>),
    x: ReactorID,
)
    ensures
        has_actor(s.push(e), x) == (has_actor(s, x) || e.0 == x),
    decreases s.len(),
{
    if s.len() == 0 {
        assert(s.push(e)[0] == e);
        assert(s.push(e).drop_first() =~= Seq::<(ReactorID, Seq<Envelope>)>::empty());
        assert(has_actor(s.push(e), x) == (s.push(e)[0].0 == x || has_actor(
            s.push(e).drop_first(),
            x,
        )));
    } else {
        assert(s.push(e)[0] == s[0]);
        assert(s.push(e).drop_first() =~= s.drop_first().push(e));
        lemma_has_actor_push(s.drop_first(), e, x);
        assert(has_actor(s.push(e), x) == (s.push(e)[0].0 == x || has_actor(
            s.push(e).drop_first(),
            x,
        )));
    }
}

/// Removing an identifier from a distinct table removes it for good and
/// keeps the rest distinct and present.
pub proof fn lemma_ids_distinct_without(s: Seq<(ReactorID, Seq<Envelope>)>, id: ReactorID)
    requires
        ids_distinct(s),
    ensures
        ids_distinct(without_actor(s, id)),
        !has_actor(without_actor(s, id), id),
        forall|x: ReactorID| x != id ==> #[trigger] has_actor(without_actor(s, id), x)
            == has_actor(s, x),
    decreases s.len(),
{
    if s.len() == 0 {
    } else if s[0].0 == id {
        lemma_without_absent(s.drop_first(), id);
    } else {
        lemma_ids_distinct_without(s.drop_first(), id);
        let w = without_actor(s, id);
        assert(w == seq![s[0]] + without_actor(s.drop_first(), id));
        assert(w[0] == s[0]);
        assert(w.drop_first() =~= without_actor(s.drop_first(), id));
        assert forall|x: ReactorID| x != id implies #[trigger] has_actor(w, x) == has_actor(
            s,
            x,
        ) by {
            assert(has_actor(w, x) == (w[0].0 == x || has_actor(w.drop_first(), x)));
        }
    }
}

/// An identifier carried by no entry stays absent after a removal, and the
/// removal changes nothing.
proof fn lemma_without_absent(s: Seq<(ReactorID, Seq<Envelope>)>, id: ReactorID)
    requires
        !has_actor(s, id),
    ensures
        without_actor(s, id) == s,
        !has_actor(without_actor(s, id), id),
    decreases s.len(),
{
    if s.len() > 0 {
        lemma_without_absent(s.drop_first(), id);
        assert(without_actor(s, id) =~= s);
    }
}

/// Replacing a mailbox keeps every identifier exactly as present as it
/// was, keeps distinctness, and leaves every other mailbox alone.
pub proof fn lemma_with_mailbox_preserves(
    s: Seq<(ReactorID, Seq<Envelope>)>,
    id: ReactorID,
    mb: Seq<Envelope>,
)
    ensures
        forall|x: ReactorID| #[trigger] has_actor(with_mailbox(s, id, mb), x) == has_actor(s, x),
        forall|x: ReactorID| x != id ==> #[trigger] mailbox_of(with_mailbox(s, id, mb), x)
            == mailbox_of(s, x),
        ids_distinct(s) ==> ids_distinct(with_mailbox(s, id, mb)),
    decreases s.len(),
{
    if s.len() == 0 {
    } else if s[0].0 == id {
        let w = with_mailbox(s, id, mb);
        assert(w == seq![(id, mb)] + s.drop_first());
        assert(w[0] == (id, mb));
        assert(w.drop_first() =~= s.drop_first());
        assert forall|x: ReactorID| #[trigger] has_actor(w, x) == has_actor(s, x) by {
            assert(has_actor(w, x) == (w[0].0 == x || has_actor(w.drop_first(), x)));
            assert(has_actor(s, x) == (s[0].0 == x || has_actor(s.drop_first(), x)));
        }
        assert forall|x: ReactorID| x != id implies #[trigger] mailbox_of(w, x) == mailbox_of(
            s,
            x,
        ) by {
        }
    } else {
        lemma_with_mailbox_preserves(s.drop_first(), id, mb);
        let w = with_mailbox(s, id, mb);
        assert(w == seq![s[0]] + with_mailbox(s.drop_first(), id, mb));
        assert(w[0] == s[0]);
        assert(w.drop_first() =~= with_mailbox(s.drop_first(), id, mb));
        assert forall|x: ReactorID| #[trigger] has_actor(w, x) == has_actor(s, x) by {
            assert(has_actor(w, x) == (w[0].0 == x || has_actor(w.drop_first(), x)));
        }
        assert forall|x: ReactorID| x != id implies #[trigger] mailbox_of(w, x) == mailbox_of(
            s,
            x,
        ) by {
            assert(mailbox_of(w, x) == if w[0].0 == x {
                w[0].1
            } else {
                mailbox_of(w.drop_first(), x)
            });
        }
    }
}

/// The first `n` messages a driver observes from a mailbox: `recv` always
/// takes the front, so observation peels the queue off from the left.
pub open spec fn observed(m: Seq<Envelope>, n: int) -> Seq<Envelope>
    decreases n,
{
    if n <= 0 || m.len() == 0 {
        Seq::<Envelope>::empty()
    } else {
        seq![m[0]] + observed(m.drop_first(), n - 1)
    }
}

/// Per-pair FIFO: `dispatch` appends at the back of the receiver's mailbox
/// and `recv` takes from the front, so any prefix of the messages enqueued
/// for a receiver is observed by its driver in exactly the enqueue order.
pub proof fn lemma_per_pair_fifo(m: Seq<Envelope>, n: int)
    requires
        0 <= n <= m.len(),
    ensures
        observed(m, n) == m.take(n),
    decreases n,
{
    if n == 0 {
        assert(observed(m, 0) =~= m.take(0));
    } else {
        lemma_per_pair_fifo(m.drop_first(), n - 1);
        assert(observed(m, n) == seq![m[0]] + m.drop_first().take(n - 1));
        assert(seq![m[0]] + m.drop_first().take(n - 1) =~= m.take(n));
    }
}

/// The process-wide registry mapping reactor identifier to mailbox, plus
/// the runtime identifier used as sender for externally injected messages.
#[derive(Debug)]
pub struct Broker {
    runtime_id: ReactorID,
    actors: Vec<(ReactorID, Vec<Envelope>)>,
}

impl Broker {
    /// The registry contents, as a specification value.
    pub closed spec fn spec_actors(&self) -> Seq<(ReactorID, Seq<Envelope>)> {
        self.actors@.map_values(|e: (ReactorID, Vec<Envelope>)| (e.0, e.1@))
    }

    /// The runtime identifier, as a specification value.
    pub closed spec fn spec_runtime_id(&self) -> ReactorID {
        self.runtime_id
    }

    /// Whether `id` is registered.
    pub open spec fn registered(&self, id: ReactorID) -> bool {
        has_actor(self.spec_actors(), id)
    }

    /// The mailbox of `id`.
    pub open spec fn mailbox(&self, id: ReactorID) -> Seq<Envelope> {
        mailbox_of(self.spec_actors(), id)
    }

    /// An empty registry under the given runtime identifier.
    pub fn new(runtime_id: ReactorID) -> (r: Broker)
        ensures
            r.spec_runtime_id() == runtime_id,
            r.spec_actors() == Seq::<(ReactorID, Seq<Envelope>)>::empty(),
    {
        let r = Broker { runtime_id, actors: Vec::new() };
        proof {
            assert(r.spec_actors() =~= Seq::<(ReactorID, Seq<Envelope>)>::empty());
        }
        r
    }

    /// The identifier the runtime sends under.
    pub fn get_runtime_id(&self) -> (r: ReactorID)
        ensures
            r == self.spec_runtime_id(),
    {
        self.runtime_id
    }

    /// Whether `id` is registered.
    pub fn reactor_exists(&self, id: ReactorID) -> (r: bool)
        ensures
            r == self.registered(id),
    {
        let mut i: usize = 0;
        proof {
            assert(self.spec_actors().skip(0) =~= self.spec_actors());
        }
        while i < self.actors.len()
            invariant
                i <= self.actors@.len(),
                self.spec_actors().len() == self.actors@.len(),
                forall|j: int| 0 <= j < self.actors@.len()
                    ==> #[trigger] self.spec_actors()[j] == (self.actors@[j].0, self.actors@[j].1@),
                self.registered(id) == has_actor(self.spec_actors().skip(i as int), id),
            decreases self.actors@.len() - i,
        {
            proof {
                assert(self.spec_actors().skip(i as int)[0] == self.spec_actors()[i as int]);
                assert(self.spec_actors().skip(i as int).drop_first() =~= self.spec_actors().skip(
                    i as int + 1,
                ));
            }
            if self.actors[i].0 == id {
                return true;
            }
            i = i + 1;
        }
        proof {
            assert(self.spec_actors().skip(i as int)
                =~= Seq::<(ReactorID, Seq<Envelope>)>::empty());
        }
        false
    }

    /// Register `id` with a fresh, empty mailbox; an identifier already
    /// present is refused with `Duplicate` and nothing changes.
    pub fn register(&mut self, id: ReactorID) -> (r: Result<(), ErrorKind>)
        ensures
            old(self).registered(id) ==> (r == Result::<(), ErrorKind>::Err(ErrorKind::Duplicate)
                && final(self).spec_actors() == old(self).spec_actors()),
            !old(self).registered(id) ==> (r == Result::<(), ErrorKind>::Ok(())
                && final(self).spec_actors()
                    == old(self).spec_actors().push((id, Seq::<Envelope>::empty()))),
            final(self).spec_runtime_id() == old(self).spec_runtime_id(),
    {
        if self.reactor_exists(id) {
            return Err(ErrorKind::Duplicate);
        }
        self.actors.push((id, Vec::new()));
        proof {
            assert(final(self).spec_actors() =~= old(self).spec_actors().push(
                (id, Seq::<Envelope>::empty()),
            ));
        }
        Ok(())
    }

    /// Remove `id` from the registry; removing an absent identifier does
    /// nothing.
    pub fn unregister(&mut self, id: ReactorID)
        ensures
            final(self).spec_actors() == without_actor(old(self).spec_actors(), id),
            final(self).spec_runtime_id() == old(self).spec_runtime_id(),
    {
        let ghost orig = self.spec_actors();
        let mut i: usize = 0;
        proof {
            assert(orig.skip(0) =~= orig);
            assert(orig.take(0) + without_actor(orig.skip(0), id) =~= without_actor(orig, id));
        }
        while i < self.actors.len()
            invariant
                i <= self.actors@.len(),
                self.spec_actors() == orig,
                orig == old(self).spec_actors(),
                self.spec_runtime_id() == old(self).spec_runtime_id(),
                self.spec_actors().len() == self.actors@.len(),
                forall|j: int| 0 <= j < self.actors@.len()
                    ==> #[trigger] self.spec_actors()[j] == (self.actors@[j].0, self.actors@[j].1@),
                forall|j: int| 0 <= j < i ==> #[trigger] orig[j].0 != id,
                without_actor(orig, id) == orig.take(i as int) + without_actor(
                    orig.skip(i as int),
                    id,
                ),
            decreases self.actors@.len() - i,
        {
            proof {
                assert(orig.skip(i as int)[0] == orig[i as int]);
                assert(orig.skip(i as int).drop_first() =~= orig.skip(i as int + 1));
            }
            if self.actors[i].0 == id {
                self.actors.remove(i);
                proof {
                    assert(without_actor(orig, id) =~= self.spec_actors()) by {
                        assert(without_actor(orig.skip(i as int), id) == orig.skip(i as int + 1));
                        assert(self.spec_actors() =~= orig.take(i as int) + orig.skip(i as int + 1));
                    }
                }
                return ;
            }
            proof {
                assert(orig.take(i as int).push(orig[i as int]) =~= orig.take(i as int + 1));
                assert(without_actor(orig, id) == orig.take(i as int + 1) + without_actor(
                    orig.skip(i as int + 1),
                    id,
                )) by {
                    assert(seq![orig.skip(i as int)[0]] + without_actor(
                        orig.skip(i as int).drop_first(),
                        id,
                    ) == without_actor(orig.skip(i as int), id));
                    assert(orig.take(i as int) + (seq![orig[i as int]] + without_actor(
                        orig.skip(i as int + 1),
                        id,
                    )) =~= orig.take(i as int + 1) + without_actor(orig.skip(i as int + 1), id));
                }
            }
            i = i + 1;
        }
        proof {
            assert(orig.skip(i as int) =~= Seq::<(ReactorID, Seq<Envelope>)>::empty());
            assert(without_actor(orig, id) =~= orig.take(i as int) + without_actor(
                orig.skip(i as int),
                id,
            ));
            assert(orig.take(i as int) =~= orig);
            assert(without_actor(orig, id) =~= orig + Seq::<(ReactorID, Seq<Envelope>)>::empty());
            assert(final(self).spec_actors() =~= without_actor(orig, id));
        }
    }

    /// Enqueue a message at the back of the receiver's mailbox. A message
    /// aimed at the runtime identifier itself is refused, and one to an
    /// unregistered receiver fails with `NoSuchReactor`; in both cases
    /// nothing changes.
    pub fn dispatch(&mut self, env: Envelope) -> (r: Result<(), ErrorKind>)
        ensures
            final(self).spec_runtime_id() == old(self).spec_runtime_id(),
            env.to == old(self).spec_runtime_id() ==> (r
                == Result::<(), ErrorKind>::Err(ErrorKind::Internal)
                && final(self).spec_actors() == old(self).spec_actors()),
            env.to != old(self).spec_runtime_id() && !old(self).registered(env.to) ==> (r
                == Result::<(), ErrorKind>::Err(ErrorKind::NoSuchReactor)
                && final(self).spec_actors() == old(self).spec_actors()),
            env.to != old(self).spec_runtime_id() && old(self).registered(env.to) ==> (r
                == Result::<(), ErrorKind>::Ok(())
                && final(self).spec_actors()
                    == with_mailbox(old(self).spec_actors(), env.to, old(self).mailbox(env.to).push(env))),
    {
        if env.to == self.runtime_id {
            return Err(ErrorKind::Internal);
        }
        let ghost orig = self.spec_actors();
        let ghost to = env.to;
        let mut i: usize = 0;
        proof {
            assert(orig.skip(0) =~= orig);
            assert(orig.take(0) + with_mailbox(orig.skip(0), to, mailbox_of(orig, to).push(env))
                =~= with_mailbox(orig, to, mailbox_of(orig, to).push(env)));
        }
        while i < self.actors.len()
            invariant
                i <= self.actors@.len(),
                self.spec_actors() == orig,
                orig == old(self).spec_actors(),
                self.spec_runtime_id() == old(self).spec_runtime_id(),
                self.spec_actors().len() == self.actors@.len(),
                forall|j: int| 0 <= j < self.actors@.len()
                    ==> #[trigger] self.spec_actors()[j] == (self.actors@[j].0, self.actors@[j].1@),
                forall|j: int| 0 <= j < i ==> #[trigger] orig[j].0 != to,
                has_actor(orig, to) == has_actor(orig.skip(i as int), to),
                mailbox_of(orig, to) == mailbox_of(orig.skip(i as int), to),
                with_mailbox(orig, to, mailbox_of(orig, to).push(env)) == orig.take(i as int)
                    + with_mailbox(orig.skip(i as int), to, mailbox_of(orig, to).push(env)),
                to == env.to,
                to != old(self).spec_runtime_id(),
            decreases self.actors@.len() - i,
        {
            proof {
                assert(orig.skip(i as int)[0] == orig[i as int]);
                assert(orig.skip(i as int).drop_first() =~= orig.skip(i as int + 1));
            }
            if self.actors[i].0 == env.to {
                proof {
                    assert(orig[i as int].0 == to);
                    assert(orig.skip(i as int)[0].0 == to);
                    assert(has_actor(orig.skip(i as int), to));
                    assert(mailbox_of(orig.skip(i as int), to) == orig.skip(i as int)[0].1);
                    assert(mailbox_of(orig, to) == orig[i as int].1);
                }
                let entry = self.actors.remove(i);
                let aid = entry.0;
                let mut mb = entry.1;
                let ghost env_g = env;
                mb.push(env);
                self.actors.insert(i, (aid, mb));
                proof {
                    assert(with_mailbox(orig.skip(i as int), to, mailbox_of(orig, to).push(env_g))
                        =~= seq![(to, mailbox_of(orig, to).push(env_g))] + orig.skip(i as int + 1));
                    assert(self.spec_actors() =~= orig.take(i as int) + (seq![
                        (to, mailbox_of(orig, to).push(env_g)),
                    ] + orig.skip(i as int + 1)));
                    assert(self.spec_actors() == with_mailbox(
                        orig,
                        to,
                        mailbox_of(orig, to).push(env_g),
                    ));
                }
                return Ok(());
            }
            proof {
                assert(orig.take(i as int).push(orig[i as int]) =~= orig.take(i as int + 1));
                assert(seq![orig.skip(i as int)[0]] + with_mailbox(
                    orig.skip(i as int).drop_first(),
                    to,
                    mailbox_of(orig, to).push(env),
                ) == with_mailbox(orig.skip(i as int), to, mailbox_of(orig, to).push(env)));
                assert(orig.take(i as int) + (seq![orig[i as int]] + with_mailbox(
                    orig.skip(i as int + 1),
                    to,
                    mailbox_of(orig, to).push(env),
                )) =~= orig.take(i as int + 1) + with_mailbox(
                    orig.skip(i as int + 1),
                    to,
                    mailbox_of(orig, to).push(env),
                ));
            }
            i = i + 1;
        }
        proof {
            assert(orig.skip(i as int) =~= Seq::<(ReactorID, Seq<Envelope>)>::empty());
        }
        Err(ErrorKind::NoSuchReactor)
    }

    /// Take the message at the front of the mailbox of `id`, if any.
    pub fn recv(&mut self, id: ReactorID) -> (r: Option<Envelope>)
        ensures
            final(self).spec_runtime_id() == old(self).spec_runtime_id(),
            old(self).mailbox(id).len() == 0 ==> (r is None
                && final(self).spec_actors() == old(self).spec_actors()),
            old(self).mailbox(id).len() > 0 ==> (r == Some(old(self).mailbox(id)[0])
                && final(self).spec_actors()
                    == with_mailbox(old(self).spec_actors(), id, old(self).mailbox(id).drop_first())),
    {
        let ghost orig = self.spec_actors();
        let mut i: usize = 0;
        proof {
            assert(orig.skip(0) =~= orig);
            assert(orig.take(0) + with_mailbox(orig.skip(0), id, mailbox_of(orig, id).drop_first())
                =~= with_mailbox(orig, id, mailbox_of(orig, id).drop_first()));
        }
        while i < self.actors.len()
            invariant
                i <= self.actors@.len(),
                self.spec_actors() == orig,
                orig == old(self).spec_actors(),
                self.spec_runtime_id() == old(self).spec_runtime_id(),
                self.spec_actors().len() == self.actors@.len(),
                forall|j: int| 0 <= j < self.actors@.len()
                    ==> #[trigger] self.spec_actors()[j] == (self.actors@[j].0, self.actors@[j].1@),
                forall|j: int| 0 <= j < i ==> #[trigger] orig[j].0 != id,
                mailbox_of(orig, id) == mailbox_of(orig.skip(i as int), id),
                mailbox_of(orig, id).len() > 0 ==> with_mailbox(
                    orig,
                    id,
                    mailbox_of(orig, id).drop_first(),
                ) == orig.take(i as int) + with_mailbox(
                    orig.skip(i as int),
                    id,
                    mailbox_of(orig, id).drop_first(),
                ),
            decreases self.actors@.len() - i,
        {
            proof {
                assert(orig.skip(i as int)[0] == orig[i as int]);
                assert(orig.skip(i as int).drop_first() =~= orig.skip(i as int + 1));
            }
            if self.actors[i].0 == id {
                proof {
                    assert(orig[i as int].0 == id);
                    assert(orig.skip(i as int)[0].0 == id);
                    assert(mailbox_of(orig.skip(i as int), id) == orig.skip(i as int)[0].1);
                    assert(mailbox_of(orig, id) == orig[i as int].1);
                    assert(mailbox_of(orig, id) == self.actors@[i as int].1@);
                }
                if self.actors[i].1.len() == 0 {
                    return None;
                }
                let entry = self.actors.remove(i);
                let aid = entry.0;
                let mut mb = entry.1;
                let env = mb.remove(0);
                self.actors.insert(i, (aid, mb));
                proof {
                    assert(env == mailbox_of(orig, id)[0]);
                    assert(mb@ =~= mailbox_of(orig, id).drop_first());
                    assert(with_mailbox(
                        orig.skip(i as int),
                        id,
                        mailbox_of(orig, id).drop_first(),
                    ) =~= seq![(id, mailbox_of(orig, id).drop_first())] + orig.skip(i as int + 1));
                    assert(self.spec_actors() =~= orig.take(i as int) + (seq![
                        (id, mailbox_of(orig, id).drop_first()),
                    ] + orig.skip(i as int + 1)));
                    assert(self.spec_actors() == with_mailbox(
                        orig,
                        id,
                        mailbox_of(orig, id).drop_first(),
                    ));
                }
                return Some(env);
            }
            proof {
                assert(orig.take(i as int).push(orig[i as int]) =~= orig.take(i as int + 1));
                if mailbox_of(orig, id).len() > 0 {
                    assert(seq![orig.skip(i as int)[0]] + with_mailbox(
                        orig.skip(i as int).drop_first(),
                        id,
                        mailbox_of(orig, id).drop_first(),
                    ) == with_mailbox(orig.skip(i as int), id, mailbox_of(orig, id).drop_first()));
                    assert(orig.take(i as int) + (seq![orig[i as int]] + with_mailbox(
                        orig.skip(i as int + 1),
                        id,
                        mailbox_of(orig, id).drop_first(),
                    )) =~= orig.take(i as int + 1) + with_mailbox(
                        orig.skip(i as int + 1),
                        id,
                        mailbox_of(orig, id).drop_first(),
                    ));
                }
            }
            i = i + 1;
        }
        proof {
            assert(orig.skip(i as int) =~= Seq::<(ReactorID, Seq<Envelope>)>::empty());
        }
        None
    }
}

} // verus!
