//! Links: the policy a reactor installs to decide what it accepts from,
//! and exposes to, one specific peer.
//!
//! A link holds two handler tables keyed by type tag: the internal table
//! answers messages the owning reactor publishes, the external table
//! answers messages arriving from the peer. A handler is one of the two
//! forwarding idioms: pass the payload on to the peer, or republish it
//! into the owning reactor's internal stream. A link may also carry a
//! closer, run at most once when the link is closed.

use vstd::prelude::*;

use crate::handles::{Effect, Envelope, LinkHandle, TargetReactor};
use crate::message::{Message, Payload};

verus! {

/// What a link handler does with a payload.
#[derive(Clone, Copy, PartialEq, Eq, Structural, Debug)]
pub enum LinkAction {
    /// Forward the message verbatim to the peer.
    ToPeer,
    /// Republish the message into the owning reactor's internal stream,
    /// aimed at the carried target.
    ToReactor(TargetReactor),
}

/// The closer duties a link can carry.
#[derive(Clone, Copy, PartialEq, Eq, Structural, Debug)]
pub enum Closer {
    /// Notify the owning reactor, with the peer's identifier, that the
    /// link closed.
    NotifyReactor,
}

/// The handler registered for `tag` in a table, if any; a later
/// registration for the same tag shadows an earlier one.
pub open spec fn table_lookup(t: Seq<(u64, LinkAction)>, tag: u64) -> Option<LinkAction>
    decreases t.len(),
{
    if t.len() == 0 {
        Option::None
    } else if t[0].0 == tag {
        Option::Some(t[0].1)
    } else {
        table_lookup(t.drop_first(), tag)
    }
}

/// Find the handler registered for `tag`.
fn table_get(t: &Vec<(u64, LinkAction)>, tag: u64) -> (r: Option<LinkAction>)
    ensures
        r == table_lookup(t@, tag),
{
    let mut i: usize = 0;
    proof {
        assert(t@.skip(0) =~= t@);
    }
    while i < t.len()
        invariant
            i <= t@.len(),
            table_lookup(t@, tag) == table_lookup(t@.skip(i as int), tag),
        decreases t@.len() - i,
    {
        proof {
            assert(t@.skip(i as int)[0] == t@[i as int]);
            assert(t@.skip(i as int).drop_first() =~= t@.skip(i as int + 1));
        }
        if t[i].0 == tag {
            return Some(t[i].1);
        }
        i = i + 1;
    }
    proof {
        assert(t@.skip(i as int) =~= Seq::<(u64, LinkAction)>::empty());
    }
    None
}

/// The handler tables and closer a link is built from.
#[derive(Clone, Debug)]
pub struct LinkParams {
    internal_handlers: Vec<(u64, LinkAction)>,
    external_handlers: Vec<(u64, LinkAction)>,
    closer: Option<Closer>,
}

impl LinkParams {
    /// The internal table, as a specification value.
    pub closed spec fn spec_internal(&self) -> Seq<(u64, LinkAction)> {
        self.internal_handlers@
    }

    /// The external table, as a specification value.
    pub closed spec fn spec_external(&self) -> Seq<(u64, LinkAction)> {
        self.external_handlers@
    }

    /// The closer, as a specification value.
    pub closed spec fn spec_closer(&self) -> Option<Closer> {
        self.closer
    }

    /// Empty tables and no closer.
    pub fn new() -> (r: LinkParams)
        ensures
            r.spec_internal() == Seq::<(u64, LinkAction)>::empty(),
            r.spec_external() == Seq::<(u64, LinkAction)>::empty(),
            r.spec_closer() is None,
    {
        LinkParams {
            internal_handlers: Vec::new(),
            external_handlers: Vec::new(),
            closer: None,
        }
    }

    /// Register `action` for `tag` in the internal table, shadowing any
    /// earlier registration for the same tag.
    pub fn internal_handler(&mut self, tag: u64, action: LinkAction)
        ensures
            final(self).spec_internal() == seq![(tag, action)] + old(self).spec_internal(),
            final(self).spec_external() == old(self).spec_external(),
            final(self).spec_closer() == old(self).spec_closer(),
    {
        self.internal_handlers.insert(0, (tag, action));
    }

    /// Register `action` for `tag` in the external table, shadowing any
    /// earlier registration for the same tag.
    pub fn external_handler(&mut self, tag: u64, action: LinkAction)
        ensures
            final(self).spec_internal() == old(self).spec_internal(),
            final(self).spec_external() == seq![(tag, action)] + old(self).spec_external(),
            final(self).spec_closer() == old(self).spec_closer(),
    {
        self.external_handlers.insert(0, (tag, action));
    }

    /// Install the closer.
    pub fn closer(&mut self, c: Closer)
        ensures
            final(self).spec_internal() == old(self).spec_internal(),
            final(self).spec_external() == old(self).spec_external(),
            final(self).spec_closer() == Some(c),
    {
        self.closer = Some(c);
    }
}

/// A message moving through a link, on the internal or the external side.
#[derive(Debug)]
pub enum LinkOperation {
    /// Published by the owning reactor, to be answered by the internal
    /// table.
    Internal(Message),
    /// Arrived from the peer, to be answered by the external table.
    External(Message),
}

/// What a link's dispatch appends to its recorded effects: nothing when no
/// handler is registered for the message's tag, the forwarded envelope for
/// a pass-through, the republished message for an injection.
pub open spec fn dispatch_effects(
    table: Seq<(u64, LinkAction)>,
    msg: Message,
    source: crate::ids::ReactorID,
    target: crate::ids::ReactorID,
) -> Seq<Effect> {
    match table_lookup(table, msg.spec_tag()) {
        Option::None => Seq::<Effect>::empty(),
        Option::Some(LinkAction::ToPeer) => seq![
            Effect::External(Envelope { from: source, to: target, msg }),
        ],
        Option::Some(LinkAction::ToReactor(t)) => seq![Effect::Internal(msg, t)],
    }
}

/// One side's policy object for a reactor pair.
#[derive(Debug)]
pub struct Link {
    internal_handlers: Vec<(u64, LinkAction)>,
    external_handlers: Vec<(u64, LinkAction)>,
    closer: Option<Closer>,
    handles: LinkHandle,
}

impl Link {
    /// The internal table, as a specification value.
    pub closed spec fn spec_internal(&self) -> Seq<(u64, LinkAction)> {
        self.internal_handlers@
    }

    /// The external table, as a specification value.
    pub closed spec fn spec_external(&self) -> Seq<(u64, LinkAction)> {
        self.external_handlers@
    }

    /// The closer still owed, as a specification value.
    pub closed spec fn spec_closer(&self) -> Option<Closer> {
        self.closer
    }

    /// The owning reactor's identifier, as a specification value.
    pub closed spec fn spec_source_id(&self) -> crate::ids::ReactorID {
        self.handles.spec_source_id()
    }

    /// The peer's identifier, as a specification value.
    pub closed spec fn spec_target_id(&self) -> crate::ids::ReactorID {
        self.handles.spec_target_id()
    }

    /// The effects recorded and not yet drained, as a specification value.
    pub closed spec fn spec_effects(&self) -> Seq<Effect> {
        self.handles.effects@
    }

    /// A link with the given handle and tables.
    pub fn new(handles: LinkHandle, params: LinkParams) -> (r: Link)
        ensures
            r.spec_internal() == params.spec_internal(),
            r.spec_external() == params.spec_external(),
            r.spec_closer() == params.spec_closer(),
            r.spec_source_id() == handles.spec_source_id(),
            r.spec_target_id() == handles.spec_target_id(),
            r.spec_effects() == handles.effects@,
    {
        let LinkParams { internal_handlers, external_handlers, closer } = params;
        Link { internal_handlers, external_handlers, closer, handles }
    }

    /// Dispatch one message through the matching table. A message whose
    /// tag has no handler is dropped silently.
    pub fn handle(&mut self, op: LinkOperation)
        ensures
            final(self).spec_internal() == old(self).spec_internal(),
            final(self).spec_external() == old(self).spec_external(),
            final(self).spec_closer() == old(self).spec_closer(),
            final(self).spec_source_id() == old(self).spec_source_id(),
            final(self).spec_target_id() == old(self).spec_target_id(),
            final(self).spec_effects() == old(self).spec_effects() + match op {
                LinkOperation::Internal(msg) => dispatch_effects(
                    old(self).spec_internal(),
                    msg,
                    old(self).spec_source_id(),
                    old(self).spec_target_id(),
                ),
                LinkOperation::External(msg) => dispatch_effects(
                    old(self).spec_external(),
                    msg,
                    old(self).spec_source_id(),
                    old(self).spec_target_id(),
                ),
            },
    {
        match op {
            LinkOperation::Internal(msg) => {
                let tag = msg.tag();
                match table_get(&self.internal_handlers, tag) {
                    Some(LinkAction::ToPeer) => {
                        let env = Envelope {
                            from: self.handles.source_id(),
                            to: self.handles.target_id(),
                            msg,
                        };
                        self.handles.effects.push(Effect::External(env));
                    },
                    Some(LinkAction::ToReactor(t)) => {
                        self.handles.effects.push(Effect::Internal(msg, t));
                    },
                    None => {},
                }
            },
            LinkOperation::External(msg) => {
                let tag = msg.tag();
                match table_get(&self.external_handlers, tag) {
                    Some(LinkAction::ToPeer) => {
                        let env = Envelope {
                            from: self.handles.source_id(),
                            to: self.handles.target_id(),
                            msg,
                        };
                        self.handles.effects.push(Effect::External(env));
                    },
                    Some(LinkAction::ToReactor(t)) => {
                        self.handles.effects.push(Effect::Internal(msg, t));
                    },
                    None => {},
                }
            },
        }
        proof {
            assert(final(self).spec_effects() =~= old(self).spec_effects() + match op {
                LinkOperation::Internal(msg) => dispatch_effects(
                    old(self).spec_internal(),
                    msg,
                    old(self).spec_source_id(),
                    old(self).spec_target_id(),
                ),
                LinkOperation::External(msg) => dispatch_effects(
                    old(self).spec_external(),
                    msg,
                    old(self).spec_source_id(),
                    old(self).spec_target_id(),
                ),
            });
        }
    }

    /// Run the closer if one is still owed. It runs at most once: after
    /// this call none is owed.
    pub fn run_closer(&mut self)
        ensures
            final(self).spec_internal() == old(self).spec_internal(),
            final(self).spec_external() == old(self).spec_external(),
            final(self).spec_closer() is None,
            final(self).spec_source_id() == old(self).spec_source_id(),
            final(self).spec_target_id() == old(self).spec_target_id(),
            final(self).spec_effects() == old(self).spec_effects() + match old(self).spec_closer() {
                Option::None => Seq::<Effect>::empty(),
                Option::Some(Closer::NotifyReactor) => seq![
                    Effect::Internal(
                        Message::wrap_spec(Payload::PeerClosed(old(self).spec_target_id())),
                        TargetReactor::Reactor,
                    ),
                ],
            },
    {
        match self.closer.take() {
            Some(Closer::NotifyReactor) => {
                let peer = self.handles.target_id();
                self.handles.send_internal(Payload::PeerClosed(peer), TargetReactor::Reactor);
            },
            None => {},
        }
        proof {
            assert(final(self).spec_effects() =~= old(self).spec_effects() + match old(
                self,
            ).spec_closer() {
                Option::None => Seq::<Effect>::empty(),
                Option::Some(Closer::NotifyReactor) => seq![
                    Effect::Internal(
                        Message::wrap_spec(Payload::PeerClosed(old(self).spec_target_id())),
                        TargetReactor::Reactor,
                    ),
                ],
            });
        }
    }

    /// Hand out the recorded effects, leaving none behind.
    pub fn take_effects(&mut self) -> (r: Vec<Effect>)
        ensures
            r@ == old(self).spec_effects(),
            final(self).spec_effects() == Seq::<Effect>::empty(),
            final(self).spec_internal() == old(self).spec_internal(),
            final(self).spec_external() == old(self).spec_external(),
            final(self).spec_closer() == old(self).spec_closer(),
            final(self).spec_source_id() == old(self).spec_source_id(),
            final(self).spec_target_id() == old(self).spec_target_id(),
    {
        let mut out: Vec<Effect> = Vec::new();
        core::mem::swap(&mut out, &mut self.handles.effects);
        out
    }
}

} // verus!
