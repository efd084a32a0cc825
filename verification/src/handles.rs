//! Handles that handlers write their consequences into.
//!
//! A handler never touches the broker or another reactor directly: it
//! records effects on a handle, and the driver carries them out after the
//! handler returns. This keeps every handler a plain state transition.

use vstd::prelude::*;

use crate::ids::ReactorID;
use crate::link::LinkParams;
use crate::message::{Message, Payload};

verus! {

/// Where an internal message is aimed: the reactor's own table or one
/// specific link's table.
#[derive(Clone, Copy, PartialEq, Eq, Structural, Debug)]
pub enum TargetReactor {
    Reactor,
    Link(ReactorID),
}

/// One message in flight across the broker.
#[derive(Debug)]
pub struct Envelope {
    pub from: ReactorID,
    pub to: ReactorID,
    pub msg: Message,
}

/// A consequence a handler asks the driver to carry out.
#[derive(Debug)]
pub enum Effect {
    /// Send a message to another reactor over the broker.
    External(Envelope),
    /// Enqueue a message into the owning reactor's internal queue.
    Internal(Message, TargetReactor),
    /// Install a link to the named peer; the flag marks an auto link.
    OpenLink(ReactorID, LinkParams, bool),
    /// Remove the link to the named peer, running its closer first.
    CloseLink(ReactorID),
    /// Remove the link to the named peer without running its closer.
    CloseLinkHard(ReactorID),
    /// Ask the driver to shut the reactor down.
    Destroy,
}

/// Handle given to a link handler: it knows both ends of the link and
/// records the handler's effects.
#[derive(Debug)]
pub struct LinkHandle {
    pub source_id: ReactorID,
    pub target_id: ReactorID,
    pub effects: Vec<Effect>,
}

impl LinkHandle {
    /// The identifier of the reactor that owns the link, as a
    /// specification value.
    pub open spec fn spec_source_id(&self) -> ReactorID {
        self.source_id
    }

    /// The identifier of the peer, as a specification value.
    pub open spec fn spec_target_id(&self) -> ReactorID {
        self.target_id
    }

    /// A handle for the link from `source_id` to `target_id`, with no
    /// effects recorded yet.
    pub fn new(source_id: ReactorID, target_id: ReactorID) -> (h: LinkHandle)
        ensures
            h.spec_source_id() == source_id,
            h.spec_target_id() == target_id,
            h.effects@ == Seq::<Effect>::empty(),
    {
        LinkHandle { source_id, target_id, effects: Vec::new() }
    }

    /// Send a payload to the peer, as an external message from the owner.
    pub fn send_message(&mut self, p: Payload)
        ensures
            final(self).spec_source_id() == old(self).spec_source_id(),
            final(self).spec_target_id() == old(self).spec_target_id(),
            final(self).effects@ == old(self).effects@.push(
                Effect::External(
                    Envelope {
                        from: old(self).spec_source_id(),
                        to: old(self).spec_target_id(),
                        msg: Message::wrap_spec(p),
                    },
                ),
            ),
    {
        let msg = Message::wrap(p);
        let env = Envelope { from: self.source_id, to: self.target_id, msg };
        self.effects.push(Effect::External(env));
    }

    /// Republish a payload into the owning reactor's internal stream.
    pub fn send_internal(&mut self, p: Payload, target: TargetReactor)
        ensures
            final(self).spec_source_id() == old(self).spec_source_id(),
            final(self).spec_target_id() == old(self).spec_target_id(),
            final(self).effects@ == old(self).effects@.push(
                Effect::Internal(Message::wrap_spec(p), target),
            ),
    {
        let msg = Message::wrap(p);
        self.effects.push(Effect::Internal(msg, target));
    }

    /// Ask the owning reactor to close this link, running its closer.
    pub fn close_link(&mut self)
        ensures
            final(self).spec_source_id() == old(self).spec_source_id(),
            final(self).spec_target_id() == old(self).spec_target_id(),
            final(self).effects@ == old(self).effects@.push(
                Effect::CloseLink(old(self).spec_target_id()),
            ),
    {
        let peer = self.target_id;
        self.effects.push(Effect::CloseLink(peer));
    }

    /// Ask the owning reactor to drop this link without the closer; used
    /// when the transport underneath is already broken.
    pub fn close_link_hard(&mut self)
        ensures
            final(self).spec_source_id() == old(self).spec_source_id(),
            final(self).spec_target_id() == old(self).spec_target_id(),
            final(self).effects@ == old(self).effects@.push(
                Effect::CloseLinkHard(old(self).spec_target_id()),
            ),
    {
        let peer = self.target_id;
        self.effects.push(Effect::CloseLinkHard(peer));
    }

    /// The peer's identifier.
    pub fn target_id(&self) -> (r: ReactorID)
        ensures
            r == self.spec_target_id(),
    {
        self.target_id
    }

    /// The owning reactor's identifier.
    pub fn source_id(&self) -> (r: ReactorID)
        ensures
            r == self.spec_source_id(),
    {
        self.source_id
    }
}

/// Handle given to a reactor-level handler: it knows the reactor's own
/// identifier and records the handler's effects.
#[derive(Debug)]
pub struct ReactorHandle {
    pub id: ReactorID,
    pub effects: Vec<Effect>,
}

impl ReactorHandle {
    /// The owning reactor's identifier, as a specification value.
    pub open spec fn spec_id(&self) -> ReactorID {
        self.id
    }

    /// A handle for the reactor `id`, with no effects recorded yet.
    pub fn new(id: ReactorID) -> (h: ReactorHandle)
        ensures
            h.spec_id() == id,
            h.effects@ == Seq::<Effect>::empty(),
    {
        ReactorHandle { id, effects: Vec::new() }
    }

    /// The owning reactor's identifier.
    pub fn id(&self) -> (r: ReactorID)
        ensures
            r == self.spec_id(),
    {
        self.id
    }

    /// Enqueue a payload into the owning reactor's internal stream.
    pub fn send_internal(&mut self, p: Payload, target: TargetReactor)
        ensures
            final(self).spec_id() == old(self).spec_id(),
            final(self).effects@ == old(self).effects@.push(
                Effect::Internal(Message::wrap_spec(p), target),
            ),
    {
        let msg = Message::wrap(p);
        self.effects.push(Effect::Internal(msg, target));
    }

    /// Send a payload to another reactor over the broker.
    pub fn send_external(&mut self, to: ReactorID, p: Payload)
        ensures
            final(self).spec_id() == old(self).spec_id(),
            final(self).effects@ == old(self).effects@.push(
                Effect::External(
                    Envelope { from: old(self).spec_id(), to, msg: Message::wrap_spec(p) },
                ),
            ),
    {
        let msg = Message::wrap(p);
        let env = Envelope { from: self.id, to, msg };
        self.effects.push(Effect::External(env));
    }

    /// Ask the driver to install a link to `peer`.
    pub fn open_link(&mut self, peer: ReactorID, params: LinkParams, auto: bool)
        ensures
            final(self).spec_id() == old(self).spec_id(),
            final(self).effects@ == old(self).effects@.push(
                Effect::OpenLink(peer, params, auto),
            ),
    {
        self.effects.push(Effect::OpenLink(peer, params, auto));
    }

    /// Ask the driver to close the link to `peer`.
    pub fn close_link(&mut self, peer: ReactorID)
        ensures
            final(self).spec_id() == old(self).spec_id(),
            final(self).effects@ == old(self).effects@.push(Effect::CloseLink(peer)),
    {
        self.effects.push(Effect::CloseLink(peer));
    }

    /// Ask the driver to drop the link to `peer` without running its
    /// closer; used when the peer is already gone.
    pub fn close_link_hard(&mut self, peer: ReactorID)
        ensures
            final(self).spec_id() == old(self).spec_id(),
            final(self).effects@ == old(self).effects@.push(Effect::CloseLinkHard(peer)),
    {
        self.effects.push(Effect::CloseLinkHard(peer));
    }

    /// Ask the driver to shut the reactor down.
    pub fn destroy(&mut self)
        ensures
            final(self).spec_id() == old(self).spec_id(),
            final(self).effects@ == old(self).effects@.push(Effect::Destroy),
    {
        self.effects.push(Effect::Destroy);
    }
}

} // verus!
