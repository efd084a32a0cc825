//! Error kinds of the runtime.

use vstd::prelude::*;

verus! {

/// The failure kinds that runtime operations report.
#[derive(Clone, Copy, PartialEq, Eq, Structural, Debug)]
pub enum ErrorKind {
    /// The receiver of a dispatched message is not registered.
    NoSuchReactor,
    /// The receiver exists but its mailbox no longer accepts messages.
    MailboxClosed,
    /// A payload was asked for under a type tag it does not carry.
    TagMismatch,
    /// A reactor identifier was registered twice.
    Duplicate,
    /// No handler is installed for a message's type tag.
    HandlerAbsent,
    /// A turn deadline fired before every player answered.
    TimeoutExpired,
    /// A session presented a token the client manager does not know.
    BadIdentity,
    /// A fault inside a handler.
    Internal,
}

} // verus!
