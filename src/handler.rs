//! Message handlers: a handler is any value that can take a message, paired
//! with the identifier that the bus compares it by.
use vstd::prelude::*;
use vstd::string::StringSliceAdditionalSpecFns;

use crate::identifiers::intern;

verus! {

/// Something that receives messages of type `M`.
pub trait MessageHandler<M> {
    fn handle(&self, message: &M);
}

/// A handler with its identifier. Two handlers with the same identifier are
/// the same handler to the bus, whatever they hold.
pub struct ShareableMessageHandler<H> {
    pub id: &'static str,
    pub handler: H,
}

impl<H> ShareableMessageHandler<H> {
    /// The bytes of the identifier.
    pub open spec fn spec_id(&self) -> Seq<u8> {
        self.id.spec_bytes()
    }

    /// Pairs `handler` with the identifier `id`.
    pub fn new(id: &str, handler: H) -> (r: Self)
        ensures
            r.spec_id() == id.spec_bytes(),
            r.handler == handler,
    {
        ShareableMessageHandler { id: intern(id), handler }
    }

    pub fn id(&self) -> (r: &'static str)
        ensures
            r.spec_bytes() == self.spec_id(),
    {
        self.id
    }
}

impl<H: Clone> Clone for ShareableMessageHandler<H> {
    /// Keeps the identifier; the handler is cloned as `H` clones.
    fn clone(&self) -> (r: Self)
        ensures
            r.spec_id() == self.spec_id(),
    {
        ShareableMessageHandler { id: self.id, handler: self.handler.clone() }
    }
}

} // verus!
