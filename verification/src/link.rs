//! One side of a shared transport: the ids of its open connections and the
//! channels that their inbound payloads go to, kept in step.
//!
//! A connection gets its id and its routing entry together when it opens,
//! and loses both together when it closes. So an id has an entry exactly
//! while it is held, and no id is handed out again while frames could still
//! reach the connection that had it.

use vstd::prelude::*;

use crate::allocator::{AllocModel, IdAllocator};
use crate::error::ProxyError;
use crate::message::{frame_id, frame_payload, Message};
use crate::routing::{routable, RoutingTable};

verus! {

/// What a link is, as mathematics: its allocator and its routes.
pub struct LinkModel<T> {
    pub ids: AllocModel,
    pub routes: Map<u64, T>,
}

impl<T> LinkModel<T> {
    /// The allocator is well formed, and the ids that have a route are
    /// those that are held.
    pub open spec fn wf(self) -> bool {
        self.ids.wf() && self.routes.dom() == self.ids.held
    }
}

/// The open connections of one side of a shared transport.
pub struct Link<T> {
    ids: IdAllocator,
    routes: RoutingTable<T>,
}

impl<T> View for Link<T> {
    type V = LinkModel<T>;

    closed spec fn view(&self) -> LinkModel<T> {
        LinkModel { ids: self.ids@, routes: self.routes@ }
    }
}

impl<T> Link<T> {
    /// A link without connections, for at most `limit` at a time.
    pub fn new(limit: usize) -> (r: Self)
        ensures
            r@.wf(),
            r@.ids == AllocModel::empty(limit as nat),
            r@.routes == Map::<u64, T>::empty(),
    {
        let r = Link { ids: IdAllocator::new(limit), routes: RoutingTable::new() };
        assert(r@.routes.dom() =~= r@.ids.held);
        r
    }

    /// Whether a connection with this id is open.
    pub fn is_open(&self, id: u64) -> (r: bool)
        ensures
            r == self@.routes.contains_key(id),
    {
        self.routes.contains(id)
    }

    /// Opens a connection: takes a free id and registers `channel` for it.
    ///
    /// Fails with `IdSpaceExhausted`, and changes nothing, exactly when
    /// every id is held by an open connection.
    pub fn open(&mut self, channel: T) -> (r: Result<u64, ProxyError>)
        requires
            old(self)@.wf(),
        ensures
            final(self)@.wf(),
            match r {
                Ok(id) => {
                    &&& old(self)@.ids.allocate() == (final(self)@.ids, Some(id))
                    &&& !old(self)@.routes.contains_key(id)
                    &&& final(self)@.routes == old(self)@.routes.insert(id, channel)
                },
                Err(e) => {
                    &&& e == ProxyError::IdSpaceExhausted
                    &&& old(self)@.ids.full()
                    &&& final(self)@ == old(self)@
                },
            },
    {
        match self.ids.allocate() {
            Ok(id) => {
                self.routes.insert(id, channel);
                assert(self@.routes.dom() =~= self@.ids.held);
                Ok(id)
            },
            Err(e) => Err(e),
        }
    }

    /// Closes a connection: removes the routing entry of `id`, hands its
    /// channel back and frees the id. Closing an id that is not open changes
    /// nothing.
    pub fn close(&mut self, id: u64) -> (r: Option<T>)
        requires
            old(self)@.wf(),
        ensures
            final(self)@.wf(),
            final(self)@.ids == old(self)@.ids.release(id),
            final(self)@.routes == old(self)@.routes.remove(id),
            match r {
                Some(channel) => old(self)@.routes.contains_key(id) && channel == old(
                    self,
                )@.routes[id],
                None => !old(self)@.routes.contains_key(id),
            },
    {
        let channel = self.routes.remove(id);
        self.ids.release(id);
        assert(self@.routes.dom() =~= self@.ids.held);
        channel
    }

    /// Decides where the payload of one frame read from the transport goes:
    /// to the channel of the open connection that the frame names. A frame
    /// for a connection that is not open gives `UnroutableFrame`.
    pub fn route(&self, frame: &[u8]) -> (r: Result<(&T, Message), ProxyError>)
        ensures
            match r {
                Ok((channel, message)) => {
                    &&& routable(self@.routes, frame@)
                    &&& *channel == self@.routes[frame_id(frame@) as u64]
                    &&& message.spec_id() == frame_id(frame@)
                    &&& message.spec_payload() == frame_payload(frame@)
                },
                Err(e) => e == ProxyError::UnroutableFrame && !routable(self@.routes, frame@),
            },
    {
        self.routes.route(frame)
    }
}

} // verus!
