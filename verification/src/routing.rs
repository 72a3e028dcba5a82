//! Routing table: which delivery channel belongs to which connection id.
//!
//! The table holds at most one channel per id. The reader of a shared
//! transport asks it, frame by frame, where a payload is to go; a frame
//! whose id has no entry is dropped.

use std::collections::HashMap;
use vstd::prelude::*;

use crate::error::ProxyError;
use crate::message::{frame_id, frame_len, frame_payload, Message, CAPACITY, FRAME_SIZE};

verus! {

broadcast use vstd::std_specs::hash::group_hash_axioms;

/// The delivery channels of the open connections, by connection id. `T` is
/// whatever hands a payload to a connection.
pub struct RoutingTable<T> {
    entries: HashMap<u64, T>,
}

impl<T> View for RoutingTable<T> {
    type V = Map<u64, T>;

    closed spec fn view(&self) -> Map<u64, T> {
        self.entries@
    }
}

/// The frame `frame` can be delivered by a table that holds `routes`: it has
/// the size of a frame, its length field is no more than `CAPACITY`, and its
/// id has an entry.
pub open spec fn routable<T>(routes: Map<u64, T>, frame: Seq<u8>) -> bool {
    &&& frame.len() == FRAME_SIZE
    &&& frame_len(frame) <= CAPACITY
    &&& routes.contains_key(frame_id(frame) as u64)
}

impl<T> RoutingTable<T> {
    /// A table without entries.
    pub fn new() -> (r: Self)
        ensures
            r@ == Map::<u64, T>::empty(),
    {
        RoutingTable { entries: HashMap::new() }
    }

    /// The number of entries.
    pub fn len(&self) -> (r: usize)
        ensures
            r == self@.len(),
            self@.dom().finite(),
    {
        self.entries.len()
    }

    /// Whether `id` has an entry.
    pub fn contains(&self, id: u64) -> (r: bool)
        ensures
            r == self@.contains_key(id),
    {
        self.entries.contains_key(&id)
    }

    /// Registers `channel` for `id`. An entry that `id` had before is
    /// replaced and handed back.
    pub fn insert(&mut self, id: u64, channel: T) -> (r: Option<T>)
        ensures
            final(self)@ == old(self)@.insert(id, channel),
            match r {
                Some(previous) => old(self)@.contains_key(id) && previous == old(self)@[id],
                None => !old(self)@.contains_key(id),
            },
    {
        self.entries.insert(id, channel)
    }

    /// Removes the entry of `id` and hands its channel back, if there is
    /// one.
    pub fn remove(&mut self, id: u64) -> (r: Option<T>)
        ensures
            final(self)@ == old(self)@.remove(id),
            match r {
                Some(channel) => old(self)@.contains_key(id) && channel == old(self)@[id],
                None => !old(self)@.contains_key(id),
            },
    {
        self.entries.remove(&id)
    }

    /// The channel registered for `id`, if there is one.
    pub fn lookup(&self, id: u64) -> (r: Option<&T>)
        ensures
            match r {
                Some(channel) => self@.contains_key(id) && *channel == self@[id],
                None => !self@.contains_key(id),
            },
    {
        self.entries.get(&id)
    }

    /// Decides where the payload of one frame read from the shared
    /// transport goes: to the channel that is registered for the frame's id
    /// at this moment, and to no other.
    ///
    /// A frame that cannot be delivered gives `UnroutableFrame`;
    /// the caller drops it and reads on.
    pub fn route(&self, frame: &[u8]) -> (r: Result<(&T, Message), ProxyError>)
        ensures
            match r {
                Ok((channel, message)) => {
                    &&& routable(self@, frame@)
                    &&& *channel == self@[frame_id(frame@) as u64]
                    &&& message.spec_id() == frame_id(frame@)
                    &&& message.spec_payload() == frame_payload(frame@)
                },
                Err(e) => e == ProxyError::UnroutableFrame && !routable(self@, frame@),
            },
    {
        match Message::from_frame(frame) {
            Some(message) => match self.lookup(message.id()) {
                Some(channel) => Ok((channel, message)),
                None => Err(ProxyError::UnroutableFrame),
            },
            None => Err(ProxyError::UnroutableFrame),
        }
    }
}

} // verus!
