//! The registry of live connections: the handle through which each one is
//! written to, under the connection's id.

use std::collections::hash_map::Entry;
use std::collections::HashMap;
use vstd::prelude::*;

verus! {

broadcast use vstd::std_specs::hash::group_hash_axioms;

/// Owns the write handle of every live connection. `W` is whatever the caller
/// writes through; the registry only keeps it and finds it again.
pub struct ConnectionRegistry<W> {
    connections: HashMap<u32, W>,
}

impl<W> View for ConnectionRegistry<W> {
    type V = Map<u32, W>;

    closed spec fn view(&self) -> Map<u32, W> {
        self.connections@
    }
}

impl<W> ConnectionRegistry<W> {
    /// A registry without connections.
    pub fn new() -> (registry: Self)
        ensures
            registry@ == Map::<u32, W>::empty(),
    {
        ConnectionRegistry { connections: HashMap::new() }
    }

    /// Registers `write_handle` under `id`. A handle that was registered under
    /// that id before is replaced and handed back.
    pub fn insert(&mut self, id: u32, write_handle: W) -> (replaced: Option<W>)
        ensures
            final(self)@ == old(self)@.insert(id, write_handle),
            replaced == if old(self)@.contains_key(id) {
                Some(old(self)@[id])
            } else {
                None
            },
    {
        self.connections.insert(id, write_handle)
    }

    /// Whether a connection is registered under `id`.
    pub fn contains(&self, id: u32) -> (found: bool)
        ensures
            found == self@.contains_key(id),
    {
        self.connections.contains_key(&id)
    }

    /// The handle registered under `id`, to look at.
    pub fn get(&self, id: u32) -> (handle: Option<&W>)
        ensures
            match handle {
                Some(found) => self@.contains_key(id) && *found == self@[id],
                None => !self@.contains_key(id),
            },
    {
        self.connections.get(&id)
    }

    /// The handle registered under `id`, to write through. Whatever the caller
    /// does to it stays under that id; no other entry changes. An id that is
    /// not registered gives `None`: that peer is gone.
    pub fn get_mut(&mut self, id: u32) -> (handle: Option<&mut W>)
        ensures
            match handle {
                Some(found) => {
                    &&& old(self)@.contains_key(id)
                    &&& *found == old(self)@[id]
                    &&& final(self)@ == old(self)@.insert(id, *final(found))
                },
                None => !old(self)@.contains_key(id) && final(self)@ == old(self)@,
            },
    {
        match self.connections.entry(id) {
            Entry::Occupied(occupied) => Some(occupied.into_mut()),
            Entry::Vacant(_vacant) => None,
        }
    }

    /// Takes the connection registered under `id` out of the registry and
    /// hands its handle back. Removing what is not there changes nothing.
    pub fn remove(&mut self, id: u32) -> (removed: Option<W>)
        ensures
            final(self)@ == old(self)@.remove(id),
            removed == if old(self)@.contains_key(id) {
                Some(old(self)@[id])
            } else {
                None
            },
    {
        self.connections.remove(&id)
    }

    /// The number of registered connections.
    pub fn len(&self) -> (count: usize)
        ensures
            count == self@.len(),
            self@.dom().finite(),
    {
        self.connections.len()
    }
}

} // verus!
