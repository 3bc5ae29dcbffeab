//! A registry of resources, keyed by identifier.

use vstd::prelude::*;

verus! {

/// The resources of one kind that are alive, each under its identifier.
#[derive(Debug)]
pub struct Storage<T> {
    /// One slot per identifier, empty where no resource is registered.
    pub map: Vec<Option<T>>,
}

impl<T> View for Storage<T> {
    type V = Map<u32, T>;

    /// The registry as a map from identifier to resource.
    open spec fn view(&self) -> Map<u32, T> {
        Map::new(
            |id: u32| (id as int) < self.map.len() && self.map[id as int] is Some,
            |id: u32| self.map[id as int].unwrap(),
        )
    }
}

impl<T: View> Storage<T> {
    /// The registry as a map from identifier to what is known of the
    /// resource.
    pub open spec fn deep(&self) -> Map<u32, T::V> {
        Map::new(|id: u32| self@.contains_key(id), |id: u32| self@[id]@)
    }
}

impl<T> Storage<T> {
    /// A registry that holds nothing.
    pub fn new() -> (storage: Self)
        ensures
            storage@ == Map::<u32, T>::empty(),
    {
        let storage = Storage { map: Vec::new() };
        assert(storage@ =~= Map::<u32, T>::empty());
        storage
    }

    /// One more than the largest identifier that a resource can be found
    /// under.
    pub open spec fn spec_bound(&self) -> nat {
        if self.map.len() > u32::MAX {
            0x1_0000_0000
        } else {
            self.map.len() as nat
        }
    }

    /// One more than the largest identifier that a resource can be found
    /// under.
    pub fn bound(&self) -> (bound: usize)
        ensures
            bound == self.spec_bound(),
            forall|id: u32| self@.contains_key(id) ==> id < bound,
    {
        if self.map.len() > u32::MAX as usize {
            u32::MAX as usize + 1
        } else {
            self.map.len()
        }
    }

    /// Whether a resource is registered under `id`.
    pub fn contains(&self, id: u32) -> (held: bool)
        ensures
            held == self@.contains_key(id),
    {
        (id as usize) < self.map.len() && self.map[id as usize].is_some()
    }

    /// The resource registered under `id`.
    pub fn get(&self, id: u32) -> (found: Option<&T>)
        ensures
            found is Some == self@.contains_key(id),
            found is Some ==> *found.unwrap() == self@[id],
    {
        if (id as usize) < self.map.len() {
            self.map[id as usize].as_ref()
        } else {
            None
        }
    }

    /// Registers `value` under `id`, in place of what was there.
    pub fn insert(&mut self, id: u32, value: T)
        ensures
            final(self)@ == old(self)@.insert(id, value),
    {
        while self.map.len() <= id as usize
            invariant
                self@ == old(self)@,
            decreases id as int + 1 - self.map.len(),
        {
            self.map.push(None);
            assert(self@ =~= old(self)@);
        }
        self.map[id as usize] = Some(value);
        assert(self@ =~= old(self)@.insert(id, value));
    }

    /// Takes out the resource registered under `id`.
    pub fn remove(&mut self, id: u32) -> (taken: Option<T>)
        ensures
            final(self)@ == old(self)@.remove(id),
            taken is Some == old(self)@.contains_key(id),
            taken is Some ==> taken.unwrap() == old(self)@[id],
    {
        if (id as usize) < self.map.len() {
            let taken = self.map[id as usize].take();
            assert(self@ =~= old(self)@.remove(id));
            taken
        } else {
            assert(self@ =~= old(self)@.remove(id));
            None
        }
    }
}

} // verus!
