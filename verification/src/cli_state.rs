//! What the command line remembers between runs: the last listing and the
//! current item.
use vstd::prelude::*;

verus! {

/// The identifiers of the last listing, in listed order, and the current item.
#[derive(Debug, Clone)]
pub struct CliState {
    pub last_list: Vec<u128>,
    pub current: Option<u128>,
}

impl Default for CliState {
    fn default() -> (r: Self)
        ensures
            r.last_list@.len() == 0,
            r.current is None,
    {
        CliState { last_list: Vec::new(), current: None }
    }
}

impl CliState {
    /// Makes `id` the current item.
    pub fn set_current(&mut self, id: u128)
        ensures
            final(self).current == Some(id),
            final(self).last_list@ == old(self).last_list@,
    {
        self.current = Some(id);
    }

    /// Forgets the current item.
    pub fn clear_current(&mut self)
        ensures
            final(self).current is None,
            final(self).last_list@ == old(self).last_list@,
    {
        self.current = None;
    }

    /// Remembers a listing.
    pub fn set_last_list(&mut self, ids: Vec<u128>)
        ensures
            final(self).last_list@ == ids@,
            final(self).current == old(self).current,
    {
        self.last_list = ids;
    }

    /// The identifier listed at `index` in the last listing.
    pub fn resolve_index(&self, index: usize) -> (r: Option<u128>)
        ensures
            index < self.last_list@.len() ==> r == Some(self.last_list@[index as int]),
            index >= self.last_list@.len() ==> r is None,
    {
        if index < self.last_list.len() {
            Some(self.last_list[index])
        } else {
            None
        }
    }
}

} // verus!
