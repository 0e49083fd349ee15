//! A caller-owned cache of vftable lookups: which pointers have been
//! identified as vftables and under what class name. Callers thread one of
//! these through their lookups instead of keeping process-wide state.

use vstd::prelude::*;
use std::collections::HashMap;

verus! {

broadcast use vstd::std_specs::hash::group_hash_axioms;

/// One remembered lookup: whether the pointer turned out to be a vftable,
/// and the recovered class name if it did.
#[derive(Debug)]
pub struct CachedRttiLookupResult {
    pub name: Option<String>,
    pub is_vftable: bool,
}

/// The cache itself, keyed by the candidate vftable pointer.
pub struct VftableCache {
    entries: HashMap<usize, CachedRttiLookupResult>,
}

impl VftableCache {
    /// What the cache remembers, as a map from pointer to recorded lookup.
    pub closed spec fn entries(self) -> Map<usize, CachedRttiLookupResult> {
        self.entries@
    }

    /// A fresh cache remembers nothing.
    pub fn new() -> (r: Self)
        ensures
            r.entries() == Map::<usize, CachedRttiLookupResult>::empty(),
    {
        VftableCache { entries: HashMap::new() }
    }

    /// The recorded lookup for `ptr`, if one exists.
    pub fn get_cache_entry(&self, ptr: usize) -> (r: Option<&CachedRttiLookupResult>)
        ensures
            match r {
                Some(entry) => self.entries().contains_key(ptr) && *entry == self.entries()[ptr],
                None => !self.entries().contains_key(ptr),
            },
    {
        self.entries.get(&ptr)
    }

    /// Records that `ptr` is a vftable of the class called `name`.
    pub fn mark_as_vftable(&mut self, ptr: usize, name: String)
        ensures
            final(self).entries() == old(self).entries().insert(
                ptr,
                CachedRttiLookupResult { name: Some(name), is_vftable: true },
            ),
    {
        self.entries.insert(ptr, CachedRttiLookupResult { name: Some(name), is_vftable: true });
    }

    /// Records that `ptr` is not a vftable at all.
    pub fn mark_as_non_vftable(&mut self, ptr: usize)
        ensures
            final(self).entries() == old(self).entries().insert(
                ptr,
                CachedRttiLookupResult { name: None, is_vftable: false },
            ),
    {
        self.entries.insert(ptr, CachedRttiLookupResult { name: None, is_vftable: false });
    }
}

} // verus!
