use vstd::prelude::*;

verus! {

/// A map from entity handles to entity handles, kept in a
/// `bevy::utils::HashMap<u64, u64>`.
///
/// The verifier does not look inside: what it knows of a map is what
/// the operations below state of `parent_map_entries`.
#[verifier::external_body]
#[derive(Debug)]
pub struct ParentMap {
    inner: bevy::utils::HashMap<u64, u64>,
}

/// The entries that a map holds.
pub uninterp spec fn parent_map_entries(map: ParentMap) -> Map<u64, u64>;

impl View for ParentMap {
    type V = Map<u64, u64>;

    open spec fn view(&self) -> Map<u64, u64> {
        parent_map_entries(*self)
    }
}

impl ParentMap {
    /// `HashMap::new`: a map that holds nothing.
    #[verifier::external_body]
    pub(crate) fn new() -> (created: Self)
        ensures
            parent_map_entries(created).dom() == Set::<u64>::empty(),
    {
        ParentMap { inner: bevy::utils::HashMap::new() }
    }

    /// `HashMap::insert`: afterwards `child` maps to `parent` and every
    /// other key to what it mapped to; the result is what `child` mapped
    /// to before.
    #[verifier::external_body]
    pub(crate) fn insert(&mut self, child: u64, parent: u64) -> (previous: Option<u64>)
        ensures
            parent_map_entries(*final(self)) == parent_map_entries(*old(self)).insert(child, parent),
            match previous {
                Some(p) => parent_map_entries(*old(self)).contains_key(child)
                    && parent_map_entries(*old(self))[child] == p,
                None => !parent_map_entries(*old(self)).contains_key(child),
            },
    {
        self.inner.insert(child, parent)
    }

    /// `HashMap::get`: what `child` maps to, if it is a key.
    #[verifier::external_body]
    pub(crate) fn get(&self, child: u64) -> (parent: Option<u64>)
        ensures
            match parent {
                Some(p) => parent_map_entries(*self).contains_key(child) && parent_map_entries(
                    *self,
                )[child] == p,
                None => !parent_map_entries(*self).contains_key(child),
            },
    {
        self.inner.get(&child).copied()
    }
}

} // verus!
