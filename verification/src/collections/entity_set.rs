use vstd::prelude::*;

verus! {

/// A set of entity handles, kept in a `bevy::utils::HashSet<u64>`.
///
/// The verifier does not look inside: what it knows of a set is what
/// the operations below state of `entity_set_members`.
#[verifier::external_body]
#[derive(Debug)]
pub struct EntitySet {
    inner: bevy::utils::HashSet<u64>,
}

/// The handles that a set holds.
pub uninterp spec fn entity_set_members(set: EntitySet) -> Set<u64>;

impl View for EntitySet {
    type V = Set<u64>;

    open spec fn view(&self) -> Set<u64> {
        entity_set_members(*self)
    }
}

impl EntitySet {
    /// `HashSet::new`: a set that holds nothing.
    #[verifier::external_body]
    pub(crate) fn new() -> (set: Self)
        ensures
            entity_set_members(set) == Set::<u64>::empty(),
    {
        EntitySet { inner: bevy::utils::HashSet::new() }
    }

    /// `HashSet::insert`: afterwards the set holds `entity` besides what
    /// it held; the result tells whether `entity` is new to it.
    #[verifier::external_body]
    pub(crate) fn insert(&mut self, entity: u64) -> (fresh: bool)
        ensures
            entity_set_members(*final(self)) == entity_set_members(*old(self)).insert(entity),
            fresh == !entity_set_members(*old(self)).contains(entity),
    {
        self.inner.insert(entity)
    }

    /// `HashSet::remove`: afterwards the set holds what it held but
    /// `entity`; the result tells whether it held `entity`.
    #[verifier::external_body]
    pub(crate) fn remove(&mut self, entity: u64) -> (present: bool)
        ensures
            entity_set_members(*final(self)) == entity_set_members(*old(self)).remove(entity),
            present == entity_set_members(*old(self)).contains(entity),
    {
        self.inner.remove(&entity)
    }

    /// `HashSet::contains`: whether the set holds `entity`.
    #[verifier::external_body]
    pub(crate) fn contains(&self, entity: u64) -> (present: bool)
        ensures
            present == entity_set_members(*self).contains(entity),
    {
        self.inner.contains(&entity)
    }

    /// `HashSet::iter`, stopped after its first item: some handle of the
    /// set, or `None` if the set holds nothing. Which handle comes first
    /// is not fixed.
    #[verifier::external_body]
    pub(crate) fn first(&self) -> (entity: Option<u64>)
        ensures
            match entity {
                Some(e) => entity_set_members(*self).contains(e),
                None => entity_set_members(*self) == Set::<u64>::empty(),
            },
    {
        self.inner.iter().take(1).next().copied()
    }

    /// `HashSet::iter`, run to its end: every handle of the set once, in
    /// an order that is not fixed.
    #[verifier::external_body]
    pub(crate) fn to_vec(&self) -> (entities: Vec<u64>)
        ensures
            entities@.no_duplicates(),
            entities@.to_set() == entity_set_members(*self),
    {
        self.inner.iter().copied().collect()
    }
}

} // verus!
