use crate::grid::grid_cell::GridCell;
use vstd::prelude::*;

verus! {

/// For each entity handle a list of cells, kept in a
/// `bevy::utils::HashMap<u64, Vec<GridCell>>`.
///
/// The verifier does not look inside: what it knows of an index is what
/// the operations below state of `cell_index_entries`.
#[verifier::external_body]
#[derive(Debug)]
pub struct CellIndex {
    inner: bevy::utils::HashMap<u64, Vec<GridCell>>,
}

/// The lists that an index holds, by handle.
pub uninterp spec fn cell_index_entries(index: CellIndex) -> Map<u64, Seq<GridCell>>;

impl View for CellIndex {
    type V = Map<u64, Seq<GridCell>>;

    open spec fn view(&self) -> Map<u64, Seq<GridCell>> {
        cell_index_entries(*self)
    }
}

impl CellIndex {
    /// `HashMap::new`: an index that holds nothing.
    #[verifier::external_body]
    pub(crate) fn new() -> (created: Self)
        ensures
            cell_index_entries(created).dom() == Set::<u64>::empty(),
    {
        CellIndex { inner: bevy::utils::HashMap::new() }
    }

    /// `HashMap::insert`: afterwards `entity` has the list `cells` and
    /// every other handle the list it had; the result is the list that
    /// `entity` had before.
    #[verifier::external_body]
    pub(crate) fn insert(&mut self, entity: u64, cells: Vec<GridCell>) -> (previous: Option<
        Vec<GridCell>,
    >)
        ensures
            cell_index_entries(*final(self)) == cell_index_entries(*old(self)).insert(
                entity,
                cells@,
            ),
            match previous {
                Some(list) => cell_index_entries(*old(self)).contains_key(entity)
                    && cell_index_entries(*old(self))[entity] == list@,
                None => !cell_index_entries(*old(self)).contains_key(entity),
            },
    {
        self.inner.insert(entity, cells)
    }

    /// `HashMap::remove`: afterwards `entity` has no list and every other
    /// handle the list it had; the result is the list that `entity` had.
    #[verifier::external_body]
    pub(crate) fn remove(&mut self, entity: u64) -> (previous: Option<Vec<GridCell>>)
        ensures
            cell_index_entries(*final(self)) == cell_index_entries(*old(self)).remove(entity),
            match previous {
                Some(list) => cell_index_entries(*old(self)).contains_key(entity)
                    && cell_index_entries(*old(self))[entity] == list@,
                None => !cell_index_entries(*old(self)).contains_key(entity),
            },
    {
        self.inner.remove(&entity)
    }
}

} // verus!
