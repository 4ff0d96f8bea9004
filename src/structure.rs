//! A molecular structure: positions, element types and bonds.
use vstd::prelude::*;

use crate::bonds::{bonds_of, determine_bonds, BondSets};
use crate::geometry::Position;
use crate::reference::ReferenceTable;

verus! {

/// Atoms in index order, each with a position and an element type, and the bonds
/// between them.
pub struct PdbFilePy {
    pub coords: Vec<Position>,
    pub atom_types: Vec<String>,
    pub bonds: Vec<(usize, usize)>,
}

impl PdbFilePy {
    pub fn new(coords: Vec<Position>, atom_types: Vec<String>, bonds: Vec<(usize, usize)>) -> (r: PdbFilePy)
        ensures
            r.coords@ == coords@,
            r.atom_types@ == atom_types@,
            r.bonds@ == bonds@,
    {
        PdbFilePy { coords, atom_types, bonds }
    }

    /// One element type per position.
    pub open spec fn wf(&self) -> bool {
        self.coords@.len() == self.atom_types@.len()
    }

    /// Classifies every atom pair of the structure against the reference table.
    pub fn determine_bonds(&self, table: &ReferenceTable) -> (r: BondSets)
        requires
            self.wf(),
            table.wf(),
        ensures
            bonds_of(r, *table, self.coords@, self.atom_types@),
    {
        determine_bonds(table, &self.coords, &self.atom_types)
    }

    /// Replaces the bonds of the structure.
    pub fn set_bonds(&mut self, bonds: Vec<(usize, usize)>)
        ensures
            final(self).bonds@ == bonds@,
            final(self).coords@ == old(self).coords@,
            final(self).atom_types@ == old(self).atom_types@,
    {
        self.bonds = bonds;
    }
}

} // verus!
