//! The functions that the debug information knows by address.
use std::collections::BTreeMap;
use vstd::prelude::*;
use vstd::std_specs::btree::group_btree_axioms;

verus! {

/// The functions of an image, each by its address and under the name chosen
/// among those it has.
pub struct PdbSymbols {
    functions: BTreeMap<usize, Vec<u8>>,
}

impl View for PdbSymbols {
    type V = Map<usize, Seq<u8>>;

    closed spec fn view(&self) -> Map<usize, Seq<u8>> {
        self.functions@.map_values(|name: Vec<u8>| name@)
    }
}

impl PdbSymbols {
    /// Makes a list without functions.
    pub fn new() -> (r: PdbSymbols)
        ensures
            r@ == Map::<usize, Seq<u8>>::empty(),
    {
        let r = PdbSymbols { functions: BTreeMap::new() };
        assert(r@ =~= Map::<usize, Seq<u8>>::empty());
        r
    }

    /// Gives the function at an address a name, in place of one that it had.
    pub fn insert(&mut self, rva: usize, name: Vec<u8>)
        ensures
            final(self)@ == old(self)@.insert(rva, name@),
    {
        broadcast use group_btree_axioms;

        let ghost named = name@;
        self.functions.insert(rva, name);
        assert(self@ =~= old(self)@.insert(rva, named));
    }

    /// Returns the name of the function at an address.
    pub fn get(&self, rva: usize) -> (r: Option<&[u8]>)
        ensures
            match r {
                Some(name) => self@.contains_key(rva) && name@ == self@[rva],
                None => !self@.contains_key(rva),
            },
    {
        broadcast use group_btree_axioms;

        match self.functions.get(&rva) {
            Some(name) => Some(name.as_slice()),
            None => None,
        }
    }
}

} // verus!
