//! Caller-owned element storage.
//!
//! The queue holds non-owning references into memory that the caller
//! manages. That memory is modelled here as an [`Arena`]: a flat address
//! space in which every address designates one pointer-sized cell. An
//! element is whatever region of the arena the caller decides it is; the
//! queue itself only ever touches the single cell holding an element's
//! "next" slot. Address `0` is reserved as the null sentinel, so no
//! element may start there.

use vstd::prelude::*;

verus! {

/// The null sentinel: no element lives at address zero, and a next-slot
/// holding zero marks the end of a chain.
pub const NULL_ADDR: usize = 0;

/// A flat, caller-owned address space of pointer-sized cells.
///
/// Its view is the sequence of cell values, indexed by address.
pub struct Arena {
    cells: Vec<usize>,
}

impl View for Arena {
    type V = Seq<usize>;

    closed spec fn view(&self) -> Seq<usize> {
        self.cells@
    }
}

impl Arena {
    /// Creates an arena of `size` cells, all zeroed.
    pub fn new(size: usize) -> (r: Arena)
        ensures
            r@.len() == size,
            forall|a: int| 0 <= a < size ==> r@[a] == 0,
    {
        let mut cells: Vec<usize> = Vec::new();
        while cells.len() < size
            invariant
                cells@.len() <= size,
                forall|a: int| 0 <= a < cells@.len() ==> cells@[a] == 0,
            decreases size - cells@.len(),
        {
            cells.push(0);
        }
        Arena { cells }
    }

    /// An arena's cells are held in one allocation, so every address,
    /// and in particular its length, fits in a machine word.
    pub proof fn lemma_len_bounded(&self)
        ensures
            self@.len() <= usize::MAX,
    {
        vstd::std_specs::vec::axiom_spec_len(&self.cells);
    }

    /// The number of cells, i.e. one past the largest valid address.
    pub fn len(&self) -> (r: usize)
        ensures
            r == self@.len(),
    {
        self.cells.len()
    }

    /// Reads the cell at address `addr`.
    pub fn read(&self, addr: usize) -> (r: usize)
        requires
            addr < self@.len(),
        ensures
            r == self@[addr as int],
    {
        self.cells[addr]
    }

    /// Writes `value` into the cell at address `addr`.
    pub fn write(&mut self, addr: usize, value: usize)
        requires
            addr < old(self)@.len(),
        ensures
            final(self)@ == old(self)@.update(addr as int, value),
    {
        self.cells.set(addr, value);
    }
}

} // verus!
