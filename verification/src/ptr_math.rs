//! Offset-based field access: pure address arithmetic plus reading and
//! writing the pointer-sized next-slot it locates. No queue semantics
//! live here.

use vstd::prelude::*;
use crate::arena::Arena;

verus! {

/// Address arithmetic: the address `offset` units past `ptr`.
pub fn ptr_add(ptr: usize, offset: usize) -> (r: usize)
    requires
        ptr + offset <= usize::MAX,
    ensures
        r == ptr + offset,
{
    ptr + offset
}

/// As [`ptr_add`], for an address that will be written through.
pub fn ptr_add_mut(ptr: usize, offset: usize) -> (r: usize)
    requires
        ptr + offset <= usize::MAX,
    ensures
        r == ptr + offset,
{
    ptr + offset
}

/// The address of the field located `offset` units inside the element
/// that starts at `element`.
pub fn field_address(element: usize, offset: usize) -> (r: usize)
    requires
        element + offset <= usize::MAX,
    ensures
        r == element + offset,
{
    ptr_add_mut(element, offset)
}

/// Reads the next-slot of the element at `element`: the cell at
/// `element + offset`.
pub fn read_next(arena: &Arena, element: usize, offset: usize) -> (r: usize)
    requires
        element + offset < arena@.len(),
    ensures
        r == arena@[element + offset],
{
    proof {
        arena.lemma_len_bounded();
    }
    arena.read(field_address(element, offset))
}

/// Writes `value` into the next-slot of the element at `element`. No
/// cell other than the one at `element + offset` is touched.
pub fn write_next(arena: &mut Arena, element: usize, offset: usize, value: usize)
    requires
        element + offset < old(arena)@.len(),
    ensures
        final(arena)@ == old(arena)@.update(element + offset, value),
{
    proof {
        arena.lemma_len_bounded();
    }
    arena.write(field_address(element, offset), value);
}

} // verus!
