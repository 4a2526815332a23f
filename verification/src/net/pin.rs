//! Which logical CPU a worker is pinned to.
use vstd::prelude::*;

verus! {

/// Worker `index` takes the first sibling of physical core `index` while
/// there are enough cores, and wraps over the logical CPUs after that.
pub open spec fn cpu_for_spec(index: usize, phys: Seq<usize>, ncpu: usize) -> usize {
    if index < phys.len() {
        phys[index as int]
    } else {
        (index % ncpu) as usize
    }
}

/// The logical CPU of worker `index`, given the physical-core map and the
/// logical CPU count (at least 1).
pub fn cpu_for_worker(index: usize, phys: &[usize], ncpu: usize) -> (r: usize)
    requires
        ncpu >= 1,
    ensures
        r == cpu_for_spec(index, phys@, ncpu),
{
    if index < phys.len() {
        phys[index]
    } else {
        index % ncpu
    }
}

} // verus!
