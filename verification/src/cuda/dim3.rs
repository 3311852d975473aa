use vstd::prelude::*;

verus! {

/// A three-dimensional extent, as for the grid and the blocks of a kernel launch.
pub struct Dim3<T> {
    pub x: T,
    pub y: T,
    pub z: T,
}

} // verus!
