use vstd::prelude::*;

verus! {

/// Identifies a value node.
#[derive(Clone, Copy, PartialEq, Eq, Structural, Debug)]
pub struct ValueS {
    pub id: usize,
}

impl ValueS {
    pub fn new(id: usize) -> (r: ValueS)
        ensures
            r.id == id,
    {
        ValueS { id: id }
    }
}

/// A node of the dependence graph.
#[derive(Clone, Copy, PartialEq, Eq, Structural, Debug)]
pub enum Node {
    Value(ValueS),
}

} // verus!
