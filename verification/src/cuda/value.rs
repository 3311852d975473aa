use vstd::prelude::*;
use vstd::std_specs::cmp::PartialEqSpec;

verus! {

/// A value that lives in device or host memory: `size` bytes written at `ptr` by the
/// call numbered `id`, rewritten `times_modified` times since.
#[derive(Debug, Clone, Copy, PartialOrd, Hash)]
pub struct Value {
    pub id: u64,
    pub ptr: u64,
    pub size: u64,
    pub times_modified: u64,
}

impl Value {
    /// Records one more modification of the value.
    pub fn increment(&mut self)
        requires
            old(self).times_modified < u64::MAX,
        ensures
            *final(self) == (Value { times_modified: (old(self).times_modified + 1) as u64, ..*old(self) }),
    {
        self.times_modified = self.times_modified + 1;
    }
}

/// Two values are the same value when they were created by the same call.
impl PartialEq for Value {
    fn eq(&self, other: &Value) -> (r: bool) {
        self.id == other.id
    }
}

impl Eq for Value {}

impl vstd::std_specs::cmp::PartialEqSpecImpl for Value {
    open spec fn obeys_eq_spec() -> bool {
        true
    }

    open spec fn eq_spec(&self, other: &Value) -> bool {
        self.id == other.id
    }
}

/// Sameness of values is an equivalence: each value is itself, and sameness reads
/// both ways and chains.
pub proof fn lemma_value_eq_equivalence(a: Value, b: Value, c: Value)
    ensures
        a.eq_spec(&a),
        a.eq_spec(&b) == b.eq_spec(&a),
        a.eq_spec(&b) && b.eq_spec(&c) ==> a.eq_spec(&c),
{
}

} // verus!
