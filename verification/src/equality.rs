//! `==` on values.

use vstd::prelude::*;
use vstd::std_specs::cmp::PartialEqSpecImpl;
use crate::types::{val_eq, MalVal};

verus! {

impl PartialEq for MalVal {
    /// Whether `self` equals `other`, as [`MalVal::equals`] says.
    fn eq(&self, other: &MalVal) -> (r: bool) {
        self.equals(other)
    }
}

impl PartialEqSpecImpl for MalVal {
    open spec fn obeys_eq_spec() -> bool {
        true
    }

    open spec fn eq_spec(&self, other: &MalVal) -> bool {
        val_eq(self@, other@)
    }
}

} // verus!
