//! The 128-bit identifier naming an interface or a component class.
use vstd::prelude::*;

verus! {

/// A 128-bit identifier in the segmented 4/2/2/8-byte form of the wider
/// ABI's UUID representation. Identifiers are compared for exact equality
/// only; they carry no order.
#[derive(Clone, Copy, Eq, Debug)]
pub struct nsID(pub u32, pub u16, pub u16, pub [u8; 8]);

/// An identifier naming an interface.
pub type nsIID = nsID;

/// An identifier naming a component class.
pub type nsCID = nsID;

impl PartialEq for nsID {
    fn eq(&self, other: &nsID) -> (r: bool) {
        let r = self.0 == other.0 && self.1 == other.1 && self.2 == other.2
            && self.3[0] == other.3[0] && self.3[1] == other.3[1] && self.3[2] == other.3[2]
            && self.3[3] == other.3[3] && self.3[4] == other.3[4] && self.3[5] == other.3[5]
            && self.3[6] == other.3[6] && self.3[7] == other.3[7];
        proof {
            if r {
                assert(self.3@ =~= other.3@);
                assert(self.3 == other.3);
            }
        }
        r
    }
}

impl vstd::std_specs::cmp::PartialEqSpecImpl for nsID {
    open spec fn obeys_eq_spec() -> bool {
        true
    }

    open spec fn eq_spec(&self, other: &nsID) -> bool {
        *self == *other
    }
}

impl nsID {
    /// Exact 128-bit comparison: the only operation identifiers support.
    pub fn matches(&self, other: &nsID) -> (r: bool)
        ensures
            r == (*self == *other),
    {
        *self == *other
    }
}

} // verus!
