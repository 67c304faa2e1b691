//! Account addresses.

use vstd::array::spec_array_fill_for_copy_type;
use vstd::prelude::*;

verus! {

/// A 20-byte account address.
#[derive(Clone, Copy, Debug)]
pub struct Address {
    pub bytes: [u8; 20],
}

impl PartialEq for Address {
    fn eq(&self, other: &Address) -> (same: bool) {
        let mut i: usize = 0;
        while i < 20
            invariant
                i <= 20,
                forall|j: int| 0 <= j < i ==> self.bytes[j] == other.bytes[j],
            decreases 20 - i,
        {
            if self.bytes[i] != other.bytes[i] {
                return false;
            }
            i += 1;
        }
        assert(self.bytes =~= other.bytes);
        true
    }
}

impl Eq for Address {

}

impl vstd::std_specs::cmp::PartialEqSpecImpl for Address {
    open spec fn obeys_eq_spec() -> bool {
        true
    }

    open spec fn eq_spec(&self, other: &Address) -> bool {
        *self == *other
    }
}

impl Address {
    /// The address made of the given bytes.
    pub fn new(bytes: [u8; 20]) -> (a: Address)
        ensures
            a.bytes == bytes,
    {
        Address { bytes }
    }

    /// The address all of whose bytes are zero. It stands for "no address".
    pub open spec fn spec_zero() -> Address {
        Address { bytes: spec_array_fill_for_copy_type::<u8, 20>(0u8) }
    }

    /// The zero address.
    #[verifier::when_used_as_spec(spec_zero)]
    pub fn zero() -> (a: Address)
        ensures
            a == Address::spec_zero(),
    {
        Address { bytes: [0u8;20] }
    }

    /// Whether this is the zero address.
    pub open spec fn spec_is_zero(&self) -> bool {
        *self == Address::spec_zero()
    }

    /// Whether this is the zero address.
    #[verifier::when_used_as_spec(spec_is_zero)]
    pub fn is_zero(&self) -> (z: bool)
        ensures
            z == self.spec_is_zero(),
    {
        let mut i: usize = 0;
        while i < 20
            invariant
                i <= 20,
                forall|j: int| 0 <= j < i ==> self.bytes[j] == 0u8,
            decreases 20 - i,
        {
            if self.bytes[i] != 0 {
                return false;
            }
            i += 1;
        }
        assert(self.bytes =~= Address::spec_zero().bytes);
        true
    }
}

} // verus!
