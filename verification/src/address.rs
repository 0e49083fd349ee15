//! Plain address arithmetic: module bases, offsets into them, and absolute
//! addresses that can be rebased from one module base to another.

use vstd::prelude::*;

verus! {

/// The base address a module is loaded at.
#[derive(Debug, Eq, PartialEq, Clone, Copy, Structural)]
pub struct Base {
    pub value: usize,
}

impl From<usize> for Base {
    fn from(value: usize) -> (r: Self) {
        Self { value }
    }
}

impl vstd::std_specs::convert::FromSpecImpl<usize> for Base {
    open spec fn obeys_from_spec() -> bool {
        true
    }

    open spec fn from_spec(value: usize) -> Base {
        Base { value }
    }
}

/// A relative offset within a module.
#[derive(Debug, Eq, PartialEq, Clone, Copy, Structural)]
pub struct Offset {
    pub value: usize,
}

impl Offset {
    /// Moves the offset forward by `by` bytes.
    pub fn move_by(&mut self, by: usize)
        requires
            old(self).value + by <= usize::MAX,
        ensures
            final(self).value == old(self).value + by,
    {
        self.value = self.value + by;
    }

    pub fn as_usize(&self) -> (r: usize)
        ensures
            r == self.value,
    {
        self.value
    }
}

impl From<usize> for Offset {
    fn from(value: usize) -> (r: Self) {
        Self { value }
    }
}

impl vstd::std_specs::convert::FromSpecImpl<usize> for Offset {
    open spec fn obeys_from_spec() -> bool {
        true
    }

    open spec fn from_spec(value: usize) -> Offset {
        Offset { value }
    }
}

impl From<u32> for Offset {
    fn from(value: u32) -> (r: Self) {
        Self { value: value as usize }
    }
}

impl vstd::std_specs::convert::FromSpecImpl<u32> for Offset {
    open spec fn obeys_from_spec() -> bool {
        true
    }

    open spec fn from_spec(value: u32) -> Offset {
        Offset { value: value as usize }
    }
}

impl From<Offset> for usize {
    fn from(offset: Offset) -> (r: usize) {
        offset.value
    }
}

impl vstd::std_specs::convert::FromSpecImpl<Offset> for usize {
    open spec fn obeys_from_spec() -> bool {
        true
    }

    open spec fn from_spec(offset: Offset) -> usize {
        offset.value
    }
}

/// An absolute address: a base plus an offset.
#[derive(Debug, Eq, PartialEq, Clone, Copy, Structural)]
pub struct Address {
    pub value: usize,
}

impl Address {
    /// Re-expresses the address relative to another module base.
    pub fn rebase(&self, from: &Base, to: &Base) -> (r: Self)
        requires
            from.value <= self.value,
            self.value - from.value + to.value <= usize::MAX,
        ensures
            r.value == self.value - from.value + to.value,
    {
        let new_value = (self.value - from.value) + to.value;
        Self { value: new_value }
    }

    pub fn as_usize(&self) -> (r: usize)
        ensures
            r == self.value,
    {
        self.value
    }
}

impl From<usize> for Address {
    fn from(value: usize) -> (r: Self) {
        Self { value }
    }
}

impl vstd::std_specs::convert::FromSpecImpl<usize> for Address {
    open spec fn obeys_from_spec() -> bool {
        true
    }

    open spec fn from_spec(value: usize) -> Address {
        Address { value }
    }
}

impl core::ops::Add<&Offset> for &Base {
    type Output = Address;

    /// Adding an offset to a base yields an absolute address.
    fn add(self, rhs: &Offset) -> (r: Address) {
        Address { value: self.value + rhs.value }
    }
}

impl vstd::std_specs::ops::AddSpecImpl<&Offset> for &Base {
    open spec fn obeys_add_spec() -> bool {
        true
    }

    open spec fn add_req(self, rhs: &Offset) -> bool {
        self.value + rhs.value <= usize::MAX
    }

    open spec fn add_spec(self, rhs: &Offset) -> Address {
        Address { value: (self.value + rhs.value) as usize }
    }
}

impl core::ops::Add<&Offset> for &Offset {
    type Output = Offset;

    /// Adding two offsets accumulates them.
    fn add(self, rhs: &Offset) -> (r: Offset) {
        Offset { value: self.value + rhs.value }
    }
}

impl vstd::std_specs::ops::AddSpecImpl<&Offset> for &Offset {
    open spec fn obeys_add_spec() -> bool {
        true
    }

    open spec fn add_req(self, rhs: &Offset) -> bool {
        self.value + rhs.value <= usize::MAX
    }

    open spec fn add_spec(self, rhs: &Offset) -> Offset {
        Offset { value: (self.value + rhs.value) as usize }
    }
}

} // verus!
