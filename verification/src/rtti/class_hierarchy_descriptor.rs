//! The class hierarchy descriptor: how many base classes a class has and
//! where their descriptor array sits.

use vstd::prelude::*;
use vstd::bytes::{spec_u32_from_le_bytes, u32_from_le_bytes};

verus! {

#[derive(Debug)]
pub struct ClassHierarchyDescriptor {
    pub signature: u32,
    pub attributes: u32,
    pub base_class_count: u32,
    pub base_class_array: u32,
}

impl ClassHierarchyDescriptor {
    /// Reads the descriptor's fields from its raw in-image form.
    pub fn from_slice(input: &[u8]) -> (r: Self)
        requires
            input@.len() >= 16,
        ensures
            r.signature == spec_u32_from_le_bytes(input@.subrange(0, 4)),
            r.attributes == spec_u32_from_le_bytes(input@.subrange(4, 8)),
            r.base_class_count == spec_u32_from_le_bytes(input@.subrange(8, 12)),
            r.base_class_array == spec_u32_from_le_bytes(input@.subrange(12, 16)),
    {
        Self {
            signature: u32_from_le_bytes(vstd::slice::slice_subrange(input, 0, 4)),
            attributes: u32_from_le_bytes(vstd::slice::slice_subrange(input, 4, 8)),
            base_class_count: u32_from_le_bytes(vstd::slice::slice_subrange(input, 8, 12)),
            base_class_array: u32_from_le_bytes(vstd::slice::slice_subrange(input, 12, 16)),
        }
    }
}

} // verus!
