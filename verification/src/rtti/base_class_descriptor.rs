//! The base class descriptor: which type a class derives from and where its
//! hierarchy descriptor sits, as image base offsets.

use vstd::prelude::*;
use vstd::bytes::{spec_u32_from_le_bytes, u32_from_le_bytes};

verus! {

#[derive(Debug)]
pub struct BaseClassDescriptor {
    pub type_descriptor: u32,
    pub contained_base_count: u32,
    pub attributes: u32,
    pub class_hierarchy_descriptor: u32,
}

impl BaseClassDescriptor {
    /// Reads the descriptor's fields from its raw in-image form.
    pub fn from_slice(input: &[u8]) -> (r: Self)
        requires
            input@.len() >= 28,
        ensures
            r.type_descriptor == spec_u32_from_le_bytes(input@.subrange(0, 4)),
            r.contained_base_count == spec_u32_from_le_bytes(input@.subrange(4, 8)),
            r.attributes == spec_u32_from_le_bytes(input@.subrange(20, 24)),
            r.class_hierarchy_descriptor == spec_u32_from_le_bytes(input@.subrange(24, 28)),
    {
        Self {
            type_descriptor: u32_from_le_bytes(vstd::slice::slice_subrange(input, 0, 4)),
            contained_base_count: u32_from_le_bytes(vstd::slice::slice_subrange(input, 4, 8)),
            attributes: u32_from_le_bytes(vstd::slice::slice_subrange(input, 20, 24)),
            class_hierarchy_descriptor: u32_from_le_bytes(vstd::slice::slice_subrange(input, 24, 28)),
        }
    }
}

} // verus!
