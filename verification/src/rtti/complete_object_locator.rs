//! The complete object locator: the bridge between a vftable and the type
//! and hierarchy descriptors of its class.

use vstd::prelude::*;
use vstd::bytes::{spec_u32_from_le_bytes, u32_from_le_bytes};

verus! {

#[derive(Debug)]
pub struct CompleteObjectLocator {
    pub signature: u32,
    pub offset: u32,
    pub cd_offset: u32,
    pub type_descriptor: u32,
    pub class_hierarchy_descriptor: u32,
}

impl CompleteObjectLocator {
    /// Reads the locator's fields from its raw in-image form. The caller is
    /// responsible for having found a real locator: no validation happens
    /// here.
    pub fn from_bytes(input: &[u8]) -> (r: Self)
        requires
            input@.len() >= 20,
        ensures
            r.signature == spec_u32_from_le_bytes(input@.subrange(0, 4)),
            r.offset == spec_u32_from_le_bytes(input@.subrange(4, 8)),
            r.cd_offset == spec_u32_from_le_bytes(input@.subrange(8, 12)),
            r.type_descriptor == spec_u32_from_le_bytes(input@.subrange(12, 16)),
            r.class_hierarchy_descriptor == spec_u32_from_le_bytes(input@.subrange(16, 20)),
    {
        Self {
            signature: u32_from_le_bytes(vstd::slice::slice_subrange(input, 0, 4)),
            offset: u32_from_le_bytes(vstd::slice::slice_subrange(input, 4, 8)),
            cd_offset: u32_from_le_bytes(vstd::slice::slice_subrange(input, 8, 12)),
            type_descriptor: u32_from_le_bytes(vstd::slice::slice_subrange(input, 12, 16)),
            class_hierarchy_descriptor: u32_from_le_bytes(vstd::slice::slice_subrange(input, 16, 20)),
        }
    }
}

} // verus!
