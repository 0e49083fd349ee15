//! The on-disk record of an instrumented allocator session: reservations
//! and the accesses observed inside them.

use vstd::prelude::*;

verus! {

/// One recorded session: which reservation it covers and the accesses seen.
#[derive(Debug)]
pub struct Session {
    pub index: u64,
    pub range: core::ops::Range<u64>,
    pub events: Vec<AccessEvent>,
}

/// Anything the instrumentation can observe.
#[derive(Debug)]
pub enum MemoryEvent {
    Reserve(ReservationEvent),
    Access(AccessEvent),
}

/// A fresh memory reservation.
#[derive(Debug)]
pub struct ReservationEvent {
    pub ptr: u64,
    pub size: u64,
    pub alignment: u64,
}

/// One observed read or write.
#[derive(Debug)]
pub struct AccessEvent {
    pub instruction_address: u64,
    pub instruction_bytes: Vec<u8>,
    pub access_address: u64,
    pub data_after: Vec<u8>,
    pub is_write: bool,
}

} // verus!
