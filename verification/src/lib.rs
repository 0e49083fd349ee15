pub mod aob;
pub mod address;
pub mod allocations;
pub mod hierarchy;
pub mod matching;
pub mod memorylog;
pub mod memory_pattern;
pub mod module;
pub mod profile;
pub mod pattern;
pub mod rtti;
pub mod rtti_cache;
pub mod scanner;
