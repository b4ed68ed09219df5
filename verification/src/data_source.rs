//! The capability interface of a backing object.
//!
//! The tracker only records which mapping is backed by which source; it
//! never reads or writes bytes itself. Implementations live with the
//! callers (file-backed, in-memory, device-backed), each providing its own
//! synchronization, and must outlive every address space that maps them.

use vstd::prelude::*;

verus! {

/// The error a data source reports from its own operations.
pub type DsError = &'static str;

/// A byte-addressable backing object: reads, writes and flushes over byte
/// ranges, through a shared reference. `offset + length` beyond the
/// object's own capacity is the implementation's error to raise; the
/// tracker never pre-checks it.
pub trait DataSource {
    /// Read `length` bytes starting at `offset` into `buffer`.
    fn read(&self, offset: usize, length: usize, buffer: &mut Vec<u8>) -> Result<(), DsError>;

    /// Write `length` bytes from `buffer` starting at `offset`.
    fn write(&self, offset: usize, length: usize, buffer: &[u8]) -> Result<(), DsError>;

    /// Flush the byte range starting at `offset`.
    fn flush(&self, offset: usize, length: usize) -> Result<(), DsError>;
}

} // verus!
