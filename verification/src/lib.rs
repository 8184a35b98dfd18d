use vstd::prelude::*;

pub mod cache;
pub mod crc;
pub mod lebytes;
pub mod logical_block_reader;
pub mod osta;
pub mod udf;
pub mod udf_high_level;
pub mod udf_parser;

verus! {

/// The error taxonomy of the traversal engine.
///
/// `Io` stands for a failure of the underlying block source; the library
/// itself performs no input or output, so only callers construct it.
#[derive(Debug, Clone, Copy, PartialEq, Eq, Structural)]
pub enum UdfError {
    /// Underlying block source failure, propagated by the caller.
    Io,
    /// Tag checksum, CRC, or an unexpected tag identifier in a slot that
    /// demands a specific identifier.
    InvalidDescriptorTag,
    /// Partition-map table length mismatch or an inconsistent entry.
    InvalidPartitionMap,
    /// A variable-length descriptor claims more bytes than remain in its
    /// container.
    BufferTooSmall,
    /// An offset that does not address the source.
    InvalidOffset,
    /// A long allocation descriptor references a partition that is not in
    /// the partition table.
    InvalidPartitionNumber,
}

} // verus!
