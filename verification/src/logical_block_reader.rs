//! Address resolution: from logical addresses inside partitions to
//! absolute positions on the source.

use vstd::prelude::*;

use crate::cache::Cache;
use crate::udf::{LogicalVolumeDescriptor, LongAd, PartitionDescriptor, ShortAllocationDescriptor};
use crate::udf_high_level::PartitionTable;

verus! {

/// Resolves a long allocation descriptor through the partition table
/// to an absolute sector number:
/// `partition_starting_location + logical_block_number * logical_block_size / 2048`.
/// None exactly when the referenced partition is not in the table or
/// the sector number does not fit 32 bits.
pub fn long_ad_to_sector_number(
    logical_volume_descriptor: &LogicalVolumeDescriptor,
    partition_descriptors: &PartitionTable,
    long_ad: &LongAd,
) -> (r: Option<u32>)
    ensures
        ({
            let m = partition_descriptors.as_map();
            let p = long_ad.extent_location.partition_reference_number;
            let lbn = long_ad.extent_location.logical_block_number as int;
            let lbs = logical_volume_descriptor.logical_block_size as int;
            match r {
                Some(pos) => {
                    &&& m.contains_key(p)
                    &&& pos == m[p].partition_starting_location + (lbn * lbs) / 2048
                },
                None => {
                    ||| !m.contains_key(p)
                    ||| m[p].partition_starting_location + (lbn * lbs) / 2048 > u32::MAX
                },
            }
        }),
{
    let p = long_ad.extent_location.partition_reference_number;
    match partition_descriptors.get(p) {
        Some(pd) => {
            let lbn = long_ad.extent_location.logical_block_number;
            let lbs = logical_volume_descriptor.logical_block_size;
            proof {
                assert(lbn as int * lbs as int <= 0xFFFFFFFFu64 as int * 0xFFFFFFFFu64 as int)
                    by (nonlinear_arith)
                    requires
                        lbn <= 0xFFFFFFFFu64,
                        lbs <= 0xFFFFFFFFu64,
                ;
                assert(lbn as int * lbs as int >= 0) by (nonlinear_arith)
                    requires
                        lbn >= 0,
                        lbs >= 0,
                ;
            }
            let prod: u64 = lbn as u64 * lbs as u64;
            let pos: u64 = pd.partition_starting_location as u64 + prod / 2048;
            if pos > 0xFFFFFFFFu64 {
                None
            } else {
                Some(pos as u32)
            }
        },
        None => None,
    }
}

/// Law: when the logical block size is a whole number of 2048-byte
/// sectors, resolving first multiplies out to the same sector as
/// scaling the block number by the sector ratio.
pub proof fn lemma_long_ad_resolution_formula(lbn: int, lbs: int)
    requires
        lbn >= 0,
        lbs >= 0,
        lbs % 2048 == 0,
    ensures
        (lbn * lbs) / 2048 == lbn * (lbs / 2048),
{
    let q = lbs / 2048;
    assert(lbs == 2048 * q);
    assert((lbn * (2048 * q)) == (lbn * q) * 2048) by (nonlinear_arith);
    assert(((lbn * q) * 2048) / 2048 == lbn * q) by (nonlinear_arith)
        requires
            lbn * q >= 0,
    ;
}

/// The byte position of a short allocation descriptor's extent within
/// its partition: `extent_location * logical_block_size`.
pub fn short_ad_to_pos_in_partition(
    logical_volume_descriptor: &LogicalVolumeDescriptor,
    short_ad: &ShortAllocationDescriptor,
) -> (r: u64)
    ensures
        r == short_ad.extent_location as int
            * logical_volume_descriptor.logical_block_size as int,
{
    proof {
        assert(short_ad.extent_location as int * logical_volume_descriptor.logical_block_size
            as int <= 0xFFFFFFFFu64 as int * 0xFFFFFFFFu64 as int) by (nonlinear_arith)
            requires
                short_ad.extent_location <= 0xFFFFFFFFu64,
                logical_volume_descriptor.logical_block_size <= 0xFFFFFFFFu64,
        ;
        assert(short_ad.extent_location as int
            * logical_volume_descriptor.logical_block_size as int >= 0) by (nonlinear_arith)
            requires
                short_ad.extent_location >= 0,
                logical_volume_descriptor.logical_block_size >= 0,
        ;
    }
    short_ad.extent_location as u64 * logical_volume_descriptor.logical_block_size as u64
}

/// One step of reading bytes out of a partition through the sector
/// cache: the absolute position is
/// `partition_starting_location * 2048 + pos_in_partition`, and the
/// read splits across cache blocks as the cache prescribes.  Returns
/// the missing block when one must first be fetched and installed.
pub fn read_exact_from_partition(
    cache: &mut Cache,
    partition_descriptor: &PartitionDescriptor,
    pos_in_partition: u64,
    want: usize,
    out: &mut Vec<u8>,
) -> (r: Option<u32>)
    requires
        old(cache).wf(),
        old(out)@.len() < want,
        partition_descriptor.partition_starting_location * 2048 + pos_in_partition + want
            <= 0xFFFFFFFFu64 * 2048,
    ensures
        final(cache).wf(),
        final(cache).slot_count() == old(cache).slot_count(),
        final(cache).contents() == old(cache).contents(),
        ({
            let pos = partition_descriptor.partition_starting_location * 2048 + pos_in_partition;
            let cur = pos + old(out)@.len();
            let block = (cur / 2048) as u32;
            let off = cur % 2048;
            let chunk: int = if 2048 - off <= want - old(out)@.len() {
                2048 - off
            } else {
                want - old(out)@.len()
            };
            match r {
                None => {
                    &&& old(cache).contents().contains_key(block)
                    &&& final(out)@ == old(out)@ + old(cache).contents()[block].subrange(
                        off as int,
                        off + chunk,
                    )
                },
                Some(b) => {
                    &&& b == block
                    &&& !old(cache).contents().contains_key(b)
                    &&& final(out)@ == old(out)@
                },
            }
        }),
{
    let pos: u64 = partition_descriptor.partition_starting_location as u64 * 2048
        + pos_in_partition;
    cache.read_exact_step(pos, want, out)
}

} // verus!
