//! Volume-structure discovery: the scan over a volume descriptor
//! sequence that selects the primary and logical volume descriptors,
//! collects the partition table, and assembles the result.

use vstd::prelude::*;

use crate::lebytes::{le16_at, le32_at};
use crate::osta;
use crate::udf::{
    LogicalVolumeDescriptor, PartitionDescriptor, PartitionMap, PrimaryVolumeDescriptor,
    Timestamp,
};
use crate::udf_parser::{spec_pm_scan, spec_tag_valid_at, UdfParser};
use crate::UdfError;

verus! {

/// A partition table keyed by partition number.  Entries are kept in
/// insertion order; the mapping takes the last writer for each key.
pub struct PartitionTable {
    pub entries: Vec<PartitionDescriptor>,
}

/// The mapping a run of insertions leaves behind: later entries win.
pub open spec fn spec_pd_map(s: Seq<PartitionDescriptor>) -> Map<u16, PartitionDescriptor>
    decreases s.len(),
{
    if s.len() == 0 {
        Map::<u16, PartitionDescriptor>::empty()
    } else {
        spec_pd_map(s.drop_last()).insert(s.last().partition_number, s.last())
    }
}

impl PartitionTable {
    pub open spec fn wf(self) -> bool {
        forall|i: int| 0 <= i < self.entries@.len() ==> (#[trigger] self.entries@[i]).wf()
    }

    /// The partition-number-to-descriptor mapping this table holds.
    pub open spec fn as_map(self) -> Map<u16, PartitionDescriptor> {
        spec_pd_map(self.entries@)
    }

    pub fn new() -> (r: PartitionTable)
        ensures
            r.wf(),
            r.entries@ == Seq::<PartitionDescriptor>::empty(),
            r.as_map() == Map::<u16, PartitionDescriptor>::empty(),
    {
        PartitionTable { entries: Vec::new() }
    }

    /// Inserts a descriptor under its partition number; a later insert
    /// with the same number wins.
    pub fn insert(&mut self, pd: PartitionDescriptor)
        requires
            pd.wf(),
        ensures
            final(self).entries@ == old(self).entries@.push(pd),
            final(self).as_map() == old(self).as_map().insert(pd.partition_number, pd),
            old(self).wf() ==> final(self).wf(),
    {
        proof {
            assert(self.entries@.push(pd).drop_last() =~= self.entries@);
        }
        self.entries.push(pd);
    }

    /// Looks a partition number up in the mapping.
    pub fn get(&self, n: u16) -> (r: Option<&PartitionDescriptor>)
        ensures
            match r {
                Some(pd) => self.as_map().contains_key(n) && *pd == self.as_map()[n],
                None => !self.as_map().contains_key(n),
            },
    {
        let len = self.entries.len();
        proof {
            assert(self.entries@.take(len as int) =~= self.entries@);
        }
        let mut i: usize = len;
        while i > 0
            invariant
                len == self.entries@.len(),
                i <= len,
                spec_pd_map(self.entries@).contains_key(n) == spec_pd_map(
                    self.entries@.take(i as int),
                ).contains_key(n),
                spec_pd_map(self.entries@).contains_key(n) ==> spec_pd_map(self.entries@)[n]
                    == spec_pd_map(self.entries@.take(i as int))[n],
            decreases i,
        {
            proof {
                assert(self.entries@.take(i as int).drop_last() =~= self.entries@.take(i - 1));
                assert(self.entries@.take(i as int).last() == self.entries@[i - 1]);
            }
            if self.entries[i - 1].partition_number == n {
                return Some(&self.entries[i - 1]);
            }
            i = i - 1;
        }
        proof {
            assert(self.entries@.take(0) =~= Seq::<PartitionDescriptor>::empty());
        }
        None
    }
}

/// The outcome of scanning a volume descriptor sequence: the byte
/// offsets of the selected primary and logical volume descriptors with
/// their sequence numbers, and the offsets of every partition
/// descriptor seen, in order.
pub struct VdsScanState {
    pub pvd: Option<(int, int)>,
    pub lvd: Option<(int, int)>,
    pub pds: Seq<int>,
}

/// The scan's starting state.
pub open spec fn spec_vds_init() -> VdsScanState {
    VdsScanState { pvd: Option::None, lvd: Option::None, pds: Seq::empty() }
}

/// Mirrors the logical-volume reader's error cases on the suffix of
/// `b` that starts at `off`: None when reading there succeeds.
pub open spec fn spec_lvd_err_at(b: Seq<u8>, off: int) -> Option<UdfError> {
    let sub = b.subrange(off, b.len() as int);
    let mtl = le32_at(sub, 264) as int;
    let count = le32_at(sub, 268) as int;
    let region = sub.subrange(440, sub.len() as int);
    if mtl == 0 {
        Option::None
    } else if !spec_tag_valid_at(b, off) {
        Option::Some(UdfError::InvalidDescriptorTag)
    } else {
        match spec_pm_scan(region, 0, count) {
            Result::<(Seq<int>, int), UdfError>::Ok(p) => {
                if p.1 == mtl {
                    Option::None
                } else {
                    Option::Some(UdfError::InvalidPartitionMap)
                }
            },
            Result::<(Seq<int>, int), UdfError>::Err(e) => Option::Some(e),
        }
    }
}

/// The volume-descriptor-sequence scan, sector by sector from sector
/// `k` of `n`, carrying the selections made so far.  A primary or
/// logical volume descriptor replaces the current selection exactly
/// when its sequence number is strictly higher; a terminating
/// descriptor ends the scan; unknown identifiers are skipped.
pub open spec fn spec_vds_scan(
    b: Seq<u8>,
    ss: int,
    k: int,
    n: int,
    st: VdsScanState,
) -> Result<VdsScanState, UdfError>
    decreases n - k,
{
    if k < 0 || k >= n {
        Result::<VdsScanState, UdfError>::Ok(st)
    } else {
        let off = k * ss;
        let id = le16_at(b, off);
        if id == 1 {
            if !spec_tag_valid_at(b, off) {
                Result::<VdsScanState, UdfError>::Err(UdfError::InvalidDescriptorTag)
            } else {
                let sq = le32_at(b, off + 16) as int;
                let replace = match st.pvd {
                    Option::Some(p) => sq > p.1,
                    Option::None => true,
                };
                let st2 = if replace {
                    VdsScanState { pvd: Option::Some((off, sq)), lvd: st.lvd, pds: st.pds }
                } else {
                    st
                };
                spec_vds_scan(b, ss, k + 1, n, st2)
            }
        } else if id == 5 {
            spec_vds_scan(
                b,
                ss,
                k + 1,
                n,
                VdsScanState { pvd: st.pvd, lvd: st.lvd, pds: st.pds.push(off) },
            )
        } else if id == 6 {
            match spec_lvd_err_at(b, off) {
                Option::Some(e) => Result::<VdsScanState, UdfError>::Err(e),
                Option::None => {
                    let sq = le32_at(b, off + 16) as int;
                    let replace = match st.lvd {
                        Option::Some(p) => sq > p.1,
                        Option::None => true,
                    };
                    let st2 = if replace {
                        VdsScanState { pvd: st.pvd, lvd: Option::Some((off, sq)), pds: st.pds }
                    } else {
                        st
                    };
                    spec_vds_scan(b, ss, k + 1, n, st2)
                },
            }
        } else if id == 8 {
            Result::<VdsScanState, UdfError>::Ok(st)
        } else {
            spec_vds_scan(b, ss, k + 1, n, st)
        }
    }
}

/// What the logical-volume reader guarantees on success for the suffix
/// of `b` starting at `off`.
pub open spec fn spec_lvd_ok_at(
    b: Seq<u8>,
    off: int,
    lvd: LogicalVolumeDescriptor,
    maps: Seq<PartitionMap>,
) -> bool {
    let sub = b.subrange(off, b.len() as int);
    let mtl = le32_at(sub, 264) as int;
    let count = le32_at(sub, 268) as int;
    let region = sub.subrange(440, sub.len() as int);
    &&& LogicalVolumeDescriptor::spec_decodes(sub, lvd)
    &&& lvd.wf()
    &&& (mtl == 0 ==> maps.len() == 0)
    &&& (mtl > 0 ==> spec_pm_scan(region, 0, count) is Ok && maps.len() == spec_pm_scan(
        region,
        0,
        count,
    )->Ok_0.0.len() && forall|i: int|
        0 <= i < maps.len() ==> PartitionMap::spec_decodes(
            region.subrange(spec_pm_scan(region, 0, count)->Ok_0.0[i], region.len() as int),
            #[trigger] maps[i],
        ) && maps[i].wf())
}

/// The assembled result of volume-structure discovery.
pub struct VolumeStructures {
    pub primary_volume: PrimaryVolumeDescriptor,
    pub logical_volume: LogicalVolumeDescriptor,
    pub partition_maps: Vec<PartitionMap>,
    /// Mapping from partition number to partition descriptor.
    pub partition_descriptors: PartitionTable,
}

/// `vs` holds exactly what a completed scan of `b` selected.
pub open spec fn spec_vs_matches(b: Seq<u8>, st: VdsScanState, vs: VolumeStructures) -> bool {
    &&& st.pvd is Some
    &&& st.lvd is Some
    &&& spec_tag_valid_at(b, st.pvd->Some_0.0)
    &&& PrimaryVolumeDescriptor::spec_decodes(
        b.subrange(st.pvd->Some_0.0, b.len() as int),
        vs.primary_volume,
    )
    &&& vs.primary_volume.wf()
    &&& spec_lvd_ok_at(b, st.lvd->Some_0.0, vs.logical_volume, vs.partition_maps@)
    &&& vs.partition_descriptors.entries@.len() == st.pds.len()
    &&& forall|i: int|
        0 <= i < st.pds.len() ==> PartitionDescriptor::spec_decodes(
            b.subrange(st.pds[i], b.len() as int),
            #[trigger] vs.partition_descriptors.entries@[i],
        ) && vs.partition_descriptors.entries@[i].wf()
}

impl UdfParser {
    /// Scans one volume descriptor sequence held in `extent`, which
    /// starts at the sequence's first sector and covers
    /// `ceil(length / sector_size)` whole sectors.  Returns the
    /// assembled structures, or None when the primary volume, logical
    /// volume or partition maps were missing.
    #[verifier::rlimit(100)]
    pub fn read_volume_descriptor_sequence(&self, extent: &[u8], length: u32) -> (r: Result<
        Option<VolumeStructures>,
        UdfError,
    >)
        requires
            self.sector_size >= 512,
            extent@.len() >= ((length + self.sector_size - 1) / (self.sector_size as int))
                * self.sector_size,
        ensures
            ({
                let ss = self.sector_size as int;
                let n = (length + self.sector_size - 1) / ss;
                match r {
                    Ok(opt) => {
                        &&& spec_vds_scan(extent@, ss, 0, n, spec_vds_init()) is Ok
                        &&& (match opt {
                            Some(vs) => spec_vs_matches(
                                extent@,
                                spec_vds_scan(extent@, ss, 0, n, spec_vds_init())->Ok_0,
                                vs,
                            ),
                            None => !(spec_vds_scan(extent@, ss, 0, n, spec_vds_init())->Ok_0.pvd
                                is Some && spec_vds_scan(
                                extent@,
                                ss,
                                0,
                                n,
                                spec_vds_init(),
                            )->Ok_0.lvd is Some),
                        })
                    },
                    Err(e) => spec_vds_scan(extent@, ss, 0, n, spec_vds_init()) == Result::<
                        VdsScanState,
                        UdfError,
                    >::Err(e),
                }
            }),
    {
        let extent_len = extent.len();
        let ss = self.sector_size as usize;
        let q: u64 = (length as u64 + self.sector_size as u64 - 1) / self.sector_size as u64;
        proof {
            let num = length as int + self.sector_size as int - 1;
            let ssi = self.sector_size as int;
            vstd::arithmetic::div_mod::lemma_fundamental_div_mod(num, ssi);
            assert((num / ssi) * ssi <= num) by (nonlinear_arith)
                requires
                    ssi >= 1,
                    num >= 0,
                    num == ssi * (num / ssi) + num % ssi,
                    num % ssi >= 0,
            ;
            assert(num / ssi < 0x1000000) by (nonlinear_arith)
                requires
                    ssi >= 512,
                    num < 0x200000000,
                    (num / ssi) * ssi <= num,
                    num / ssi >= 0,
            ;
            assert(q == num / ssi);
        }
        let n: usize = q as usize;
        proof {
            assert(n == (length + self.sector_size - 1) / (self.sector_size as int));
            assert(n * ss <= extent_len);
        }
        let mut primary: Option<PrimaryVolumeDescriptor> = None;
        let mut logical: Option<LogicalVolumeDescriptor> = None;
        let mut partition_maps: Option<Vec<PartitionMap>> = None;
        let mut table = PartitionTable::new();
        let ghost mut st: VdsScanState = spec_vds_init();
        let mut k: usize = 0;
        let mut terminated = false;
        while k < n && !terminated
            invariant
                ss == self.sector_size,
                512 <= ss,
                extent_len == extent@.len(),
                n * ss <= extent_len,
                n == (length + self.sector_size - 1) / (self.sector_size as int),
                k <= n,
                st.pvd is Some <==> primary is Some,
                st.lvd is Some <==> logical is Some,
                st.lvd is Some <==> partition_maps is Some,
                primary is Some ==> {
                    &&& 0 <= st.pvd->Some_0.0
                    &&& st.pvd->Some_0.0 + 512 <= extent_len
                    &&& spec_tag_valid_at(extent@, st.pvd->Some_0.0)
                    &&& PrimaryVolumeDescriptor::spec_decodes(
                        extent@.subrange(st.pvd->Some_0.0, extent@.len() as int),
                        primary->Some_0,
                    )
                    &&& primary->Some_0.wf()
                    &&& st.pvd->Some_0.1 == primary->Some_0.volume_descriptor_sequence_number
                },
                logical is Some ==> {
                    &&& 0 <= st.lvd->Some_0.0
                    &&& st.lvd->Some_0.0 + 512 <= extent_len
                    &&& spec_lvd_ok_at(
                        extent@,
                        st.lvd->Some_0.0,
                        logical->Some_0,
                        partition_maps->Some_0@,
                    )
                    &&& st.lvd->Some_0.1 == logical->Some_0.volume_descriptor_sequence_number
                },
                table.entries@.len() == st.pds.len(),
                forall|i: int|
                    0 <= i < st.pds.len() ==> PartitionDescriptor::spec_decodes(
                        extent@.subrange(st.pds[i], extent@.len() as int),
                        #[trigger] table.entries@[i],
                    ) && table.entries@[i].wf(),
                spec_vds_scan(extent@, ss as int, 0, n as int, spec_vds_init()) == (if terminated {
                    Result::<VdsScanState, UdfError>::Ok(st)
                } else {
                    spec_vds_scan(extent@, ss as int, k as int, n as int, st)
                }),
            decreases n - k + (if terminated { 0int } else { 1int }),
        {
            proof {
                assert((k + 1) * ss <= n * ss) by (nonlinear_arith)
                    requires
                        k + 1 <= n,
                        ss >= 0,
                ;
                assert(k * ss >= 0) by (nonlinear_arith)
                    requires
                        k >= 0,
                        ss >= 0,
                ;
                assert((k + 1) * ss == k * ss + ss) by (nonlinear_arith);
            }
            let off = k * ss;
            let sub = &extent[off..extent_len];
            proof {
                assert(sub@ == extent@.subrange(off as int, extent@.len() as int));
                assert(sub@[0] == extent@[off as int]);
                assert(sub@[1] == extent@[off as int + 1]);
            }
            let tag_id = crate::lebytes::read_le16(sub, 0);
            assert(tag_id == le16_at(extent@, off as int));
            if tag_id == 1 {
                let pvd = match self.read_primary_volume_descriptor(sub) {
                    Ok(p) => p,
                    Err(e) => {
                        proof {
                            crate::udf_parser::lemma_valid_at_shift(extent@, off as int);
                            assert(!spec_tag_valid_at(extent@, off as int));
                        }
                        return Err(e);
                    },
                };
                proof {
                    crate::udf_parser::lemma_valid_at_shift(extent@, off as int);
                    assert(spec_tag_valid_at(extent@, off as int));
                    assert(le32_at(sub@, 16) == le32_at(extent@, off + 16));
                }
                let replace = match &primary {
                    Some(p) => pvd.volume_descriptor_sequence_number
                        > p.volume_descriptor_sequence_number,
                    None => true,
                };
                if replace {
                    proof {
                        st = VdsScanState {
                            pvd: Option::Some(
                                (off as int, pvd.volume_descriptor_sequence_number as int),
                            ),
                            lvd: st.lvd,
                            pds: st.pds,
                        };
                    }
                    primary = Some(pvd);
                }
            } else if tag_id == 5 {
                let pd = PartitionDescriptor::read(sub);
                proof {
                    st = VdsScanState { pvd: st.pvd, lvd: st.lvd, pds: st.pds.push(off as int) };
                }
                table.insert(pd);
            } else if tag_id == 6 {
                let (lvd, maps) = match self.read_logical_volume_descriptor(sub) {
                    Ok(p) => p,
                    Err(e) => {
                        proof {
                            crate::udf_parser::lemma_valid_at_shift(extent@, off as int);
                            assert(spec_lvd_err_at(extent@, off as int) == Option::Some(e));
                        }
                        return Err(e);
                    },
                };
                proof {
                    crate::udf_parser::lemma_valid_at_shift(extent@, off as int);
                    assert(spec_lvd_err_at(extent@, off as int) is None);
                    assert(spec_lvd_ok_at(extent@, off as int, lvd, maps@));
                    assert(le32_at(sub@, 16) == le32_at(extent@, off + 16));
                }
                let replace = match &logical {
                    Some(l) => lvd.volume_descriptor_sequence_number
                        > l.volume_descriptor_sequence_number,
                    None => true,
                };
                if replace {
                    proof {
                        st = VdsScanState {
                            pvd: st.pvd,
                            lvd: Option::Some(
                                (off as int, lvd.volume_descriptor_sequence_number as int),
                            ),
                            pds: st.pds,
                        };
                    }
                    logical = Some(lvd);
                    partition_maps = Some(maps);
                }
            } else if tag_id == 8 {
                terminated = true;
            } else {
                // Unknown descriptor: skipped.
            }
            if !terminated {
                k = k + 1;
            }
        }
        match (primary, logical, partition_maps) {
            (Some(pvd), Some(lvd), Some(maps)) => {
                Ok(
                    Some(
                        VolumeStructures {
                            primary_volume: pvd,
                            logical_volume: lvd,
                            partition_maps: maps,
                            partition_descriptors: table,
                        },
                    ),
                )
            },
            _ => Ok(None),
        }
    }

    /// Reads the volume structures from the main volume descriptor
    /// sequence, falling back to the reserve sequence when the main
    /// one is incomplete.  Both extents are given as bytes; an error
    /// while scanning a sequence is propagated, and a reserve that is
    /// also incomplete is an invalid-descriptor failure.
    pub fn read_volume_structures(
        &self,
        main_extent: &[u8],
        main_length: u32,
        reserve_extent: &[u8],
        reserve_length: u32,
    ) -> (r: Result<VolumeStructures, UdfError>)
        requires
            self.sector_size >= 512,
            main_extent@.len() >= ((main_length + self.sector_size - 1) / (
            self.sector_size as int)) * self.sector_size,
            reserve_extent@.len() >= ((reserve_length + self.sector_size - 1) / (
            self.sector_size as int)) * self.sector_size,
        ensures
            ({
                let ss = self.sector_size as int;
                let n_main = (main_length + self.sector_size - 1) / ss;
                let n_res = (reserve_length + self.sector_size - 1) / ss;
                let main_scan = spec_vds_scan(main_extent@, ss, 0, n_main, spec_vds_init());
                let res_scan = spec_vds_scan(reserve_extent@, ss, 0, n_res, spec_vds_init());
                match r {
                    Ok(vs) => {
                        ||| (main_scan is Ok && spec_vs_matches(main_extent@, main_scan->Ok_0, vs))
                        ||| (main_scan is Ok && !(main_scan->Ok_0.pvd is Some
                            && main_scan->Ok_0.lvd is Some) && res_scan is Ok && spec_vs_matches(
                            reserve_extent@,
                            res_scan->Ok_0,
                            vs,
                        ))
                    },
                    Err(e) => {
                        ||| main_scan == Result::<VdsScanState, UdfError>::Err(e)
                        ||| (main_scan is Ok && !(main_scan->Ok_0.pvd is Some
                            && main_scan->Ok_0.lvd is Some) && res_scan == Result::<
                            VdsScanState,
                            UdfError,
                        >::Err(e))
                        ||| (main_scan is Ok && !(main_scan->Ok_0.pvd is Some
                            && main_scan->Ok_0.lvd is Some) && res_scan is Ok && !(
                        res_scan->Ok_0.pvd is Some && res_scan->Ok_0.lvd is Some) && e
                            == UdfError::InvalidDescriptorTag)
                    },
                }
            }),
    {
        let main_result = self.read_volume_descriptor_sequence(main_extent, main_length)?;
        match main_result {
            Some(vs) => Ok(vs),
            None => {
                let res = self.read_volume_descriptor_sequence(reserve_extent, reserve_length)?;
                match res {
                    Some(vs) => Ok(vs),
                    None => Err(UdfError::InvalidDescriptorTag),
                }
            },
        }
    }
}

/// Human-readable volume identification drawn from the descriptors.
pub struct VolumeInfo {
    pub identifier: String,
    pub set_identifier: String,
    pub logical_volume_identifier: String,
    pub logical_block_size: u32,
    pub recording_timestamp: Timestamp,
    pub application_id: String,
}

/// Trailing NUL characters removed.
pub open spec fn spec_trim_nul(s: Seq<char>) -> Seq<char>
    decreases s.len(),
{
    if s.len() == 0 {
        s
    } else if s.last() == '\0' {
        spec_trim_nul(s.drop_last())
    } else {
        s
    }
}

/// Relies on str::from_utf8: Some exactly on valid UTF-8, giving its
/// characters.
#[verifier::external_body]
fn utf8_chars(b: &[u8]) -> (r: Option<Vec<char>>)
    ensures
        match r {
            Some(v) => vstd::utf8::valid_utf8(b@) && v@ == vstd::utf8::decode_utf8(b@),
            None => !vstd::utf8::valid_utf8(b@),
        },
{
    match std::str::from_utf8(b) {
        Ok(s) => Some(s.chars().collect()),
        Err(_) => None,
    }
}

/// The application identifier rendered as text: its bytes as UTF-8
/// with trailing NULs removed, or "Unknown" when they are not UTF-8.
fn application_id_string(ident: &Vec<u8>) -> (r: String)
    ensures
        vstd::utf8::valid_utf8(ident@) ==> r@ == spec_trim_nul(vstd::utf8::decode_utf8(ident@)),
        !vstd::utf8::valid_utf8(ident@) ==> r@ == "Unknown"@,
{
    match utf8_chars(ident.as_slice()) {
        Some(mut chars) => {
            while chars.len() > 0 && chars[chars.len() - 1] == '\0'
                invariant
                    spec_trim_nul(vstd::utf8::decode_utf8(ident@)) == spec_trim_nul(chars@),
                decreases chars@.len(),
            {
                proof {
                    assert(chars@.last() == '\0');
                }
                chars.pop();
            }
            proof {
                assert(spec_trim_nul(chars@) == chars@);
            }
            osta::chars_to_string(&chars)
        },
        None => {
            let s: String = "Unknown".to_string();
            proof {
                assert(s@ == "Unknown"@);
            }
            s
        },
    }
}

impl VolumeStructures {
    /// Renders the volume's identifying strings.
    pub fn volume_info(&self) -> (r: VolumeInfo)
        ensures
            r.identifier@ == osta::spec_osta_decode(self.primary_volume.volume_identifier.0@),
            r.set_identifier@ == osta::spec_osta_decode(
                self.primary_volume.volume_set_identifier.0@,
            ),
            r.logical_volume_identifier@ == osta::spec_osta_decode(
                self.logical_volume.logical_volume_identifier.0@,
            ),
            r.logical_block_size == self.logical_volume.logical_block_size,
            r.recording_timestamp == self.primary_volume.recording_date_and_time,
            vstd::utf8::valid_utf8(self.primary_volume.application_identifier.identifier@)
                ==> r.application_id@ == spec_trim_nul(
                vstd::utf8::decode_utf8(self.primary_volume.application_identifier.identifier@),
            ),
            !vstd::utf8::valid_utf8(self.primary_volume.application_identifier.identifier@)
                ==> r.application_id@ == "Unknown"@,
    {
        VolumeInfo {
            identifier: self.primary_volume.volume_identifier.to_string(),
            set_identifier: self.primary_volume.volume_set_identifier.to_string(),
            logical_volume_identifier: self.logical_volume.logical_volume_identifier.to_string(),
            logical_block_size: self.logical_volume.logical_block_size,
            recording_timestamp: self.primary_volume.recording_date_and_time,
            application_id: application_id_string(
                &self.primary_volume.application_identifier.identifier,
            ),
        }
    }
}

} // verus!
