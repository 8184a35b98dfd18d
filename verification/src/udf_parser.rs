//! Descriptor-tag validation and the walkers that parse ICBs and
//! directory streams out of byte buffers.

use vstd::prelude::*;

use crate::crc::{cksum, spec_cksum};
use crate::lebytes::{le16_at, le32_at};
use crate::udf::{
    AnchorVolumeDescriptorPointer, DescriptorTag, FileEntry, FileIdentifierDescriptor,
    FileSetDescriptor, LogicalVolumeDescriptor, PartitionMap, PrimaryVolumeDescriptor,
    ShortAllocationDescriptor,
};
use crate::UdfError;

verus! {

/// The 8-bit tag checksum of the 16 tag bytes at the start of `b`:
/// the sum modulo 256 of bytes 0-3 and 5-15.
pub open spec fn spec_tag_checksum(b: Seq<u8>) -> u8 {
    ((b[0] + b[1] + b[2] + b[3] + b[5] + b[6] + b[7] + b[8] + b[9] + b[10] + b[11] + b[12] + b[13]
        + b[14] + b[15]) % 256) as u8
}

/// The bytes the descriptor CRC covers: the `descriptor_crc_length`
/// bytes after the 16-byte tag, clamped to the buffer.
pub open spec fn spec_crc_region(tag: DescriptorTag, b: Seq<u8>) -> Seq<u8> {
    let end = if 16 + tag.descriptor_crc_length <= b.len() {
        16 + tag.descriptor_crc_length as int
    } else {
        b.len() as int
    };
    b.subrange(16, end)
}

/// A descriptor tag is valid for the buffer it heads when the stored
/// checksum matches the computed one and, if a CRC length is given,
/// the stored CRC matches CRC-16/CCITT-FALSE of the covered bytes.
pub open spec fn spec_tag_valid(tag: DescriptorTag, b: Seq<u8>) -> bool {
    &&& tag.tag_checksum == spec_tag_checksum(b)
    &&& (tag.descriptor_crc_length > 0 ==> spec_cksum(spec_crc_region(tag, b))
        == tag.descriptor_crc)
}

/// Computes the 8-bit tag checksum of the tag stored at the start of
/// `b`.
pub fn tag_checksum(b: &[u8]) -> (r: u8)
    requires
        b@.len() >= 16,
    ensures
        r == spec_tag_checksum(b@),
{
    let s: u32 = b[0] as u32 + b[1] as u32 + b[2] as u32 + b[3] as u32 + b[5] as u32 + b[6] as u32
        + b[7] as u32 + b[8] as u32 + b[9] as u32 + b[10] as u32 + b[11] as u32 + b[12] as u32
        + b[13] as u32 + b[14] as u32 + b[15] as u32;
    (s % 256) as u8
}

/// Checks a descriptor tag against the descriptor bytes it heads.
pub fn validate_descriptor_tag(tag: &DescriptorTag, full_descriptor: &[u8]) -> (r: bool)
    requires
        full_descriptor@.len() >= 16,
    ensures
        r == spec_tag_valid(*tag, full_descriptor@),
{
    let computed = tag_checksum(full_descriptor);
    if tag.tag_checksum != computed {
        return false;
    }
    if tag.descriptor_crc_length > 0 {
        let len = full_descriptor.len();
        let want = 16 + tag.descriptor_crc_length as usize;
        let end = if want <= len {
            want
        } else {
            len
        };
        let region = &full_descriptor[16..end];
        let crc = cksum(region);
        if crc != tag.descriptor_crc {
            return false;
        }
    }
    true
}

/// Law: changing any single covered tag byte changes the checksum.
/// The covered bytes are 0-3 and 5-15; byte 4 stores the checksum.
pub proof fn lemma_checksum_detects_byte_change(a: Seq<u8>, b: Seq<u8>, i: int)
    requires
        a.len() >= 16,
        b.len() >= 16,
        0 <= i < 16,
        i != 4,
        a[i] != b[i],
        forall|j: int| 0 <= j < 16 && j != i ==> a[j] == b[j],
    ensures
        spec_tag_checksum(a) != spec_tag_checksum(b),
{
    let sa = a[0] + a[1] + a[2] + a[3] + a[5] + a[6] + a[7] + a[8] + a[9] + a[10] + a[11] + a[12]
        + a[13] + a[14] + a[15];
    let sb = b[0] + b[1] + b[2] + b[3] + b[5] + b[6] + b[7] + b[8] + b[9] + b[10] + b[11] + b[12]
        + b[13] + b[14] + b[15];
    let d = sb - sa;
    assert(d == b[i] - a[i]);
    assert(-256 < d < 256 && d != 0);
    if sa % 256 == sb % 256 {
        vstd::arithmetic::div_mod::lemma_fundamental_div_mod(sa, 256);
        vstd::arithmetic::div_mod::lemma_fundamental_div_mod(sb, 256);
        let qa = sa / 256;
        let qb = sb / 256;
        assert(d == 256 * (qb - qa));
        assert(false) by (nonlinear_arith)
            requires
                d == 256 * (qb - qa),
                -256 < d < 256,
                d != 0,
        ;
    }
}

/// Law: the validator rejects any single-bit flip in the covered tag
/// bytes: if the tag of `a` validates, the tag of the flipped buffer
/// does not.
pub proof fn lemma_validate_rejects_bit_flip(a: Seq<u8>, b: Seq<u8>, i: int, k: int)
    requires
        a.len() >= 16,
        b.len() >= 16,
        0 <= i < 16,
        i != 4,
        0 <= k < 8,
        b[i] == a[i] ^ (1u8 << k),
        forall|j: int| 0 <= j < 16 && j != i ==> a[j] == b[j],
        spec_tag_valid(DescriptorTag::spec_decode(a), a),
    ensures
        !spec_tag_valid(DescriptorTag::spec_decode(b), b),
{
    let x = a[i];
    let y = b[i];
    let kk = k as u8;
    assert(x ^ (1u8 << kk) != x) by (bit_vector)
        requires
            kk < 8,
    ;
    lemma_checksum_detects_byte_change(a, b, i);
    assert(DescriptorTag::spec_decode(b).tag_checksum == b[4]);
    assert(b[4] == a[4]);
    assert(DescriptorTag::spec_decode(a).tag_checksum == spec_tag_checksum(a));
}

/// Decodes a buffer of consecutive 8-byte short allocation
/// descriptors; a trailing fragment shorter than 8 bytes is ignored.
pub fn read_short_allocation_descriptors(descriptors: &[u8]) -> (r: Vec<
    ShortAllocationDescriptor,
>)
    ensures
        r@.len() == descriptors@.len() / 8,
        forall|i: int|
            0 <= i < r@.len() ==> r@[i] == ShortAllocationDescriptor::spec_decode(
                descriptors@.subrange(8 * i, 8 * i + 8),
            ),
{
    let len = descriptors.len();
    let n = len / 8;
    proof {
        assert(8 * (len as int / 8) <= len as int) by (nonlinear_arith);
    }
    let mut r: Vec<ShortAllocationDescriptor> = Vec::new();
    let mut i: usize = 0;
    while i < n
        invariant
            len == descriptors@.len(),
            n == descriptors@.len() / 8,
            8 * n <= len,
            i <= n,
            r@.len() == i,
            forall|k: int|
                0 <= k < i ==> r@[k] == ShortAllocationDescriptor::spec_decode(
                    descriptors@.subrange(8 * k, 8 * k + 8),
                ),
        decreases n - i,
    {
        let sad = ShortAllocationDescriptor::read(&descriptors[8 * i..8 * i + 8]);
        r.push(sad);
        i = i + 1;
    }
    r
}

/// A directory entry classified by its directory bit.
pub struct DirectoryFileIdentifierDescriptor(pub FileIdentifierDescriptor);

/// A directory entry that names a plain file.
pub struct FileFileIdentifierDescriptor(pub FileIdentifierDescriptor);

/// A directory entry, split by whether it names a directory.
pub enum FileIdentifierEnum {
    Directory(DirectoryFileIdentifierDescriptor),
    File(FileFileIdentifierDescriptor),
}

impl FileIdentifierEnum {
    pub fn new(file_identifier_descriptor: FileIdentifierDescriptor) -> (r: FileIdentifierEnum)
        ensures
            match r {
                FileIdentifierEnum::Directory(d) => d.0 == file_identifier_descriptor
                    && file_identifier_descriptor.file_characteristics & 0x02u8 != 0,
                FileIdentifierEnum::File(f) => f.0 == file_identifier_descriptor
                    && file_identifier_descriptor.file_characteristics & 0x02u8 == 0,
            },
    {
        if file_identifier_descriptor.file_characteristics & 0x02u8 != 0 {
            FileIdentifierEnum::Directory(DirectoryFileIdentifierDescriptor(
                file_identifier_descriptor,
            ))
        } else {
            FileIdentifierEnum::File(FileFileIdentifierDescriptor(file_identifier_descriptor))
        }
    }
}

/// What traversal does with one directory entry.
#[derive(Debug, Clone, Copy, PartialEq, Eq, Structural)]
pub enum EntryAction {
    /// A parent link: skipped, never recursed into.
    SkipParent,
    /// A subdirectory: recursed into through its ICB.
    Descend,
    /// A plain file: its extents are copied out.
    CopyFile,
}

/// Decides what traversal does with a directory entry.  An entry with
/// the parent characteristic is never descended into, whatever else is
/// set: that is what keeps traversal from ascending in a loop.
pub fn classify_entry(fid: &FileIdentifierDescriptor) -> (r: EntryAction)
    ensures
        fid.file_characteristics & 0x08u8 != 0 ==> r == EntryAction::SkipParent,
        fid.file_characteristics & 0x08u8 == 0 && fid.file_characteristics & 0x02u8 != 0 ==> r
            == EntryAction::Descend,
        fid.file_characteristics & 0x08u8 == 0 && fid.file_characteristics & 0x02u8 == 0 ==> r
            == EntryAction::CopyFile,
{
    if fid.file_characteristics & 0x08u8 != 0 {
        EntryAction::SkipParent
    } else if fid.file_characteristics & 0x02u8 != 0 {
        EntryAction::Descend
    } else {
        EntryAction::CopyFile
    }
}

/// Whether the descriptor tag stored at offset `pos` of `b` validates
/// against the bytes from `pos` to the end of the buffer.
pub open spec fn spec_tag_valid_at(b: Seq<u8>, pos: int) -> bool {
    spec_tag_valid(
        DescriptorTag::spec_decode(b.subrange(pos, b.len() as int)),
        b.subrange(pos, b.len() as int),
    )
}

/// Validity at an offset is validity of the suffix at offset 0.
pub proof fn lemma_valid_at_shift(b: Seq<u8>, off: int)
    requires
        0 <= off <= b.len(),
    ensures
        spec_tag_valid_at(b, off) == spec_tag_valid_at(b.subrange(off, b.len() as int), 0),
{
    let sub = b.subrange(off, b.len() as int);
    assert(sub.subrange(0, sub.len() as int) =~= sub);
}

/// The tag decoded from a buffer's first 16 bytes is the tag of the
/// whole buffer, and validating it against the buffer is validity at
/// offset 0.
pub proof fn lemma_tag_valid_at_zero(b: Seq<u8>, tag: DescriptorTag)
    requires
        b.len() >= 16,
        tag == DescriptorTag::spec_decode(b.subrange(0, 16)),
    ensures
        tag == DescriptorTag::spec_decode(b),
        tag.tag_identifier == le16_at(b, 0),
        spec_tag_valid_at(b, 0) == spec_tag_valid(tag, b),
{
    assert(b.subrange(0, b.len() as int) =~= b);
    assert(DescriptorTag::spec_decode(b.subrange(0, 16)) == DescriptorTag::spec_decode(b));
}

/// The start offsets of the file entries recorded in an ICB extent,
/// walked as ECMA-167 prescribes: tag 0 is an unrecorded block and
/// ends the chain, a terminal entry ends it, a file entry advances by
/// its stored length, and an indirect entry or any other tag is
/// rejected, as is a tag that fails validation.
pub open spec fn spec_icb_scan(b: Seq<u8>, pos: int) -> Result<Seq<int>, UdfError>
    decreases b.len() - pos,
{
    if pos < 0 || b.len() - pos < 16 {
        Result::<Seq<int>, UdfError>::Ok(Seq::empty())
    } else {
        let id = le16_at(b, pos);
        if id == 0 {
            Result::<Seq<int>, UdfError>::Ok(Seq::empty())
        } else if !spec_tag_valid_at(b, pos) {
            Result::<Seq<int>, UdfError>::Err(UdfError::InvalidDescriptorTag)
        } else if id == 261 {
            if pos + 176 > b.len() {
                Result::<Seq<int>, UdfError>::Err(UdfError::BufferTooSmall)
            } else {
                let total = 176 + le32_at(b, pos + 168) + le32_at(b, pos + 172);
                if pos + total > b.len() {
                    Result::<Seq<int>, UdfError>::Err(UdfError::BufferTooSmall)
                } else {
                    match spec_icb_scan(b, pos + total) {
                        Result::Ok(s) => Result::Ok(seq![pos] + s),
                        Result::Err(e) => Result::Err(e),
                    }
                }
            }
        } else if id == 260 {
            Result::<Seq<int>, UdfError>::Ok(Seq::empty())
        } else {
            Result::<Seq<int>, UdfError>::Err(UdfError::InvalidDescriptorTag)
        }
    }
}

/// One step of the ICB walk: a valid file entry at `p` extends the
/// offset prefix and moves the scan to the next entry.
proof fn lemma_icb_scan_step(b: Seq<u8>, p: int, total: int, prefix: Seq<int>)
    requires
        0 <= p,
        b.len() - p >= 16,
        le16_at(b, p) != 0,
        spec_tag_valid_at(b, p),
        le16_at(b, p) == 261,
        p + 176 <= b.len(),
        total == 176 + le32_at(b, p + 168) + le32_at(b, p + 172),
        p + total <= b.len(),
        spec_icb_scan(b, 0) == (match spec_icb_scan(b, p) {
            Result::<Seq<int>, UdfError>::Ok(s) => Result::<Seq<int>, UdfError>::Ok(prefix + s),
            Result::<Seq<int>, UdfError>::Err(e) => Result::<Seq<int>, UdfError>::Err(e),
        }),
    ensures
        spec_icb_scan(b, 0) == (match spec_icb_scan(b, p + total) {
            Result::<Seq<int>, UdfError>::Ok(s) => Result::<Seq<int>, UdfError>::Ok(
                (prefix + seq![p]) + s,
            ),
            Result::<Seq<int>, UdfError>::Err(e) => Result::<Seq<int>, UdfError>::Err(e),
        }),
{
    assert(spec_icb_scan(b, p) == (match spec_icb_scan(b, p + total) {
        Result::<Seq<int>, UdfError>::Ok(s) => Result::<Seq<int>, UdfError>::Ok(seq![p] + s),
        Result::<Seq<int>, UdfError>::Err(e) => Result::<Seq<int>, UdfError>::Err(e),
    }));
    if spec_icb_scan(b, p + total) is Ok {
        let s = spec_icb_scan(b, p + total)->Ok_0;
        assert(prefix + (seq![p] + s) =~= (prefix + seq![p]) + s);
    }
}

/// Reads the chain of file entries stored in an ICB extent.  Usually
/// there is exactly one; continuation entries follow in the buffer.
/// An indirect entry is not followed: the image is rejected with a
/// clear diagnostic instead.
#[verifier::rlimit(100)]
pub fn read_file_entries(bytes: &[u8]) -> (r: Result<Vec<FileEntry>, UdfError>)
    ensures
        match r {
            Ok(entries) => {
                &&& spec_icb_scan(bytes@, 0) is Ok
                &&& entries@.len() == spec_icb_scan(bytes@, 0)->Ok_0.len()
                &&& forall|i: int|
                    0 <= i < entries@.len() ==> FileEntry::spec_decodes(
                        bytes@.subrange(spec_icb_scan(bytes@, 0)->Ok_0[i], bytes@.len() as int),
                        entries@[i],
                    ) && entries@[i].wf()
            },
            Err(e) => spec_icb_scan(bytes@, 0) == Result::<Seq<int>, UdfError>::Err(e),
        },
{
    let n = bytes.len();
    let mut entries: Vec<FileEntry> = Vec::new();
    let ghost mut offs: Seq<int> = Seq::empty();
    let mut pos: usize = 0;
    loop
        invariant
            n == bytes@.len(),
            pos <= n,
            entries@.len() == offs.len(),
            forall|i: int|
                0 <= i < offs.len() ==> FileEntry::spec_decodes(
                    bytes@.subrange(offs[i], n as int),
                    #[trigger] entries@[i],
                ) && entries@[i].wf(),
            spec_icb_scan(bytes@, 0) == (match spec_icb_scan(bytes@, pos as int) {
                Result::<Seq<int>, UdfError>::Ok(s) => Result::<Seq<int>, UdfError>::Ok(offs + s),
                Result::<Seq<int>, UdfError>::Err(e) => Result::<Seq<int>, UdfError>::Err(e),
            }),
        decreases n - pos,
    {
        if n - pos < 16 {
            proof {
                assert(offs + Seq::<int>::empty() =~= offs);
            }
            return Ok(entries);
        }
        let rest = &bytes[pos..n];
        proof {
            assert(rest@ == bytes@.subrange(pos as int, n as int));
        }
        let tag = DescriptorTag::read(rest);
        assert(tag.tag_identifier == le16_at(bytes@, pos as int)) by {
            assert(rest@[0] == bytes@[pos as int]);
            assert(rest@[1] == bytes@[pos as int + 1]);
        }
        if tag.tag_identifier == 0 {
            proof {
                assert(offs + Seq::<int>::empty() =~= offs);
            }
            return Ok(entries);
        }
        if !validate_descriptor_tag(&tag, rest) {
            return Err(UdfError::InvalidDescriptorTag);
        }
        if tag.tag_identifier == 261 {
            if n - pos < 176 {
                return Err(UdfError::BufferTooSmall);
            }
            let lea = crate::lebytes::read_le32(rest, 168);
            let lad = crate::lebytes::read_le32(rest, 172);
            proof {
                assert(le32_at(rest@, 168) == le32_at(bytes@, pos + 168));
                assert(le32_at(rest@, 172) == le32_at(bytes@, pos + 172));
            }
            let total64: u64 = 176u64 + lea as u64 + lad as u64;
            if total64 > (n - pos) as u64 {
                return Err(UdfError::BufferTooSmall);
            }
            let total = total64 as usize;
            let entry = FileEntry::read(rest);
            proof {
                let b = bytes@;
                let p = pos as int;
                assert(le16_at(b, p) == 261);
                assert(spec_tag_valid_at(b, p));
                assert(total == 176 + le32_at(b, p + 168) + le32_at(b, p + 172));
                lemma_icb_scan_step(b, p, total as int, offs);
                offs = offs + seq![p];
            }
            entries.push(entry);
            pos = pos + total;
        } else if tag.tag_identifier == 260 {
            proof {
                assert(offs + Seq::<int>::empty() =~= offs);
            }
            return Ok(entries);
        } else {
            return Err(UdfError::InvalidDescriptorTag);
        }
    }
}

/// The start offsets of the file identifier descriptors in a directory
/// stream: tag 0 ends the block's records, a terminal entry stops the
/// walk, an identifier advances by its size rounded up to 4 bytes, and
/// any other tag is rejected.
pub open spec fn spec_fid_scan(b: Seq<u8>, pos: int) -> Result<Seq<int>, UdfError>
    decreases b.len() - pos,
{
    if pos < 0 || b.len() - pos <= 16 {
        Result::<Seq<int>, UdfError>::Ok(Seq::empty())
    } else {
        let id = le16_at(b, pos);
        if id == 0 {
            Result::<Seq<int>, UdfError>::Ok(Seq::empty())
        } else if id == 257 {
            if pos + 38 > b.len() {
                Result::<Seq<int>, UdfError>::Err(UdfError::BufferTooSmall)
            } else {
                let size = 38 + le16_at(b, pos + 36) + b[pos + 19];
                let aligned = ((size + 3) / 4) * 4;
                if pos + aligned > b.len() {
                    Result::<Seq<int>, UdfError>::Err(UdfError::BufferTooSmall)
                } else {
                    match spec_fid_scan(b, pos + aligned) {
                        Result::Ok(s) => Result::Ok(seq![pos] + s),
                        Result::Err(e) => Result::Err(e),
                    }
                }
            }
        } else if id == 260 {
            Result::<Seq<int>, UdfError>::Ok(Seq::empty())
        } else {
            Result::<Seq<int>, UdfError>::Err(UdfError::InvalidDescriptorTag)
        }
    }
}

/// Parses a directory's concatenated data as a sequence of file
/// identifier descriptors, each padded to 4-byte alignment.
pub fn parse_file_identifiers(buf: &[u8]) -> (r: Result<Vec<FileIdentifierDescriptor>, UdfError>)
    ensures
        match r {
            Ok(fids) => {
                &&& spec_fid_scan(buf@, 0) is Ok
                &&& fids@.len() == spec_fid_scan(buf@, 0)->Ok_0.len()
                &&& forall|i: int|
                    0 <= i < fids@.len() ==> FileIdentifierDescriptor::spec_decodes(
                        buf@.subrange(spec_fid_scan(buf@, 0)->Ok_0[i], buf@.len() as int),
                        fids@[i],
                    ) && fids@[i].wf()
            },
            Err(e) => spec_fid_scan(buf@, 0) == Result::<Seq<int>, UdfError>::Err(e),
        },
{
    let n = buf.len();
    let mut fids: Vec<FileIdentifierDescriptor> = Vec::new();
    let ghost mut offs: Seq<int> = Seq::empty();
    let mut pos: usize = 0;
    loop
        invariant
            n == buf@.len(),
            pos <= n,
            fids@.len() == offs.len(),
            forall|i: int|
                0 <= i < offs.len() ==> FileIdentifierDescriptor::spec_decodes(
                    buf@.subrange(offs[i], n as int),
                    #[trigger] fids@[i],
                ) && fids@[i].wf(),
            spec_fid_scan(buf@, 0) == (match spec_fid_scan(buf@, pos as int) {
                Result::<Seq<int>, UdfError>::Ok(s) => Result::<Seq<int>, UdfError>::Ok(offs + s),
                Result::<Seq<int>, UdfError>::Err(e) => Result::<Seq<int>, UdfError>::Err(e),
            }),
        decreases n - pos,
    {
        if n - pos <= 16 {
            proof {
                assert(offs + Seq::<int>::empty() =~= offs);
            }
            return Ok(fids);
        }
        let rest = &buf[pos..n];
        proof {
            assert(rest@ == buf@.subrange(pos as int, n as int));
        }
        let tag = DescriptorTag::read(rest);
        assert(tag.tag_identifier == le16_at(buf@, pos as int)) by {
            assert(rest@[0] == buf@[pos as int]);
            assert(rest@[1] == buf@[pos as int + 1]);
        }
        if tag.tag_identifier == 0 {
            proof {
                assert(offs + Seq::<int>::empty() =~= offs);
            }
            return Ok(fids);
        }
        if tag.tag_identifier == 257 {
            if n - pos < 38 {
                return Err(UdfError::BufferTooSmall);
            }
            let liu = crate::lebytes::read_le16(rest, 36);
            let lfi = rest[19];
            proof {
                assert(le16_at(rest@, 36) == le16_at(buf@, pos + 36));
                assert(rest@[19] == buf@[pos + 19]);
            }
            let size: usize = 38 + liu as usize + lfi as usize;
            let aligned: usize = ((size + 3) / 4) * 4;
            if aligned > n - pos {
                return Err(UdfError::BufferTooSmall);
            }
            let fid = FileIdentifierDescriptor::read(rest);
            proof {
                let b = buf@;
                let p = pos as int;
                let old_offs = offs;
                offs = offs + seq![p];
                assert(b.len() - p > 16);
                assert(le16_at(b, p) == 257);
                assert(p + 38 <= b.len());
                let size_s = 38 + le16_at(b, p + 36) + b[p + 19];
                assert(size_s == size);
                assert(aligned == ((size_s + 3) / 4) * 4);
                assert(p + aligned <= b.len());
                assert(spec_fid_scan(b, p) == (match spec_fid_scan(b, p + aligned) {
                    Result::<Seq<int>, UdfError>::Ok(s) => Result::<Seq<int>, UdfError>::Ok(
                        seq![p] + s,
                    ),
                    Result::<Seq<int>, UdfError>::Err(e) => Result::<Seq<int>, UdfError>::Err(e),
                }));
                if spec_fid_scan(b, p + aligned) is Ok {
                    let s = spec_fid_scan(b, p + aligned)->Ok_0;
                    assert(spec_fid_scan(b, p) == Result::<Seq<int>, UdfError>::Ok(seq![p] + s));
                    assert(old_offs + (seq![p] + s) =~= offs + s);
                    assert(spec_fid_scan(b, 0) == Result::<Seq<int>, UdfError>::Ok(offs + s));
                } else {
                    let e = spec_fid_scan(b, p + aligned)->Err_0;
                    assert(spec_fid_scan(b, p) == Result::<Seq<int>, UdfError>::Err(e));
                    assert(spec_fid_scan(b, 0) == Result::<Seq<int>, UdfError>::Err(e));
                }
            }
            fids.push(fid);
            pos = pos + aligned;
        } else if tag.tag_identifier == 260 {
            proof {
                assert(offs + Seq::<int>::empty() =~= offs);
            }
            return Ok(fids);
        } else {
            return Err(UdfError::InvalidDescriptorTag);
        }
    }
}

/// The directory entries over a list of extent buffers, as (buffer,
/// offset) pairs: each buffer is walked in order and the results are
/// concatenated, which preserves on-disk enumeration order.
pub open spec fn spec_dir_scan(bufs: Seq<Seq<u8>>, k: int) -> Result<Seq<(int, int)>, UdfError>
    decreases bufs.len() - k,
{
    if k < 0 || k >= bufs.len() {
        Result::<Seq<(int, int)>, UdfError>::Ok(Seq::empty())
    } else {
        match spec_fid_scan(bufs[k], 0) {
            Result::<Seq<int>, UdfError>::Ok(offs) => match spec_dir_scan(bufs, k + 1) {
                Result::<Seq<(int, int)>, UdfError>::Ok(rest) => Result::<
                    Seq<(int, int)>,
                    UdfError,
                >::Ok(offs.map_values(|o: int| (k, o)) + rest),
                Result::<Seq<(int, int)>, UdfError>::Err(e) => Result::<
                    Seq<(int, int)>,
                    UdfError,
                >::Err(e),
            },
            Result::<Seq<int>, UdfError>::Err(e) => Result::<Seq<(int, int)>, UdfError>::Err(e),
        }
    }
}

/// Parses a directory's data, given as the bytes of its extents in
/// file order, into its file identifier descriptors.
pub fn read_directory_contents(extent_bufs: &Vec<Vec<u8>>) -> (r: Result<
    Vec<FileIdentifierDescriptor>,
    UdfError,
>)
    ensures
        match r {
            Ok(fids) => {
                &&& spec_dir_scan(extent_bufs.deep_view(), 0) is Ok
                &&& fids@.len() == spec_dir_scan(extent_bufs.deep_view(), 0)->Ok_0.len()
                &&& forall|i: int|
                    0 <= i < fids@.len() ==> {
                        let p = spec_dir_scan(extent_bufs.deep_view(), 0)->Ok_0[i];
                        FileIdentifierDescriptor::spec_decodes(
                            extent_bufs.deep_view()[p.0].subrange(
                                p.1,
                                extent_bufs.deep_view()[p.0].len() as int,
                            ),
                            #[trigger] fids@[i],
                        ) && fids@[i].wf()
                    }
            },
            Err(e) => spec_dir_scan(extent_bufs.deep_view(), 0) == Result::<
                Seq<(int, int)>,
                UdfError,
            >::Err(e),
        },
{
    let ghost dv = extent_bufs.deep_view();
    let n = extent_bufs.len();
    let mut fids: Vec<FileIdentifierDescriptor> = Vec::new();
    let ghost mut pairs: Seq<(int, int)> = Seq::empty();
    let mut k: usize = 0;
    while k < n
        invariant
            n == extent_bufs@.len(),
            dv == extent_bufs.deep_view(),
            k <= n,
            fids@.len() == pairs.len(),
            forall|i: int|
                0 <= i < pairs.len() ==> {
                    let p = pairs[i];
                    FileIdentifierDescriptor::spec_decodes(
                        dv[p.0].subrange(p.1, dv[p.0].len() as int),
                        #[trigger] fids@[i],
                    ) && fids@[i].wf()
                },
            spec_dir_scan(dv, 0) == (match spec_dir_scan(dv, k as int) {
                Result::<Seq<(int, int)>, UdfError>::Ok(rest) => Result::<
                    Seq<(int, int)>,
                    UdfError,
                >::Ok(pairs + rest),
                Result::<Seq<(int, int)>, UdfError>::Err(e) => Result::<
                    Seq<(int, int)>,
                    UdfError,
                >::Err(e),
            }),
        decreases n - k,
    {
        proof {
            assert(dv.len() == extent_bufs@.len());
            assert(dv[k as int] == extent_bufs@[k as int]@);
        }
        let mut part = match parse_file_identifiers(extent_bufs[k].as_slice()) {
            Ok(part) => part,
            Err(e) => {
                proof {
                    assert(spec_dir_scan(dv, k as int) == Result::<
                        Seq<(int, int)>,
                        UdfError,
                    >::Err(e));
                }
                return Err(e);
            },
        };
        proof {
            let offs = spec_fid_scan(dv[k as int], 0)->Ok_0;
            let kp = offs.map_values(|o: int| (k as int, o));
            let old_pairs = pairs;
            pairs = pairs + kp;
            assert(spec_dir_scan(dv, k as int) == (match spec_dir_scan(dv, k + 1) {
                Result::<Seq<(int, int)>, UdfError>::Ok(rest) => Result::<
                    Seq<(int, int)>,
                    UdfError,
                >::Ok(kp + rest),
                Result::<Seq<(int, int)>, UdfError>::Err(e) => Result::<
                    Seq<(int, int)>,
                    UdfError,
                >::Err(e),
            }));
            if spec_dir_scan(dv, k + 1) is Ok {
                let rest = spec_dir_scan(dv, k + 1)->Ok_0;
                assert(old_pairs + (kp + rest) =~= pairs + rest);
            }
        }
        fids.append(&mut part);
        k = k + 1;
    }
    proof {
        assert(pairs + Seq::<(int, int)>::empty() =~= pairs);
    }
    Ok(fids)
}

/// The offsets of the partition maps in a map table, and the offset
/// after the last one.  Each entry gives its own length in its second
/// byte; the known types fix theirs.
pub open spec fn spec_pm_scan(b: Seq<u8>, off: int, count: int) -> Result<
    (Seq<int>, int),
    UdfError,
>
    decreases count,
{
    if count <= 0 {
        Result::<(Seq<int>, int), UdfError>::Ok((Seq::empty(), off))
    } else if off < 0 || off + 2 > b.len() {
        Result::<(Seq<int>, int), UdfError>::Err(UdfError::BufferTooSmall)
    } else if off + b[off + 1] > b.len() {
        Result::<(Seq<int>, int), UdfError>::Err(UdfError::BufferTooSmall)
    } else if b[off] == 1 && b[off + 1] != 6 {
        Result::<(Seq<int>, int), UdfError>::Err(UdfError::InvalidPartitionMap)
    } else if b[off] == 2 && b[off + 1] != 64 {
        Result::<(Seq<int>, int), UdfError>::Err(UdfError::InvalidPartitionMap)
    } else {
        let adv: int = if b[off] == 1 {
            6
        } else if b[off] == 2 {
            64
        } else {
            b[off + 1] as int
        };
        match spec_pm_scan(b, off + adv, count - 1) {
            Result::Ok(p) => Result::Ok((seq![off] + p.0, p.1)),
            Result::Err(e) => Result::Err(e),
        }
    }
}

/// One step of the partition-map walk.
proof fn lemma_pm_scan_step(b: Seq<u8>, off: int, left: int, count: int, prefix: Seq<int>)
    requires
        left > 0,
        0 <= off,
        off + 2 <= b.len(),
        off + b[off + 1] <= b.len(),
        !(b[off] == 1 && b[off + 1] != 6),
        !(b[off] == 2 && b[off + 1] != 64),
        spec_pm_scan(b, 0, count) == (match spec_pm_scan(b, off, left) {
            Result::<(Seq<int>, int), UdfError>::Ok(p) => Result::<
                (Seq<int>, int),
                UdfError,
            >::Ok((prefix + p.0, p.1)),
            Result::<(Seq<int>, int), UdfError>::Err(e) => Result::<
                (Seq<int>, int),
                UdfError,
            >::Err(e),
        }),
    ensures
        ({
            let adv: int = if b[off] == 1 {
                6
            } else if b[off] == 2 {
                64
            } else {
                b[off + 1] as int
            };
            spec_pm_scan(b, 0, count) == (match spec_pm_scan(b, off + adv, left - 1) {
                Result::<(Seq<int>, int), UdfError>::Ok(p) => Result::<
                    (Seq<int>, int),
                    UdfError,
                >::Ok(((prefix + seq![off]) + p.0, p.1)),
                Result::<(Seq<int>, int), UdfError>::Err(e) => Result::<
                    (Seq<int>, int),
                    UdfError,
                >::Err(e),
            })
        }),
{
    let adv: int = if b[off] == 1 {
        6
    } else if b[off] == 2 {
        64
    } else {
        b[off + 1] as int
    };
    assert(spec_pm_scan(b, off, left) == (match spec_pm_scan(b, off + adv, left - 1) {
        Result::<(Seq<int>, int), UdfError>::Ok(p) => Result::<(Seq<int>, int), UdfError>::Ok(
            (seq![off] + p.0, p.1),
        ),
        Result::<(Seq<int>, int), UdfError>::Err(e) => Result::<(Seq<int>, int), UdfError>::Err(
            e,
        ),
    }));
    if spec_pm_scan(b, off + adv, left - 1) is Ok {
        let p = spec_pm_scan(b, off + adv, left - 1)->Ok_0;
        assert(prefix + (seq![off] + p.0) =~= (prefix + seq![off]) + p.0);
    }
}

/// A step of the file-set-descriptor scan over a partition's sectors.
pub enum FsdScanStep {
    /// The sector holds a file set descriptor.
    FileSet(FileSetDescriptor),
    /// The sector holds a terminating descriptor: the sequence ends.
    Terminator,
    /// A valid sector of another kind; the scan continues.
    Skip,
}

/// Parser configuration: the sector size of the source and the number
/// of header bytes to skip in each raw sector.
pub struct UdfParser {
    pub sector_size: u32,
    pub data_offset: u32,
}

impl UdfParser {
    /// Configuration for DVD media: 2048-byte sectors, no header.
    pub fn new() -> (r: UdfParser)
        ensures
            r.sector_size == 2048,
            r.data_offset == 0,
    {
        UdfParser { sector_size: 2048, data_offset: 0 }
    }

    /// Configuration for raw CD-ROM sectors: 2352 bytes with a 16-byte
    /// header before the user data.
    pub fn new_raw_cd() -> (r: UdfParser)
        ensures
            r.sector_size == 2352,
            r.data_offset == 16,
    {
        UdfParser { sector_size: 2352, data_offset: 16 }
    }

    pub fn new_with_sector_size(sector_size: u32, data_offset: u32) -> (r: UdfParser)
        requires
            sector_size >= 1,
        ensures
            r.sector_size == sector_size,
            r.data_offset == data_offset,
    {
        UdfParser { sector_size, data_offset }
    }

    /// The absolute byte position of a sector in the source.
    pub fn sector_position(&self, sector: u32) -> (r: u64)
        ensures
            r == sector * self.sector_size + self.data_offset,
    {
        proof {
            assert(sector as int * self.sector_size as int + self.data_offset as int
                <= 0xFFFFFFFFu64 as int * 0xFFFFFFFFu64 as int + 0xFFFFFFFFu64 as int)
                by (nonlinear_arith)
                requires
                    sector <= 0xFFFFFFFFu64,
                    self.sector_size <= 0xFFFFFFFFu64,
                    self.data_offset <= 0xFFFFFFFFu64,
            ;
        }
        sector as u64 * self.sector_size as u64 + self.data_offset as u64
    }

    /// How many whole sectors a source of `stream_length` bytes holds.
    pub fn total_sectors(&self, stream_length: u64) -> (r: u32)
        requires
            self.sector_size >= 1,
            stream_length >= self.data_offset,
            (stream_length - self.data_offset) / (self.sector_size as int) <= u32::MAX,
        ensures
            r == (stream_length - self.data_offset) / (self.sector_size as int),
    {
        ((stream_length - self.data_offset as u64) / self.sector_size as u64) as u32
    }

    /// The sectors where an anchor may be recorded, in the order they
    /// are tried: 256, N - 256 and N - 1.
    pub fn anchor_candidate_sectors(&self, total_sectors: u32) -> (r: Vec<u32>)
        requires
            total_sectors >= 257,
        ensures
            r@ == seq![256u32, (total_sectors - 256) as u32, (total_sectors - 1) as u32],
    {
        let v: Vec<u32> = vec![256u32, total_sectors - 256, total_sectors - 1];
        proof {
            assert(v@ =~= seq![256u32, (total_sectors - 256) as u32, (total_sectors - 1) as u32]);
        }
        v
    }

    /// Reads an anchor volume descriptor pointer from one sector's
    /// bytes: the tag must validate and carry the anchor identifier.
    pub fn read_anchor(&self, buf: &[u8]) -> (r: Result<AnchorVolumeDescriptorPointer, UdfError>)
        requires
            buf@.len() >= 512,
        ensures
            match r {
                Ok(a) => {
                    &&& spec_tag_valid_at(buf@, 0)
                    &&& le16_at(buf@, 0) == 2
                    &&& AnchorVolumeDescriptorPointer::spec_decodes(buf@, a)
                    &&& a.wf()
                },
                Err(e) => {
                    &&& e == UdfError::InvalidDescriptorTag
                    &&& !(spec_tag_valid_at(buf@, 0) && le16_at(buf@, 0) == 2)
                },
            },
    {
        let anchor = AnchorVolumeDescriptorPointer::read(buf);
        proof {
            lemma_tag_valid_at_zero(buf@, anchor.tag);
        }
        if !validate_descriptor_tag(&anchor.tag, buf) {
            return Err(UdfError::InvalidDescriptorTag);
        }
        if anchor.tag.tag_identifier != 2 {
            return Err(UdfError::InvalidDescriptorTag);
        }
        Ok(anchor)
    }

    /// Reads and validates a primary volume descriptor from the bytes
    /// of its sector.
    pub fn read_primary_volume_descriptor(&self, buf: &[u8]) -> (r: Result<
        PrimaryVolumeDescriptor,
        UdfError,
    >)
        requires
            buf@.len() >= 512,
        ensures
            match r {
                Ok(p) => {
                    &&& spec_tag_valid_at(buf@, 0)
                    &&& PrimaryVolumeDescriptor::spec_decodes(buf@, p)
                    &&& p.wf()
                },
                Err(e) => {
                    &&& e == UdfError::InvalidDescriptorTag
                    &&& !spec_tag_valid_at(buf@, 0)
                },
            },
    {
        let pvd = PrimaryVolumeDescriptor::read(buf);
        proof {
            lemma_tag_valid_at_zero(buf@, pvd.tag);
        }
        if !validate_descriptor_tag(&pvd.tag, buf) {
            return Err(UdfError::InvalidDescriptorTag);
        }
        Ok(pvd)
    }

    /// Reads a logical volume descriptor together with its partition
    /// maps.  `buf` starts at the descriptor's sector and extends far
    /// enough to cover the map table.  With a non-empty map table the
    /// tag is validated, exactly `number_of_partition_maps` entries
    /// are decoded, and the bytes they occupy must equal
    /// `map_table_length`.
    #[verifier::loop_isolation(false)]
    pub fn read_logical_volume_descriptor(&self, buf: &[u8]) -> (r: Result<
        (LogicalVolumeDescriptor, Vec<PartitionMap>),
        UdfError,
    >)
        requires
            buf@.len() >= 440,
        ensures
            ({
                let mtl = le32_at(buf@, 264) as int;
                let count = le32_at(buf@, 268) as int;
                let region = buf@.subrange(440, buf@.len() as int);
                match r {
                    Ok((lvd, maps)) => {
                        &&& LogicalVolumeDescriptor::spec_decodes(buf@, lvd)
                        &&& lvd.wf()
                        &&& (mtl == 0 ==> maps@.len() == 0)
                        &&& (mtl > 0 ==> {
                            &&& spec_tag_valid_at(buf@, 0)
                            &&& spec_pm_scan(region, 0, count) is Ok
                            &&& spec_pm_scan(region, 0, count)->Ok_0.1 == mtl
                            &&& maps@.len() == spec_pm_scan(region, 0, count)->Ok_0.0.len()
                            &&& forall|i: int|
                                0 <= i < maps@.len() ==> PartitionMap::spec_decodes(
                                    region.subrange(
                                        spec_pm_scan(region, 0, count)->Ok_0.0[i],
                                        region.len() as int,
                                    ),
                                    #[trigger] maps@[i],
                                ) && maps@[i].wf()
                        })
                    },
                    Err(e) => {
                        &&& mtl > 0
                        &&& {
                            ||| (!spec_tag_valid_at(buf@, 0) && e
                                == UdfError::InvalidDescriptorTag)
                            ||| (spec_tag_valid_at(buf@, 0) && (match spec_pm_scan(
                                region,
                                0,
                                count,
                            ) {
                                Result::<(Seq<int>, int), UdfError>::Ok(p) => p.1 != mtl && e
                                    == UdfError::InvalidPartitionMap,
                                Result::<(Seq<int>, int), UdfError>::Err(e2) => e == e2,
                            }))
                        }
                    },
                }
            }),
    {
        let lvd = LogicalVolumeDescriptor::read(buf);
        let mut maps: Vec<PartitionMap> = Vec::new();
        proof {
            lemma_tag_valid_at_zero(buf@, lvd.tag);
        }
        if lvd.map_table_length == 0 {
            return Ok((lvd, maps));
        }
        if !validate_descriptor_tag(&lvd.tag, buf) {
            return Err(UdfError::InvalidDescriptorTag);
        }
        let buf_len = buf.len();
        let region = &buf[440..buf_len];
        let region_len = buf_len - 440;
        let count = lvd.number_of_partition_maps;
        let ghost region_seq = buf@.subrange(440, buf@.len() as int);
        proof {
            assert(region@ == region_seq);
        }
        let mut maps_read: u32 = 0;
        let mut offset: usize = 0;
        let ghost mut offs: Seq<int> = Seq::empty();
        while maps_read < count
            invariant
                region@ == region_seq,
                region_seq.len() == region_len,
                region_len == buf_len - 440,
                buf_len == buf@.len(),
                buf@.len() >= 440,
                count == le32_at(buf@, 268),
                maps_read <= count,
                offset <= region_len,
                maps@.len() == offs.len(),
                forall|i: int|
                    0 <= i < offs.len() ==> PartitionMap::spec_decodes(
                        region_seq.subrange(offs[i], region_seq.len() as int),
                        #[trigger] maps@[i],
                    ) && maps@[i].wf(),
                spec_pm_scan(region_seq, 0, count as int) == (match spec_pm_scan(
                    region_seq,
                    offset as int,
                    count - maps_read,
                ) {
                    Result::<(Seq<int>, int), UdfError>::Ok(p) => Result::<
                        (Seq<int>, int),
                        UdfError,
                    >::Ok((offs + p.0, p.1)),
                    Result::<(Seq<int>, int), UdfError>::Err(e) => Result::<
                        (Seq<int>, int),
                        UdfError,
                    >::Err(e),
                }),
            decreases count - maps_read,
        {
            if region_len - offset < 2 {
                proof {
                    assert(spec_pm_scan(region_seq, offset as int, count - maps_read)
                        == Result::<(Seq<int>, int), UdfError>::Err(UdfError::BufferTooSmall));
                }
                return Err(UdfError::BufferTooSmall);
            }
            let map_length = region[offset + 1];
            if (map_length as usize) > region_len - offset {
                proof {
                    assert(region_seq[offset as int + 1] == map_length);
                    assert(spec_pm_scan(region_seq, offset as int, count - maps_read)
                        == Result::<(Seq<int>, int), UdfError>::Err(UdfError::BufferTooSmall));
                }
                return Err(UdfError::BufferTooSmall);
            }
            let rest = &region[offset..region_len];
            proof {
                assert(rest@ == region_seq.subrange(offset as int, region_seq.len() as int));
                assert(rest@[0] == region_seq[offset as int]);
                assert(rest@[1] == region_seq[offset as int + 1]);
            }
            let map = match PartitionMap::read(rest) {
                Ok(m) => m,
                Err(e) => {
                    proof {
                        let b = region_seq;
                        let off = offset as int;
                        assert(crate::udf::spec_pm_read_err(rest@) == Option::Some(e));
                        assert(rest@.len() >= 2);
                        assert(rest@[1] == b[off + 1]);
                        assert(rest@.len() >= b[off + 1]);
                        assert((b[off] == 1 && b[off + 1] != 6) || (b[off] == 2 && b[off + 1]
                            != 64));
                        assert(spec_pm_scan(b, off, count - maps_read) == Result::<
                            (Seq<int>, int),
                            UdfError,
                        >::Err(UdfError::InvalidPartitionMap));
                    }
                    return Err(UdfError::InvalidPartitionMap);
                },
            };
            let adv = map.get_length() as usize;
            proof {
                let b = region_seq;
                let off = offset as int;
                assert(adv == (if b[off] == 1 {
                    6int
                } else if b[off] == 2 {
                    64int
                } else {
                    b[off + 1] as int
                }));
                lemma_pm_scan_step(b, off, (count - maps_read) as int, count as int, offs);
                offs = offs + seq![off];
            }
            maps.push(map);
            offset = offset + adv;
            maps_read = maps_read + 1;
        }
        proof {
            assert(spec_pm_scan(region_seq, offset as int, 0) == Result::<
                (Seq<int>, int),
                UdfError,
            >::Ok((Seq::empty(), offset as int)));
            assert(offs + Seq::<int>::empty() =~= offs);
        }
        if offset != lvd.map_table_length as usize {
            return Err(UdfError::InvalidPartitionMap);
        }
        Ok((lvd, maps))
    }

    /// Classifies one sector of a partition's file-set-descriptor
    /// sequence: its tag must validate; identifier 256 yields the file
    /// set descriptor, 8 the terminator, anything else is skipped.
    pub fn read_fileset_descriptor_sector(&self, buf: &[u8]) -> (r: Result<FsdScanStep, UdfError>)
        requires
            buf@.len() >= 512,
        ensures
            match r {
                Ok(step) => {
                    &&& spec_tag_valid_at(buf@, 0)
                    &&& match step {
                        FsdScanStep::FileSet(f) => le16_at(buf@, 0) == 256
                            && FileSetDescriptor::spec_decodes(buf@, f) && f.wf(),
                        FsdScanStep::Terminator => le16_at(buf@, 0) == 8,
                        FsdScanStep::Skip => le16_at(buf@, 0) != 256 && le16_at(buf@, 0) != 8,
                    }
                },
                Err(e) => {
                    &&& e == UdfError::InvalidDescriptorTag
                    &&& !spec_tag_valid_at(buf@, 0)
                },
            },
    {
        let tag = DescriptorTag::read(buf);
        proof {
            assert(buf@.subrange(0, 16) =~= buf@.subrange(0, buf@.len() as int).subrange(0, 16));
            lemma_tag_valid_at_zero(buf@, tag);
        }
        if !validate_descriptor_tag(&tag, buf) {
            return Err(UdfError::InvalidDescriptorTag);
        }
        if tag.tag_identifier == 8 {
            Ok(FsdScanStep::Terminator)
        } else if tag.tag_identifier == 256 {
            let fsd = FileSetDescriptor::read(buf);
            Ok(FsdScanStep::FileSet(fsd))
        } else {
            Ok(FsdScanStep::Skip)
        }
    }
}

} // verus!
