//! The ECMA-167 / UDF record types and their byte codecs.
//!
//! Every record has a `read` that decodes it from a byte buffer and a
//! `write` that stores it into one.  The contracts tie both to the same
//! specification of the on-disk layout: `read` returns exactly the
//! decoding of the bytes, and the bytes `write` produces decode back to
//! the written record, which is the record round-trip law.

use vstd::prelude::*;

use crate::lebytes::{
    copy_into, le16_at, le32_at, le64_at, push_bytes, push_le16, push_le32, push_le64, push_u8,
    read_bytes, read_le16, read_le32, read_le64, spec_le16, spec_le32,
};
use crate::osta;
use crate::UdfError;

verus! {

/// DescriptorTag is the 16-byte header of every UDF descriptor.
#[derive(Debug, Clone, Copy)]
pub struct DescriptorTag {
    pub tag_identifier: u16,
    pub descriptor_version: u16,
    /// Sum modulo 256 of bytes 0-3 and 5-15 of the tag.
    pub tag_checksum: u8,
    pub _reserved: u8,
    pub tag_serial_number: u16,
    pub descriptor_crc: u16,
    /// Number of descriptor bytes following the tag that the CRC covers.
    pub descriptor_crc_length: u16,
    /// The sector the descriptor is stored at.
    pub tag_location: u32,
}

impl DescriptorTag {
    /// The tag decoded from the first 16 bytes of `b`.
    pub open spec fn spec_decode(b: Seq<u8>) -> DescriptorTag {
        DescriptorTag {
            tag_identifier: le16_at(b, 0),
            descriptor_version: le16_at(b, 2),
            tag_checksum: b[4],
            _reserved: b[5],
            tag_serial_number: le16_at(b, 6),
            descriptor_crc: le16_at(b, 8),
            descriptor_crc_length: le16_at(b, 10),
            tag_location: le32_at(b, 12),
        }
    }

    pub fn size() -> (r: usize)
        ensures
            r == 16,
    {
        16
    }

    pub fn read(bytes: &[u8]) -> (r: DescriptorTag)
        requires
            bytes@.len() >= 16,
        ensures
            r == DescriptorTag::spec_decode(bytes@),
    {
        DescriptorTag {
            tag_identifier: read_le16(bytes, 0),
            descriptor_version: read_le16(bytes, 2),
            tag_checksum: bytes[4],
            _reserved: bytes[5],
            tag_serial_number: read_le16(bytes, 6),
            descriptor_crc: read_le16(bytes, 8),
            descriptor_crc_length: read_le16(bytes, 10),
            tag_location: read_le32(bytes, 12),
        }
    }

    /// The 16 bytes that store this tag; they decode back to it.
    pub fn encode(&self) -> (r: Vec<u8>)
        ensures
            r@.len() == 16,
            DescriptorTag::spec_decode(r@) == *self,
    {
        let mut v: Vec<u8> = Vec::new();
        push_le16(&mut v, self.tag_identifier);
        push_le16(&mut v, self.descriptor_version);
        push_u8(&mut v, self.tag_checksum);
        push_u8(&mut v, self._reserved);
        push_le16(&mut v, self.tag_serial_number);
        push_le16(&mut v, self.descriptor_crc);
        push_le16(&mut v, self.descriptor_crc_length);
        push_le32(&mut v, self.tag_location);
        v
    }

    pub fn write(&self, bytes: &mut Vec<u8>, offset: usize)
        requires
            offset + 16 <= old(bytes)@.len(),
        ensures
            final(bytes)@.len() == old(bytes)@.len(),
            DescriptorTag::spec_decode(final(bytes)@.subrange(offset as int, offset + 16))
                == *self,
            forall|i: int|
                0 <= i < old(bytes)@.len() && !(offset <= i < offset + 16) ==> final(bytes)@[i]
                    == old(bytes)@[i],
    {
        let enc = self.encode();
        copy_into(bytes, offset, enc.as_slice());
        proof {
            assert(bytes@.subrange(offset as int, offset + 16) =~= enc@);
        }
    }
}

impl Default for DescriptorTag {
    fn default() -> (r: DescriptorTag)
        ensures
            r == (DescriptorTag {
                tag_identifier: 0u16,
                descriptor_version: 0u16,
                tag_checksum: 0u8,
                _reserved: 0u8,
                tag_serial_number: 0u16,
                descriptor_crc: 0u16,
                descriptor_crc_length: 0u16,
                tag_location: 0u32,
            }),
    {
        DescriptorTag {
            tag_identifier: 0,
            descriptor_version: 0,
            tag_checksum: 0,
            _reserved: 0,
            tag_serial_number: 0,
            descriptor_crc: 0,
            descriptor_crc_length: 0,
            tag_location: 0,
        }
    }
}

/// ECMA-167 extent descriptor: a run of sectors given as byte length
/// and starting sector.
#[derive(Debug, Clone, Copy)]
pub struct ExtentAd {
    /// Length in bytes.
    pub length_bytes: u32,
    /// Location as a logical sector number, or 0 if the length is 0.
    pub location_sector: u32,
}

impl ExtentAd {
    pub open spec fn spec_decode(b: Seq<u8>) -> ExtentAd {
        ExtentAd { length_bytes: le32_at(b, 0), location_sector: le32_at(b, 4) }
    }

    pub fn size() -> (r: usize)
        ensures
            r == 8,
    {
        8
    }

    pub fn read(bytes: &[u8]) -> (r: ExtentAd)
        requires
            bytes@.len() >= 8,
        ensures
            r == ExtentAd::spec_decode(bytes@),
    {
        ExtentAd { length_bytes: read_le32(bytes, 0), location_sector: read_le32(bytes, 4) }
    }

    pub fn encode(&self) -> (r: Vec<u8>)
        ensures
            r@.len() == 8,
            ExtentAd::spec_decode(r@) == *self,
    {
        let mut v: Vec<u8> = Vec::new();
        push_le32(&mut v, self.length_bytes);
        push_le32(&mut v, self.location_sector);
        v
    }

    pub fn write(&self, bytes: &mut Vec<u8>, offset: usize)
        requires
            offset + 8 <= old(bytes)@.len(),
        ensures
            final(bytes)@.len() == old(bytes)@.len(),
            ExtentAd::spec_decode(final(bytes)@.subrange(offset as int, offset + 8)) == *self,
            forall|i: int|
                0 <= i < old(bytes)@.len() && !(offset <= i < offset + 8) ==> final(bytes)@[i]
                    == old(bytes)@[i],
    {
        let enc = self.encode();
        copy_into(bytes, offset, enc.as_slice());
        proof {
            assert(bytes@.subrange(offset as int, offset + 8) =~= enc@);
        }
    }
}

impl Default for ExtentAd {
    fn default() -> (r: ExtentAd)
        ensures
            r == (ExtentAd { length_bytes: 0u32, location_sector: 0u32 }),
    {
        ExtentAd { length_bytes: 0, location_sector: 0 }
    }
}

/// ECMA-167 recorded address: a logical block within a numbered
/// partition.  Stored packed in 6 bytes, decoded field by field.
#[derive(Debug, Clone, Copy)]
pub struct LbAddr {
    pub logical_block_number: u32,
    pub partition_reference_number: u16,
}

impl LbAddr {
    pub open spec fn spec_decode(b: Seq<u8>) -> LbAddr {
        LbAddr { logical_block_number: le32_at(b, 0), partition_reference_number: le16_at(b, 4) }
    }

    pub fn size() -> (r: usize)
        ensures
            r == 6,
    {
        6
    }

    pub fn read(bytes: &[u8]) -> (r: LbAddr)
        requires
            bytes@.len() >= 6,
        ensures
            r == LbAddr::spec_decode(bytes@),
    {
        LbAddr {
            logical_block_number: read_le32(bytes, 0),
            partition_reference_number: read_le16(bytes, 4),
        }
    }

    pub fn encode(&self) -> (r: Vec<u8>)
        ensures
            r@.len() == 6,
            LbAddr::spec_decode(r@) == *self,
    {
        let mut v: Vec<u8> = Vec::new();
        push_le32(&mut v, self.logical_block_number);
        push_le16(&mut v, self.partition_reference_number);
        v
    }

    pub fn write(&self, bytes: &mut Vec<u8>, offset: usize)
        requires
            offset + 6 <= old(bytes)@.len(),
        ensures
            final(bytes)@.len() == old(bytes)@.len(),
            LbAddr::spec_decode(final(bytes)@.subrange(offset as int, offset + 6)) == *self,
            forall|i: int|
                0 <= i < old(bytes)@.len() && !(offset <= i < offset + 6) ==> final(bytes)@[i]
                    == old(bytes)@[i],
    {
        let enc = self.encode();
        copy_into(bytes, offset, enc.as_slice());
        proof {
            assert(bytes@.subrange(offset as int, offset + 6) =~= enc@);
        }
    }
}

impl Default for LbAddr {
    fn default() -> (r: LbAddr)
        ensures
            r == (LbAddr { logical_block_number: 0u32, partition_reference_number: 0u16 }),
    {
        LbAddr { logical_block_number: 0, partition_reference_number: 0 }
    }
}

/// The meaning of the top two bits of an allocation descriptor's
/// extent_length_and_type field.
#[derive(Debug, Clone, Copy, PartialEq, Eq, Structural)]
pub enum ExtentType {
    /// Extent recorded and allocated.
    RecordedAllocated,
    /// Extent not recorded but allocated.
    NotRecordedAllocated,
    /// Extent not recorded and not allocated.
    NotRecordedNotAllocated,
    /// The extent is the next extent of allocation descriptors.
    NextExtent,
}

/// The extent type encoded by a two-bit value.
pub open spec fn spec_extent_type(v: u8) -> ExtentType {
    if v == 0 {
        ExtentType::RecordedAllocated
    } else if v == 1 {
        ExtentType::NotRecordedAllocated
    } else if v == 2 {
        ExtentType::NotRecordedNotAllocated
    } else {
        ExtentType::NextExtent
    }
}

impl ExtentType {
    pub fn from_u8(v: u8) -> (r: ExtentType)
        requires
            v <= 3,
        ensures
            r == spec_extent_type(v),
    {
        if v == 0 {
            ExtentType::RecordedAllocated
        } else if v == 1 {
            ExtentType::NotRecordedAllocated
        } else if v == 2 {
            ExtentType::NotRecordedNotAllocated
        } else {
            ExtentType::NextExtent
        }
    }
}

/// ECMA-167 short allocation descriptor: an extent within the
/// containing partition.
#[derive(Debug, Clone, Copy)]
pub struct ShortAllocationDescriptor {
    /// Low 30 bits: length in bytes; high 2 bits: extent type.
    pub extent_length_and_type: u32,
    /// Logical block number within the partition.
    pub extent_location: u32,
}

impl ShortAllocationDescriptor {
    pub open spec fn spec_decode(b: Seq<u8>) -> ShortAllocationDescriptor {
        ShortAllocationDescriptor {
            extent_length_and_type: le32_at(b, 0),
            extent_location: le32_at(b, 4),
        }
    }

    pub fn size() -> (r: usize)
        ensures
            r == 8,
    {
        8
    }

    pub fn read(bytes: &[u8]) -> (r: ShortAllocationDescriptor)
        requires
            bytes@.len() >= 8,
        ensures
            r == ShortAllocationDescriptor::spec_decode(bytes@),
    {
        ShortAllocationDescriptor {
            extent_length_and_type: read_le32(bytes, 0),
            extent_location: read_le32(bytes, 4),
        }
    }

    pub fn encode(&self) -> (r: Vec<u8>)
        ensures
            r@.len() == 8,
            ShortAllocationDescriptor::spec_decode(r@) == *self,
    {
        let mut v: Vec<u8> = Vec::new();
        push_le32(&mut v, self.extent_length_and_type);
        push_le32(&mut v, self.extent_location);
        v
    }

    pub fn write(&self, bytes: &mut Vec<u8>, offset: usize)
        requires
            offset + 8 <= old(bytes)@.len(),
        ensures
            final(bytes)@.len() == old(bytes)@.len(),
            ShortAllocationDescriptor::spec_decode(
                final(bytes)@.subrange(offset as int, offset + 8),
            ) == *self,
            forall|i: int|
                0 <= i < old(bytes)@.len() && !(offset <= i < offset + 8) ==> final(bytes)@[i]
                    == old(bytes)@[i],
    {
        let enc = self.encode();
        copy_into(bytes, offset, enc.as_slice());
        proof {
            assert(bytes@.subrange(offset as int, offset + 8) =~= enc@);
        }
    }

    /// The extent length in bytes: the low 30 bits.
    pub fn extent_length_bytes(&self) -> (r: u32)
        ensures
            r == self.extent_length_and_type & 0x3FFFFFFF,
    {
        self.extent_length_and_type & 0x3FFFFFFF
    }

    /// The extent type: the high 2 bits.
    pub fn extent_type(&self) -> (r: ExtentType)
        ensures
            r == spec_extent_type((self.extent_length_and_type >> 30) as u8),
    {
        let x = self.extent_length_and_type;
        let v = (x >> 30) as u8;
        assert((x >> 30) as u8 <= 3) by (bit_vector);
        ExtentType::from_u8(v)
    }
}

/// UDF long allocation descriptor: an extent with a cross-partition
/// address.
#[derive(Debug, Clone)]
pub struct LongAd {
    /// Low 30 bits: length in bytes; high 2 bits: extent type.
    pub extent_length_and_type: u32,
    pub extent_location: LbAddr,
    pub implementation_use: Vec<u8>,
}

impl LongAd {
    pub open spec fn wf(self) -> bool {
        self.implementation_use@.len() == 6
    }

    /// `r` is the record stored in the first 16 bytes of `b`.
    pub open spec fn spec_decodes(b: Seq<u8>, r: LongAd) -> bool {
        &&& r.extent_length_and_type == le32_at(b, 0)
        &&& r.extent_location == LbAddr::spec_decode(b.subrange(4, 10))
        &&& r.implementation_use@ == b.subrange(10, 16)
    }

    pub fn size() -> (r: usize)
        ensures
            r == 16,
    {
        16
    }

    pub fn read(bytes: &[u8]) -> (r: LongAd)
        requires
            bytes@.len() >= 16,
        ensures
            LongAd::spec_decodes(bytes@, r),
            r.wf(),
    {
        LongAd {
            extent_length_and_type: read_le32(bytes, 0),
            extent_location: LbAddr::read(&bytes[4..10]),
            implementation_use: read_bytes(bytes, 10, 6),
        }
    }

    pub fn encode(&self) -> (r: Vec<u8>)
        requires
            self.wf(),
        ensures
            r@.len() == 16,
            LongAd::spec_decodes(r@, *self),
    {
        let mut v: Vec<u8> = Vec::new();
        push_le32(&mut v, self.extent_length_and_type);
        let lb = self.extent_location.encode();
        push_bytes(&mut v, lb.as_slice());
        push_bytes(&mut v, self.implementation_use.as_slice());
        proof {
            assert(v@.subrange(4, 10) =~= lb@);
            assert(v@.subrange(10, 16) =~= self.implementation_use@);
        }
        v
    }

    pub fn write(&self, bytes: &mut Vec<u8>, offset: usize)
        requires
            self.wf(),
            offset + 16 <= old(bytes)@.len(),
        ensures
            final(bytes)@.len() == old(bytes)@.len(),
            LongAd::spec_decodes(final(bytes)@.subrange(offset as int, offset + 16), *self),
            forall|i: int|
                0 <= i < old(bytes)@.len() && !(offset <= i < offset + 16) ==> final(bytes)@[i]
                    == old(bytes)@[i],
    {
        let enc = self.encode();
        copy_into(bytes, offset, enc.as_slice());
        proof {
            assert(bytes@.subrange(offset as int, offset + 16) =~= enc@);
        }
    }

    /// The extent length in bytes: the low 30 bits.
    pub fn extent_length_bytes(&self) -> (r: u32)
        ensures
            r == self.extent_length_and_type & 0x3FFFFFFF,
    {
        self.extent_length_and_type & 0x3FFFFFFF
    }

    /// The extent type: the high 2 bits.
    pub fn extent_type(&self) -> (r: ExtentType)
        ensures
            r == spec_extent_type((self.extent_length_and_type >> 30) as u8),
    {
        let x = self.extent_length_and_type;
        let v = (x >> 30) as u8;
        assert((x >> 30) as u8 <= 3) by (bit_vector);
        ExtentType::from_u8(v)
    }
}

impl Default for LongAd {
    fn default() -> (r: LongAd)
        ensures
            r.wf(),
            r.extent_length_and_type == 0,
            r.extent_location == (LbAddr {
                logical_block_number: 0u32,
                partition_reference_number: 0u16,
            }),
            r.implementation_use@ == Seq::new(6, |i: int| 0u8),
    {
        let z: Vec<u8> = vec![0u8, 0u8, 0u8, 0u8, 0u8, 0u8];
        proof {
            assert(z@ =~= Seq::new(6, |i: int| 0u8));
        }
        LongAd {
            extent_length_and_type: 0,
            extent_location: LbAddr { logical_block_number: 0, partition_reference_number: 0 },
            implementation_use: z,
        }
    }
}

/// UDF timestamp, 12 bytes.
#[derive(Debug, Clone, Copy)]
pub struct Timestamp {
    pub type_and_timezone: u16,
    pub year: u16,
    pub month: u8,
    pub day: u8,
    pub hour: u8,
    pub minute: u8,
    pub second: u8,
    pub centiseconds: u8,
    pub hundreds_of_microseconds: u8,
    pub microseconds: u8,
}

impl Timestamp {
    pub open spec fn spec_decode(b: Seq<u8>) -> Timestamp {
        Timestamp {
            type_and_timezone: le16_at(b, 0),
            year: le16_at(b, 2),
            month: b[4],
            day: b[5],
            hour: b[6],
            minute: b[7],
            second: b[8],
            centiseconds: b[9],
            hundreds_of_microseconds: b[10],
            microseconds: b[11],
        }
    }

    pub fn size() -> (r: usize)
        ensures
            r == 12,
    {
        12
    }

    pub fn read(bytes: &[u8]) -> (r: Timestamp)
        requires
            bytes@.len() >= 12,
        ensures
            r == Timestamp::spec_decode(bytes@),
    {
        Timestamp {
            type_and_timezone: read_le16(bytes, 0),
            year: read_le16(bytes, 2),
            month: bytes[4],
            day: bytes[5],
            hour: bytes[6],
            minute: bytes[7],
            second: bytes[8],
            centiseconds: bytes[9],
            hundreds_of_microseconds: bytes[10],
            microseconds: bytes[11],
        }
    }

    pub fn encode(&self) -> (r: Vec<u8>)
        ensures
            r@.len() == 12,
            Timestamp::spec_decode(r@) == *self,
    {
        let mut v: Vec<u8> = Vec::new();
        push_le16(&mut v, self.type_and_timezone);
        push_le16(&mut v, self.year);
        push_u8(&mut v, self.month);
        push_u8(&mut v, self.day);
        push_u8(&mut v, self.hour);
        push_u8(&mut v, self.minute);
        push_u8(&mut v, self.second);
        push_u8(&mut v, self.centiseconds);
        push_u8(&mut v, self.hundreds_of_microseconds);
        push_u8(&mut v, self.microseconds);
        v
    }

    pub fn write(&self, bytes: &mut Vec<u8>, offset: usize)
        requires
            offset + 12 <= old(bytes)@.len(),
        ensures
            final(bytes)@.len() == old(bytes)@.len(),
            Timestamp::spec_decode(final(bytes)@.subrange(offset as int, offset + 12)) == *self,
            forall|i: int|
                0 <= i < old(bytes)@.len() && !(offset <= i < offset + 12) ==> final(bytes)@[i]
                    == old(bytes)@[i],
    {
        let enc = self.encode();
        copy_into(bytes, offset, enc.as_slice());
        proof {
            assert(bytes@.subrange(offset as int, offset + 12) =~= enc@);
        }
    }
}

impl Default for Timestamp {
    fn default() -> (r: Timestamp)
        ensures
            r == (Timestamp {
                type_and_timezone: 0u16,
                year: 0u16,
                month: 0u8,
                day: 0u8,
                hour: 0u8,
                minute: 0u8,
                second: 0u8,
                centiseconds: 0u8,
                hundreds_of_microseconds: 0u8,
                microseconds: 0u8,
            }),
    {
        Timestamp {
            type_and_timezone: 0,
            year: 0,
            month: 0,
            day: 0,
            hour: 0,
            minute: 0,
            second: 0,
            centiseconds: 0,
            hundreds_of_microseconds: 0,
            microseconds: 0,
        }
    }
}

/// ECMA-167 entity identifier (regid), 32 bytes.
#[derive(Debug, Clone)]
pub struct EntityID {
    pub flags: u8,
    pub identifier: Vec<u8>,
    pub identifier_suffix: Vec<u8>,
}

impl EntityID {
    pub open spec fn wf(self) -> bool {
        &&& self.identifier@.len() == 23
        &&& self.identifier_suffix@.len() == 8
    }

    pub open spec fn spec_decodes(b: Seq<u8>, r: EntityID) -> bool {
        &&& r.flags == b[0]
        &&& r.identifier@ == b.subrange(1, 24)
        &&& r.identifier_suffix@ == b.subrange(24, 32)
    }

    pub fn size() -> (r: usize)
        ensures
            r == 32,
    {
        32
    }

    pub fn read(bytes: &[u8]) -> (r: EntityID)
        requires
            bytes@.len() >= 32,
        ensures
            EntityID::spec_decodes(bytes@, r),
            r.wf(),
    {
        EntityID {
            flags: bytes[0],
            identifier: read_bytes(bytes, 1, 23),
            identifier_suffix: read_bytes(bytes, 24, 8),
        }
    }

    pub fn encode(&self) -> (r: Vec<u8>)
        requires
            self.wf(),
        ensures
            r@.len() == 32,
            EntityID::spec_decodes(r@, *self),
    {
        let mut v: Vec<u8> = Vec::new();
        push_u8(&mut v, self.flags);
        push_bytes(&mut v, self.identifier.as_slice());
        push_bytes(&mut v, self.identifier_suffix.as_slice());
        proof {
            assert(v@.subrange(1, 24) =~= self.identifier@);
            assert(v@.subrange(24, 32) =~= self.identifier_suffix@);
        }
        v
    }

    pub fn write(&self, bytes: &mut Vec<u8>, offset: usize)
        requires
            self.wf(),
            offset + 32 <= old(bytes)@.len(),
        ensures
            final(bytes)@.len() == old(bytes)@.len(),
            EntityID::spec_decodes(final(bytes)@.subrange(offset as int, offset + 32), *self),
            forall|i: int|
                0 <= i < old(bytes)@.len() && !(offset <= i < offset + 32) ==> final(bytes)@[i]
                    == old(bytes)@[i],
    {
        let enc = self.encode();
        copy_into(bytes, offset, enc.as_slice());
        proof {
            assert(bytes@.subrange(offset as int, offset + 32) =~= enc@);
        }
    }
}

impl Default for EntityID {
    fn default() -> (r: EntityID)
        ensures
            r.wf(),
            r.flags == 0,
            r.identifier@ == Seq::new(23, |i: int| 0u8),
            r.identifier_suffix@ == Seq::new(8, |i: int| 0u8),
    {
        let mut ident: Vec<u8> = Vec::new();
        let mut i: usize = 0;
        while i < 23
            invariant
                i <= 23,
                ident@ == Seq::new(i as nat, |k: int| 0u8),
            decreases 23 - i,
        {
            ident.push(0u8);
            proof {
                assert(ident@ =~= Seq::new((i + 1) as nat, |k: int| 0u8));
            }
            i = i + 1;
        }
        let suffix: Vec<u8> = vec![0u8, 0u8, 0u8, 0u8, 0u8, 0u8, 0u8, 0u8];
        proof {
            assert(ident@ =~= Seq::new(23, |i: int| 0u8));
            assert(suffix@ =~= Seq::new(8, |i: int| 0u8));
        }
        EntityID { flags: 0, identifier: ident, identifier_suffix: suffix }
    }
}

/// The 23 identifier bytes "OSTA Compressed Unicode".
pub open spec fn spec_osta_charset_name() -> Seq<u8> {
    seq![
        0x4Fu8, 0x53u8, 0x54u8, 0x41u8, 0x20u8, 0x43u8, 0x6Fu8, 0x6Du8, 0x70u8, 0x72u8, 0x65u8,
        0x73u8, 0x73u8, 0x65u8, 0x64u8, 0x20u8, 0x55u8, 0x6Eu8, 0x69u8, 0x63u8, 0x6Fu8, 0x64u8,
        0x65u8,
    ]
}

/// OSTA CS0 character set specification, 64 bytes.
#[derive(Debug, Clone)]
pub struct CharSpec {
    /// Always 0 in UDF.
    pub character_set_type: u8,
    /// "OSTA Compressed Unicode" padded with zeros in UDF.
    pub character_set_info: Vec<u8>,
}

impl CharSpec {
    pub open spec fn wf(self) -> bool {
        self.character_set_info@.len() == 63
    }

    pub open spec fn spec_decodes(b: Seq<u8>, r: CharSpec) -> bool {
        &&& r.character_set_type == b[0]
        &&& r.character_set_info@ == b.subrange(1, 64)
    }

    /// The CharSpec UDF requires: type 0 and the OSTA name, zero padded.
    pub fn new() -> (r: CharSpec)
        ensures
            r.wf(),
            r.character_set_type == 0,
            r.character_set_info@.subrange(0, 23) == spec_osta_charset_name(),
            forall|i: int| 23 <= i < 63 ==> r.character_set_info@[i] == 0u8,
    {
        let mut info: Vec<u8> = Vec::new();
        push_bytes(&mut info, osta_charset_name().as_slice());
        let mut i: usize = 23;
        while i < 63
            invariant
                23 <= i <= 63,
                info@.len() == i,
                info@.subrange(0, 23) == spec_osta_charset_name(),
                forall|k: int| 23 <= k < i ==> info@[k] == 0u8,
            decreases 63 - i,
    {
            let ghost pre = info@;
            info.push(0u8);
            proof {
                assert(info@.subrange(0, 23) =~= pre.subrange(0, 23));
            }
            i = i + 1;
        }
        CharSpec { character_set_type: 0, character_set_info: info }
    }

    pub fn size() -> (r: usize)
        ensures
            r == 64,
    {
        64
    }

    pub fn read(bytes: &[u8]) -> (r: CharSpec)
        requires
            bytes@.len() >= 64,
        ensures
            CharSpec::spec_decodes(bytes@, r),
            r.wf(),
    {
        CharSpec { character_set_type: bytes[0], character_set_info: read_bytes(bytes, 1, 63) }
    }

    pub fn encode(&self) -> (r: Vec<u8>)
        requires
            self.wf(),
        ensures
            r@.len() == 64,
            CharSpec::spec_decodes(r@, *self),
    {
        let mut v: Vec<u8> = Vec::new();
        push_u8(&mut v, self.character_set_type);
        push_bytes(&mut v, self.character_set_info.as_slice());
        proof {
            assert(v@.subrange(1, 64) =~= self.character_set_info@);
        }
        v
    }

    pub fn write(&self, bytes: &mut Vec<u8>, offset: usize)
        requires
            self.wf(),
            offset + 64 <= old(bytes)@.len(),
        ensures
            final(bytes)@.len() == old(bytes)@.len(),
            CharSpec::spec_decodes(final(bytes)@.subrange(offset as int, offset + 64), *self),
            forall|i: int|
                0 <= i < old(bytes)@.len() && !(offset <= i < offset + 64) ==> final(bytes)@[i]
                    == old(bytes)@[i],
    {
        let enc = self.encode();
        copy_into(bytes, offset, enc.as_slice());
        proof {
            assert(bytes@.subrange(offset as int, offset + 64) =~= enc@);
        }
    }

    /// Whether this names the OSTA Compressed Unicode character set.
    pub fn is_osta_compressed_unicode(&self) -> (r: bool)
        requires
            self.wf(),
        ensures
            r == (self.character_set_type == 0 && self.character_set_info@.subrange(0, 23)
                == spec_osta_charset_name()),
    {
        if self.character_set_type != 0 {
            proof {
                assert(!(self.character_set_type == 0 && self.character_set_info@.subrange(0, 23)
                    == spec_osta_charset_name()));
            }
            return false;
        }
        let name = osta_charset_name();
        let mut i: usize = 0;
        let mut ok = true;
        while i < 23
            invariant
                i <= 23,
                self.wf(),
                name@ == spec_osta_charset_name(),
                ok == (forall|k: int|
                    0 <= k < i ==> self.character_set_info@[k] == spec_osta_charset_name()[k]),
            decreases 23 - i,
        {
            if self.character_set_info[i] != name[i] {
                ok = false;
            }
            i = i + 1;
        }
        proof {
            if ok {
                assert(self.character_set_info@.subrange(0, 23) =~= spec_osta_charset_name());
            } else {
                assert(self.character_set_info@.subrange(0, 23) != spec_osta_charset_name()) by {
                    let k = choose|k: int|
                        !(0 <= k < 23 ==> self.character_set_info@[k]
                            == spec_osta_charset_name()[k]);
                    assert(self.character_set_info@.subrange(0, 23)[k]
                        != spec_osta_charset_name()[k]);
                }
            }
        }
        ok
    }
}

/// The OSTA charset name as an owned byte vector.
fn osta_charset_name() -> (r: Vec<u8>)
    ensures
        r@ == spec_osta_charset_name(),
{
    let v: Vec<u8> = vec![
        0x4Fu8, 0x53u8, 0x54u8, 0x41u8, 0x20u8, 0x43u8, 0x6Fu8, 0x6Du8, 0x70u8, 0x72u8, 0x65u8,
        0x73u8, 0x73u8, 0x65u8, 0x64u8, 0x20u8, 0x55u8, 0x6Eu8, 0x69u8, 0x63u8, 0x6Fu8, 0x64u8,
        0x65u8,
    ];
    proof {
        assert(v@ =~= spec_osta_charset_name());
    }
    v
}

impl Default for CharSpec {
    fn default() -> (r: CharSpec)
        ensures
            r.wf(),
            r.character_set_type == 0,
            r.character_set_info@ == Seq::new(63, |i: int| 0u8),
    {
        let mut info: Vec<u8> = Vec::new();
        let mut i: usize = 0;
        while i < 63
            invariant
                i <= 63,
                info@ == Seq::new(i as nat, |k: int| 0u8),
            decreases 63 - i,
        {
            info.push(0u8);
            proof {
                assert(info@ =~= Seq::new((i + 1) as nat, |k: int| 0u8));
            }
            i = i + 1;
        }
        CharSpec { character_set_type: 0, character_set_info: info }
    }
}

/// The file type recorded in an ICB tag.
#[derive(Debug, Clone, Copy, PartialEq, Eq, Structural)]
pub enum FileType {
    /// 0: interpretation not specified by this field.
    Unspecified,
    /// 1: an Unallocated Space Entry.
    Unallocated,
    /// 2: a Partition Integrity Entry.
    PartitionIntegrity,
    /// 3: an Indirect Entry.
    Indirect,
    /// 4: a directory.
    Directory,
    /// 5: a randomly accessible sequence of bytes.
    SequenceOfBytes,
    /// 6: a block special device file.
    BlockSpecialDevice,
    /// 7: a character special device file.
    CharacterSpecialDevice,
    /// 8: a file recording extended attributes.
    ExtendedAttributes,
    /// 9: a FIFO file.
    Fifo,
    /// 10: a socket.
    Socket,
    /// 11: a Terminal Entry.
    TerminalEntry,
    /// 12: a symbolic link.
    SymbolicLink,
    /// 13: a Stream Directory.
    StreamDirectory,
    /// 14-247: reserved for future standardisation.
    Reserved,
    /// 248-255: subject to agreement between originator and recipient.
    Agreement,
}

/// The file type encoded by a byte.
pub open spec fn spec_file_type(v: u8) -> FileType {
    if v == 0 {
        FileType::Unspecified
    } else if v == 1 {
        FileType::Unallocated
    } else if v == 2 {
        FileType::PartitionIntegrity
    } else if v == 3 {
        FileType::Indirect
    } else if v == 4 {
        FileType::Directory
    } else if v == 5 {
        FileType::SequenceOfBytes
    } else if v == 6 {
        FileType::BlockSpecialDevice
    } else if v == 7 {
        FileType::CharacterSpecialDevice
    } else if v == 8 {
        FileType::ExtendedAttributes
    } else if v == 9 {
        FileType::Fifo
    } else if v == 10 {
        FileType::Socket
    } else if v == 11 {
        FileType::TerminalEntry
    } else if v == 12 {
        FileType::SymbolicLink
    } else if v == 13 {
        FileType::StreamDirectory
    } else if v <= 247 {
        FileType::Reserved
    } else {
        FileType::Agreement
    }
}

impl FileType {
    pub fn from_u8(v: u8) -> (r: FileType)
        ensures
            r == spec_file_type(v),
    {
        if v == 0 {
            FileType::Unspecified
        } else if v == 1 {
            FileType::Unallocated
        } else if v == 2 {
            FileType::PartitionIntegrity
        } else if v == 3 {
            FileType::Indirect
        } else if v == 4 {
            FileType::Directory
        } else if v == 5 {
            FileType::SequenceOfBytes
        } else if v == 6 {
            FileType::BlockSpecialDevice
        } else if v == 7 {
            FileType::CharacterSpecialDevice
        } else if v == 8 {
            FileType::ExtendedAttributes
        } else if v == 9 {
            FileType::Fifo
        } else if v == 10 {
            FileType::Socket
        } else if v == 11 {
            FileType::TerminalEntry
        } else if v == 12 {
            FileType::SymbolicLink
        } else if v == 13 {
            FileType::StreamDirectory
        } else if v <= 247 {
            FileType::Reserved
        } else {
            FileType::Agreement
        }
    }
}

/// The allocation-descriptor form selected by the low two bits of an
/// ICB tag's flags.
#[derive(Debug, Clone, Copy, PartialEq, Eq, Structural)]
pub enum AllocationDescriptorType {
    /// 0: short allocation descriptors.
    Short,
    /// 1: long allocation descriptors.
    Long,
    /// 2: extended allocation descriptors.
    Extended,
    /// 3: the entry's data is embedded in the allocation descriptor field.
    Embedded,
}

/// The allocation-descriptor form encoded by a two-bit value.
pub open spec fn spec_allocation_descriptor_type(v: u8) -> AllocationDescriptorType {
    if v == 0 {
        AllocationDescriptorType::Short
    } else if v == 1 {
        AllocationDescriptorType::Long
    } else if v == 2 {
        AllocationDescriptorType::Extended
    } else {
        AllocationDescriptorType::Embedded
    }
}

impl AllocationDescriptorType {
    pub fn from_u8(v: u8) -> (r: AllocationDescriptorType)
        requires
            v <= 3,
        ensures
            r == spec_allocation_descriptor_type(v),
    {
        if v == 0 {
            AllocationDescriptorType::Short
        } else if v == 1 {
            AllocationDescriptorType::Long
        } else if v == 2 {
            AllocationDescriptorType::Extended
        } else {
            AllocationDescriptorType::Embedded
        }
    }
}

/// ECMA-167 ICB tag, the 20-byte header inside every file entry,
/// terminal entry and indirect entry.
#[derive(Debug, Clone)]
pub struct ICBTag {
    pub prior_recorded_number_of_direct_entries: u32,
    pub strategy_type: u16,
    pub strategy_parameter: Vec<u8>,
    pub maximum_number_of_entries: u16,
    pub reserved: u8,
    pub file_type: u8,
    pub parent_icb_location: LbAddr,
    pub flags: u16,
}

impl ICBTag {
    pub open spec fn wf(self) -> bool {
        self.strategy_parameter@.len() == 2
    }

    pub open spec fn spec_decodes(b: Seq<u8>, r: ICBTag) -> bool {
        &&& r.prior_recorded_number_of_direct_entries == le32_at(b, 0)
        &&& r.strategy_type == le16_at(b, 4)
        &&& r.strategy_parameter@ == b.subrange(6, 8)
        &&& r.maximum_number_of_entries == le16_at(b, 8)
        &&& r.reserved == b[10]
        &&& r.file_type == b[11]
        &&& r.parent_icb_location == LbAddr::spec_decode(b.subrange(12, 18))
        &&& r.flags == le16_at(b, 18)
    }

    pub fn size() -> (r: usize)
        ensures
            r == 20,
    {
        20
    }

    pub fn read(bytes: &[u8]) -> (r: ICBTag)
        requires
            bytes@.len() >= 20,
        ensures
            ICBTag::spec_decodes(bytes@, r),
            r.wf(),
    {
        ICBTag {
            prior_recorded_number_of_direct_entries: read_le32(bytes, 0),
            strategy_type: read_le16(bytes, 4),
            strategy_parameter: read_bytes(bytes, 6, 2),
            maximum_number_of_entries: read_le16(bytes, 8),
            reserved: bytes[10],
            file_type: bytes[11],
            parent_icb_location: LbAddr::read(&bytes[12..18]),
            flags: read_le16(bytes, 18),
        }
    }

    pub fn encode(&self) -> (r: Vec<u8>)
        requires
            self.wf(),
        ensures
            r@.len() == 20,
            ICBTag::spec_decodes(r@, *self),
    {
        let mut v: Vec<u8> = Vec::new();
        push_le32(&mut v, self.prior_recorded_number_of_direct_entries);
        push_le16(&mut v, self.strategy_type);
        push_bytes(&mut v, self.strategy_parameter.as_slice());
        push_le16(&mut v, self.maximum_number_of_entries);
        push_u8(&mut v, self.reserved);
        push_u8(&mut v, self.file_type);
        let lb = self.parent_icb_location.encode();
        push_bytes(&mut v, lb.as_slice());
        push_le16(&mut v, self.flags);
        proof {
            assert(v@.subrange(6, 8) =~= self.strategy_parameter@);
            assert(v@.subrange(12, 18) =~= lb@);
        }
        v
    }

    pub fn write(&self, bytes: &mut Vec<u8>, offset: usize)
        requires
            self.wf(),
            offset + 20 <= old(bytes)@.len(),
        ensures
            final(bytes)@.len() == old(bytes)@.len(),
            ICBTag::spec_decodes(final(bytes)@.subrange(offset as int, offset + 20), *self),
            forall|i: int|
                0 <= i < old(bytes)@.len() && !(offset <= i < offset + 20) ==> final(bytes)@[i]
                    == old(bytes)@[i],
    {
        let enc = self.encode();
        copy_into(bytes, offset, enc.as_slice());
        proof {
            assert(bytes@.subrange(offset as int, offset + 20) =~= enc@);
        }
    }

    /// The allocation-descriptor form selected by the low two bits of
    /// the flags.
    pub fn allocation_descriptor_type(&self) -> (r: AllocationDescriptorType)
        ensures
            r == spec_allocation_descriptor_type((self.flags & 3) as u8),
    {
        let f = self.flags;
        let v = (f & 3) as u8;
        assert((f & 3) as u8 <= 3) by (bit_vector);
        AllocationDescriptorType::from_u8(v)
    }

    /// The file type of the entry this tag heads.
    pub fn file_type(&self) -> (r: FileType)
        ensures
            r == spec_file_type(self.file_type),
    {
        FileType::from_u8(self.file_type)
    }
}

impl Default for ICBTag {
    fn default() -> (r: ICBTag)
        ensures
            r.wf(),
            r.prior_recorded_number_of_direct_entries == 0,
            r.strategy_type == 0,
            r.strategy_parameter@ == Seq::new(2, |i: int| 0u8),
            r.maximum_number_of_entries == 0,
            r.reserved == 0,
            r.file_type == 0,
            r.parent_icb_location == (LbAddr {
                logical_block_number: 0u32,
                partition_reference_number: 0u16,
            }),
            r.flags == 0,
    {
        let sp: Vec<u8> = vec![0u8, 0u8];
        proof {
            assert(sp@ =~= Seq::new(2, |i: int| 0u8));
        }
        ICBTag {
            prior_recorded_number_of_direct_entries: 0,
            strategy_type: 0,
            strategy_parameter: sp,
            maximum_number_of_entries: 0,
            reserved: 0,
            file_type: 0,
            parent_icb_location: LbAddr { logical_block_number: 0, partition_reference_number: 0 },
            flags: 0,
        }
    }
}

/// A fixed-capacity OSTA dstring field of `N` bytes.
#[derive(Debug, Clone)]
pub struct Dstring<const N: usize>(pub Vec<u8>);

impl<const N: usize> Dstring<N> {
    pub open spec fn wf(self) -> bool {
        self.0@.len() == N
    }

    /// Encodes `s` and stores it in the field, truncated or zero padded
    /// to the field width.
    pub fn from_str(s: &str) -> (r: Dstring<N>)
        ensures
            r.wf(),
            ({
                let e = osta::spec_osta_encode(s@);
                forall|i: int|
                    0 <= i < N ==> r.0@[i] == (if i < e.len() {
                        e[i]
                    } else {
                        0u8
                    })
            }),
    {
        let e = osta::encode(s);
        let mut buf: Vec<u8> = Vec::new();
        let mut i: usize = 0;
        while i < N
            invariant
                i <= N,
                buf@.len() == i,
                forall|k: int|
                    0 <= k < i ==> buf@[k] == (if k < e@.len() {
                        e@[k]
                    } else {
                        0u8
                    }),
        decreases N - i,
        {
            if i < e.len() {
                buf.push(e[i]);
            } else {
                buf.push(0u8);
            }
            i = i + 1;
        }
        Dstring(buf)
    }

    /// Decodes the field's dstring bytes.
    pub fn to_string(&self) -> (r: String)
        ensures
            r@ == osta::spec_osta_decode(self.0@),
    {
        osta::decode(self.0.as_slice())
    }
}

impl<const N: usize> Default for Dstring<N> {
    fn default() -> (r: Dstring<N>)
        ensures
            r.wf(),
            r.0@ == Seq::new(N as nat, |i: int| 0u8),
    {
        let mut buf: Vec<u8> = Vec::new();
        let mut i: usize = 0;
        while i < N
            invariant
                i <= N,
                buf@ == Seq::new(i as nat, |k: int| 0u8),
            decreases N - i,
        {
            buf.push(0u8);
            proof {
                assert(buf@ =~= Seq::new((i + 1) as nat, |k: int| 0u8));
            }
            i = i + 1;
        }
        Dstring(buf)
    }
}

/// A dstring whose length is set by the record that carries it.
#[derive(Debug, Clone)]
pub struct DynamicDstring(pub Vec<u8>);

impl DynamicDstring {
    /// Encodes `s` as the field's bytes.
    pub fn from_str(s: &str) -> (r: DynamicDstring)
        ensures
            r.0@ == osta::spec_osta_encode(s@),
    {
        DynamicDstring(osta::encode(s))
    }

    /// Decodes the field's dstring bytes.
    pub fn to_string(&self) -> (r: String)
        ensures
            r@ == osta::spec_osta_decode(self.0@),
    {
        osta::decode(self.0.as_slice())
    }
}

impl Default for DynamicDstring {
    fn default() -> (r: DynamicDstring)
        ensures
            r.0@ == Seq::<u8>::empty(),
    {
        let v: Vec<u8> = Vec::new();
        DynamicDstring(v)
    }
}

/// A vector of `n` zero bytes.
fn zero_vec(n: usize) -> (r: Vec<u8>)
    ensures
        r@ == Seq::new(n as nat, |i: int| 0u8),
{
    let mut buf: Vec<u8> = Vec::new();
    let mut i: usize = 0;
    while i < n
        invariant
            i <= n,
            buf@ == Seq::new(i as nat, |k: int| 0u8),
        decreases n - i,
    {
        buf.push(0u8);
        proof {
            assert(buf@ =~= Seq::new((i + 1) as nat, |k: int| 0u8));
        }
        i = i + 1;
    }
    buf
}

/// Anchor volume descriptor pointer: the bootstrap record found at a
/// fixed sector, naming the main and reserve descriptor sequences.
#[derive(Debug, Clone)]
pub struct AnchorVolumeDescriptorPointer {
    pub tag: DescriptorTag,
    /// Location of the main volume descriptor sequence.
    pub main_volume_descriptor_sequence_location: ExtentAd,
    /// Location of the reserve volume descriptor sequence.
    pub reserve_volume_descriptor_sequence_location: ExtentAd,
    pub reserved: Vec<u8>,
}

impl AnchorVolumeDescriptorPointer {
    pub const TAG_IDENTIFIER: u16 = 2;

    pub open spec fn wf(self) -> bool {
        self.reserved@.len() == 480
    }

    pub open spec fn spec_decodes(b: Seq<u8>, r: AnchorVolumeDescriptorPointer) -> bool {
        &&& r.tag == DescriptorTag::spec_decode(b.subrange(0, 16))
        &&& r.main_volume_descriptor_sequence_location == ExtentAd::spec_decode(
            b.subrange(16, 24),
        )
        &&& r.reserve_volume_descriptor_sequence_location == ExtentAd::spec_decode(
            b.subrange(24, 32),
        )
        &&& r.reserved@ == b.subrange(32, 512)
    }

    pub fn size() -> (r: usize)
        ensures
            r == 512,
    {
        512
    }

    pub fn read(bytes: &[u8]) -> (r: AnchorVolumeDescriptorPointer)
        requires
            bytes@.len() >= 512,
        ensures
            AnchorVolumeDescriptorPointer::spec_decodes(bytes@, r),
            r.wf(),
    {
        AnchorVolumeDescriptorPointer {
            tag: DescriptorTag::read(&bytes[0..16]),
            main_volume_descriptor_sequence_location: ExtentAd::read(&bytes[16..24]),
            reserve_volume_descriptor_sequence_location: ExtentAd::read(&bytes[24..32]),
            reserved: read_bytes(bytes, 32, 480),
        }
    }

    pub fn encode(&self) -> (r: Vec<u8>)
        requires
            self.wf(),
        ensures
            r@.len() == 512,
            AnchorVolumeDescriptorPointer::spec_decodes(r@, *self),
    {
        let mut v: Vec<u8> = Vec::new();
        let tag = self.tag.encode();
        push_bytes(&mut v, tag.as_slice());
        let main = self.main_volume_descriptor_sequence_location.encode();
        push_bytes(&mut v, main.as_slice());
        let reserve = self.reserve_volume_descriptor_sequence_location.encode();
        push_bytes(&mut v, reserve.as_slice());
        push_bytes(&mut v, self.reserved.as_slice());
        proof {
            assert(v@.subrange(0, 16) =~= tag@);
            assert(v@.subrange(16, 24) =~= main@);
            assert(v@.subrange(24, 32) =~= reserve@);
            assert(v@.subrange(32, 512) =~= self.reserved@);
        }
        v
    }

    pub fn write(&self, bytes: &mut Vec<u8>, offset: usize)
        requires
            self.wf(),
            offset + 512 <= old(bytes)@.len(),
        ensures
            final(bytes)@.len() == old(bytes)@.len(),
            AnchorVolumeDescriptorPointer::spec_decodes(
                final(bytes)@.subrange(offset as int, offset + 512),
                *self,
            ),
            forall|i: int|
                0 <= i < old(bytes)@.len() && !(offset <= i < offset + 512) ==> final(bytes)@[i]
                    == old(bytes)@[i],
    {
        let enc = self.encode();
        copy_into(bytes, offset, enc.as_slice());
        proof {
            assert(bytes@.subrange(offset as int, offset + 512) =~= enc@);
        }
    }
}

impl Default for AnchorVolumeDescriptorPointer {
    fn default() -> (r: AnchorVolumeDescriptorPointer)
        ensures
            r.wf(),
            r.tag == DescriptorTag::spec_decode(Seq::new(16, |i: int| 0u8)),
            r.main_volume_descriptor_sequence_location == (ExtentAd {
                length_bytes: 0u32,
                location_sector: 0u32,
            }),
            r.reserve_volume_descriptor_sequence_location == (ExtentAd {
                length_bytes: 0u32,
                location_sector: 0u32,
            }),
            r.reserved@ == Seq::new(480, |i: int| 0u8),
    {
        let r = AnchorVolumeDescriptorPointer {
            tag: DescriptorTag::default(),
            main_volume_descriptor_sequence_location: ExtentAd::default(),
            reserve_volume_descriptor_sequence_location: ExtentAd::default(),
            reserved: zero_vec(480),
        };
        proof {
            assert(spec_le16(0u8, 0u8) == 0u16) by (bit_vector);
            assert(spec_le32(0u8, 0u8, 0u8, 0u8) == 0u32) by (bit_vector);
        }
        r
    }
}

/// Terminating descriptor: ends a descriptor sequence.
#[derive(Debug, Clone)]
pub struct TerminatingDescriptor {
    /// The tag identifier must be 8.
    pub tag: DescriptorTag,
    pub reserved: Vec<u8>,
}

impl TerminatingDescriptor {
    pub const TAG_IDENTIFIER: u16 = 8;

    pub open spec fn wf(self) -> bool {
        self.reserved@.len() == 496
    }

    pub open spec fn spec_decodes(b: Seq<u8>, r: TerminatingDescriptor) -> bool {
        &&& r.tag == DescriptorTag::spec_decode(b.subrange(0, 16))
        &&& r.reserved@ == b.subrange(16, 512)
    }

    pub fn size() -> (r: usize)
        ensures
            r == 512,
    {
        512
    }

    pub fn read(bytes: &[u8]) -> (r: TerminatingDescriptor)
        requires
            bytes@.len() >= 512,
        ensures
            TerminatingDescriptor::spec_decodes(bytes@, r),
            r.wf(),
    {
        TerminatingDescriptor {
            tag: DescriptorTag::read(&bytes[0..16]),
            reserved: read_bytes(bytes, 16, 496),
        }
    }

    pub fn encode(&self) -> (r: Vec<u8>)
        requires
            self.wf(),
        ensures
            r@.len() == 512,
            TerminatingDescriptor::spec_decodes(r@, *self),
    {
        let mut v: Vec<u8> = Vec::new();
        let tag = self.tag.encode();
        push_bytes(&mut v, tag.as_slice());
        push_bytes(&mut v, self.reserved.as_slice());
        proof {
            assert(v@.subrange(0, 16) =~= tag@);
            assert(v@.subrange(16, 512) =~= self.reserved@);
        }
        v
    }

    pub fn write(&self, bytes: &mut Vec<u8>, offset: usize)
        requires
            self.wf(),
            offset + 512 <= old(bytes)@.len(),
        ensures
            final(bytes)@.len() == old(bytes)@.len(),
            TerminatingDescriptor::spec_decodes(
                final(bytes)@.subrange(offset as int, offset + 512),
                *self,
            ),
            forall|i: int|
                0 <= i < old(bytes)@.len() && !(offset <= i < offset + 512) ==> final(bytes)@[i]
                    == old(bytes)@[i],
    {
        let enc = self.encode();
        copy_into(bytes, offset, enc.as_slice());
        proof {
            assert(bytes@.subrange(offset as int, offset + 512) =~= enc@);
        }
    }
}

impl Default for TerminatingDescriptor {
    fn default() -> (r: TerminatingDescriptor)
        ensures
            r.wf(),
            r.tag == DescriptorTag::spec_decode(Seq::new(16, |i: int| 0u8)),
            r.reserved@ == Seq::new(496, |i: int| 0u8),
    {
        let r = TerminatingDescriptor { tag: DescriptorTag::default(), reserved: zero_vec(496) };
        proof {
            assert(spec_le16(0u8, 0u8) == 0u16) by (bit_vector);
            assert(spec_le32(0u8, 0u8, 0u8, 0u8) == 0u32) by (bit_vector);
        }
        r
    }
}

/// Terminal entry: marks the end of an ICB chain.
#[derive(Debug, Clone)]
pub struct TerminalEntry {
    pub tag: DescriptorTag,
    pub icb_tag: ICBTag,
}

impl TerminalEntry {
    pub const TAG_IDENTIFIER: u16 = 260;

    pub open spec fn wf(self) -> bool {
        self.icb_tag.wf()
    }

    pub open spec fn spec_decodes(b: Seq<u8>, r: TerminalEntry) -> bool {
        &&& r.tag == DescriptorTag::spec_decode(b.subrange(0, 16))
        &&& ICBTag::spec_decodes(b.subrange(16, 36), r.icb_tag)
    }

    pub fn size() -> (r: usize)
        ensures
            r == 36,
    {
        36
    }

    pub fn read(bytes: &[u8]) -> (r: TerminalEntry)
        requires
            bytes@.len() >= 36,
        ensures
            TerminalEntry::spec_decodes(bytes@, r),
            r.wf(),
    {
        TerminalEntry {
            tag: DescriptorTag::read(&bytes[0..16]),
            icb_tag: ICBTag::read(&bytes[16..36]),
        }
    }

    pub fn encode(&self) -> (r: Vec<u8>)
        requires
            self.wf(),
        ensures
            r@.len() == 36,
            TerminalEntry::spec_decodes(r@, *self),
    {
        let mut v: Vec<u8> = Vec::new();
        let tag = self.tag.encode();
        push_bytes(&mut v, tag.as_slice());
        let icb = self.icb_tag.encode();
        push_bytes(&mut v, icb.as_slice());
        proof {
            assert(v@.subrange(0, 16) =~= tag@);
            assert(v@.subrange(16, 36) =~= icb@);
        }
        v
    }

    pub fn write(&self, bytes: &mut Vec<u8>, offset: usize)
        requires
            self.wf(),
            offset + 36 <= old(bytes)@.len(),
        ensures
            final(bytes)@.len() == old(bytes)@.len(),
            TerminalEntry::spec_decodes(final(bytes)@.subrange(offset as int, offset + 36), *self),
            forall|i: int|
                0 <= i < old(bytes)@.len() && !(offset <= i < offset + 36) ==> final(bytes)@[i]
                    == old(bytes)@[i],
    {
        let enc = self.encode();
        copy_into(bytes, offset, enc.as_slice());
        proof {
            assert(bytes@.subrange(offset as int, offset + 36) =~= enc@);
        }
    }
}

impl Default for TerminalEntry {
    fn default() -> (r: TerminalEntry)
        ensures
            r.wf(),
    {
        TerminalEntry { tag: DescriptorTag::default(), icb_tag: ICBTag::default() }
    }
}

/// Indirect entry: a jump to another ICB.  This engine recognises it
/// but does not follow it.
#[derive(Debug, Clone)]
pub struct IndirectEntry {
    pub tag: DescriptorTag,
    pub icb_tag: ICBTag,
    pub indirect_icb: LongAd,
}

impl IndirectEntry {
    pub const TAG_IDENTIFIER: u16 = 259;

    pub open spec fn wf(self) -> bool {
        &&& self.icb_tag.wf()
        &&& self.indirect_icb.wf()
    }

    pub open spec fn spec_decodes(b: Seq<u8>, r: IndirectEntry) -> bool {
        &&& r.tag == DescriptorTag::spec_decode(b.subrange(0, 16))
        &&& ICBTag::spec_decodes(b.subrange(16, 36), r.icb_tag)
        &&& LongAd::spec_decodes(b.subrange(36, 52), r.indirect_icb)
    }

    pub fn size() -> (r: usize)
        ensures
            r == 52,
    {
        52
    }

    pub fn read(bytes: &[u8]) -> (r: IndirectEntry)
        requires
            bytes@.len() >= 52,
        ensures
            IndirectEntry::spec_decodes(bytes@, r),
            r.wf(),
    {
        IndirectEntry {
            tag: DescriptorTag::read(&bytes[0..16]),
            icb_tag: ICBTag::read(&bytes[16..36]),
            indirect_icb: LongAd::read(&bytes[36..52]),
        }
    }

    pub fn encode(&self) -> (r: Vec<u8>)
        requires
            self.wf(),
        ensures
            r@.len() == 52,
            IndirectEntry::spec_decodes(r@, *self),
    {
        let mut v: Vec<u8> = Vec::new();
        let tag = self.tag.encode();
        push_bytes(&mut v, tag.as_slice());
        let icb = self.icb_tag.encode();
        push_bytes(&mut v, icb.as_slice());
        let ind = self.indirect_icb.encode();
        push_bytes(&mut v, ind.as_slice());
        proof {
            assert(v@.subrange(0, 16) =~= tag@);
            assert(v@.subrange(16, 36) =~= icb@);
            assert(v@.subrange(36, 52) =~= ind@);
        }
        v
    }

    pub fn write(&self, bytes: &mut Vec<u8>, offset: usize)
        requires
            self.wf(),
            offset + 52 <= old(bytes)@.len(),
        ensures
            final(bytes)@.len() == old(bytes)@.len(),
            IndirectEntry::spec_decodes(final(bytes)@.subrange(offset as int, offset + 52), *self),
            forall|i: int|
                0 <= i < old(bytes)@.len() && !(offset <= i < offset + 52) ==> final(bytes)@[i]
                    == old(bytes)@[i],
    {
        let enc = self.encode();
        copy_into(bytes, offset, enc.as_slice());
        proof {
            assert(bytes@.subrange(offset as int, offset + 52) =~= enc@);
        }
    }
}

impl Default for IndirectEntry {
    fn default() -> (r: IndirectEntry)
        ensures
            r.wf(),
    {
        IndirectEntry {
            tag: DescriptorTag::default(),
            icb_tag: ICBTag::default(),
            indirect_icb: LongAd::default(),
        }
    }
}

/// Primary volume descriptor: names the volume and the volume set.
#[derive(Debug, Clone)]
pub struct PrimaryVolumeDescriptor {
    pub tag: DescriptorTag,
    pub volume_descriptor_sequence_number: u32,
    pub primary_volume_descriptor_number: u32,
    pub volume_identifier: Dstring<32>,
    pub volume_sequence_number: u16,
    pub maximum_volume_sequence_number: u16,
    pub interchange_level: u16,
    pub maximum_interchange_level: u16,
    pub character_set_list: u32,
    pub maximum_character_set_list: u32,
    pub volume_set_identifier: Dstring<128>,
    pub descriptor_character_set: CharSpec,
    pub explanatory_character_set: CharSpec,
    pub volume_abstract: ExtentAd,
    pub volume_copyright_notice: ExtentAd,
    pub application_identifier: EntityID,
    pub recording_date_and_time: Timestamp,
    pub implementation_identifier: EntityID,
    pub implementation_use: Vec<u8>,
    pub predecessor_volume_descriptor_sequence_location: u32,
    pub flags: u16,
    pub reserved: Vec<u8>,
}

impl PrimaryVolumeDescriptor {
    pub const TAG_IDENTIFIER: u16 = 1;

    pub open spec fn wf(self) -> bool {
        &&& self.volume_identifier.wf()
        &&& self.volume_set_identifier.wf()
        &&& self.descriptor_character_set.wf()
        &&& self.explanatory_character_set.wf()
        &&& self.application_identifier.wf()
        &&& self.implementation_identifier.wf()
        &&& self.implementation_use@.len() == 64
        &&& self.reserved@.len() == 22
    }

    pub open spec fn spec_decodes(b: Seq<u8>, r: PrimaryVolumeDescriptor) -> bool {
        &&& r.tag == DescriptorTag::spec_decode(b.subrange(0, 16))
        &&& r.volume_descriptor_sequence_number == le32_at(b, 16)
        &&& r.primary_volume_descriptor_number == le32_at(b, 20)
        &&& r.volume_identifier.0@ == b.subrange(24, 56)
        &&& r.volume_sequence_number == le16_at(b, 56)
        &&& r.maximum_volume_sequence_number == le16_at(b, 58)
        &&& r.interchange_level == le16_at(b, 60)
        &&& r.maximum_interchange_level == le16_at(b, 62)
        &&& r.character_set_list == le32_at(b, 64)
        &&& r.maximum_character_set_list == le32_at(b, 68)
        &&& r.volume_set_identifier.0@ == b.subrange(72, 200)
        &&& CharSpec::spec_decodes(b.subrange(200, 264), r.descriptor_character_set)
        &&& CharSpec::spec_decodes(b.subrange(264, 328), r.explanatory_character_set)
        &&& r.volume_abstract == ExtentAd::spec_decode(b.subrange(328, 336))
        &&& r.volume_copyright_notice == ExtentAd::spec_decode(b.subrange(336, 344))
        &&& EntityID::spec_decodes(b.subrange(344, 376), r.application_identifier)
        &&& r.recording_date_and_time == Timestamp::spec_decode(b.subrange(376, 388))
        &&& EntityID::spec_decodes(b.subrange(388, 420), r.implementation_identifier)
        &&& r.implementation_use@ == b.subrange(420, 484)
        &&& r.predecessor_volume_descriptor_sequence_location == le32_at(b, 484)
        &&& r.flags == le16_at(b, 488)
        &&& r.reserved@ == b.subrange(490, 512)
    }

    pub fn size() -> (r: usize)
        ensures
            r == 512,
    {
        512
    }

    pub fn read(bytes: &[u8]) -> (r: PrimaryVolumeDescriptor)
        requires
            bytes@.len() >= 512,
        ensures
            PrimaryVolumeDescriptor::spec_decodes(bytes@, r),
            r.wf(),
    {
        PrimaryVolumeDescriptor {
            tag: DescriptorTag::read(&bytes[0..16]),
            volume_descriptor_sequence_number: read_le32(bytes, 16),
            primary_volume_descriptor_number: read_le32(bytes, 20),
            volume_identifier: Dstring(read_bytes(bytes, 24, 32)),
            volume_sequence_number: read_le16(bytes, 56),
            maximum_volume_sequence_number: read_le16(bytes, 58),
            interchange_level: read_le16(bytes, 60),
            maximum_interchange_level: read_le16(bytes, 62),
            character_set_list: read_le32(bytes, 64),
            maximum_character_set_list: read_le32(bytes, 68),
            volume_set_identifier: Dstring(read_bytes(bytes, 72, 128)),
            descriptor_character_set: CharSpec::read(&bytes[200..264]),
            explanatory_character_set: CharSpec::read(&bytes[264..328]),
            volume_abstract: ExtentAd::read(&bytes[328..336]),
            volume_copyright_notice: ExtentAd::read(&bytes[336..344]),
            application_identifier: EntityID::read(&bytes[344..376]),
            recording_date_and_time: Timestamp::read(&bytes[376..388]),
            implementation_identifier: EntityID::read(&bytes[388..420]),
            implementation_use: read_bytes(bytes, 420, 64),
            predecessor_volume_descriptor_sequence_location: read_le32(bytes, 484),
            flags: read_le16(bytes, 488),
            reserved: read_bytes(bytes, 490, 22),
        }
    }

    pub fn encode(&self) -> (r: Vec<u8>)
        requires
            self.wf(),
        ensures
            r@.len() == 512,
            PrimaryVolumeDescriptor::spec_decodes(r@, *self),
    {
        let mut v: Vec<u8> = Vec::new();
        let tag = self.tag.encode();
        push_bytes(&mut v, tag.as_slice());
        push_le32(&mut v, self.volume_descriptor_sequence_number);
        push_le32(&mut v, self.primary_volume_descriptor_number);
        push_bytes(&mut v, self.volume_identifier.0.as_slice());
        push_le16(&mut v, self.volume_sequence_number);
        push_le16(&mut v, self.maximum_volume_sequence_number);
        push_le16(&mut v, self.interchange_level);
        push_le16(&mut v, self.maximum_interchange_level);
        push_le32(&mut v, self.character_set_list);
        push_le32(&mut v, self.maximum_character_set_list);
        push_bytes(&mut v, self.volume_set_identifier.0.as_slice());
        let dcs = self.descriptor_character_set.encode();
        push_bytes(&mut v, dcs.as_slice());
        let ecs = self.explanatory_character_set.encode();
        push_bytes(&mut v, ecs.as_slice());
        let va = self.volume_abstract.encode();
        push_bytes(&mut v, va.as_slice());
        let vcn = self.volume_copyright_notice.encode();
        push_bytes(&mut v, vcn.as_slice());
        let ai = self.application_identifier.encode();
        push_bytes(&mut v, ai.as_slice());
        let ts = self.recording_date_and_time.encode();
        push_bytes(&mut v, ts.as_slice());
        let ii = self.implementation_identifier.encode();
        push_bytes(&mut v, ii.as_slice());
        push_bytes(&mut v, self.implementation_use.as_slice());
        push_le32(&mut v, self.predecessor_volume_descriptor_sequence_location);
        push_le16(&mut v, self.flags);
        push_bytes(&mut v, self.reserved.as_slice());
        proof {
            assert(v@.subrange(0, 16) =~= tag@);
            assert(v@.subrange(24, 56) =~= self.volume_identifier.0@);
            assert(v@.subrange(72, 200) =~= self.volume_set_identifier.0@);
            assert(v@.subrange(200, 264) =~= dcs@);
            assert(v@.subrange(264, 328) =~= ecs@);
            assert(v@.subrange(328, 336) =~= va@);
            assert(v@.subrange(336, 344) =~= vcn@);
            assert(v@.subrange(344, 376) =~= ai@);
            assert(v@.subrange(376, 388) =~= ts@);
            assert(v@.subrange(388, 420) =~= ii@);
            assert(v@.subrange(420, 484) =~= self.implementation_use@);
            assert(v@.subrange(490, 512) =~= self.reserved@);
        }
        v
    }

    pub fn write(&self, bytes: &mut Vec<u8>, offset: usize)
        requires
            self.wf(),
            offset + 512 <= old(bytes)@.len(),
        ensures
            final(bytes)@.len() == old(bytes)@.len(),
            PrimaryVolumeDescriptor::spec_decodes(
                final(bytes)@.subrange(offset as int, offset + 512),
                *self,
            ),
            forall|i: int|
                0 <= i < old(bytes)@.len() && !(offset <= i < offset + 512) ==> final(bytes)@[i]
                    == old(bytes)@[i],
    {
        let enc = self.encode();
        copy_into(bytes, offset, enc.as_slice());
        proof {
            assert(bytes@.subrange(offset as int, offset + 512) =~= enc@);
        }
    }
}

impl Default for PrimaryVolumeDescriptor {
    fn default() -> (r: PrimaryVolumeDescriptor)
        ensures
            r.wf(),
    {
        PrimaryVolumeDescriptor {
            tag: DescriptorTag::default(),
            volume_descriptor_sequence_number: 0,
            primary_volume_descriptor_number: 0,
            volume_identifier: Dstring::default(),
            volume_sequence_number: 0,
            maximum_volume_sequence_number: 0,
            interchange_level: 0,
            maximum_interchange_level: 0,
            character_set_list: 0,
            maximum_character_set_list: 0,
            volume_set_identifier: Dstring::default(),
            descriptor_character_set: CharSpec::default(),
            explanatory_character_set: CharSpec::default(),
            volume_abstract: ExtentAd::default(),
            volume_copyright_notice: ExtentAd::default(),
            application_identifier: EntityID::default(),
            recording_date_and_time: Timestamp::default(),
            implementation_identifier: EntityID::default(),
            implementation_use: zero_vec(64),
            predecessor_volume_descriptor_sequence_location: 0,
            flags: 0,
            reserved: zero_vec(22),
        }
    }
}

/// Partition descriptor: maps a partition number to its starting
/// sector and length.
#[derive(Debug, Clone)]
pub struct PartitionDescriptor {
    pub tag: DescriptorTag,
    pub volume_descriptor_sequence_number: u32,
    pub partition_flags: u16,
    pub partition_number: u16,
    pub partition_contents: EntityID,
    pub partition_contents_use: Vec<u8>,
    pub access_type: u32,
    /// Starting position of the partition, in sectors.
    pub partition_starting_location: u32,
    /// Length in blocks.
    pub partition_length: u32,
    pub implementation_identifier: EntityID,
    pub implementation_use: Vec<u8>,
    pub reserved: Vec<u8>,
}

impl PartitionDescriptor {
    pub const TAG_IDENTIFIER: u16 = 5;

    pub open spec fn wf(self) -> bool {
        &&& self.partition_contents.wf()
        &&& self.implementation_identifier.wf()
        &&& self.partition_contents_use@.len() == 128
        &&& self.implementation_use@.len() == 128
        &&& self.reserved@.len() == 156
    }

    pub open spec fn spec_decodes(b: Seq<u8>, r: PartitionDescriptor) -> bool {
        &&& r.tag == DescriptorTag::spec_decode(b.subrange(0, 16))
        &&& r.volume_descriptor_sequence_number == le32_at(b, 16)
        &&& r.partition_flags == le16_at(b, 20)
        &&& r.partition_number == le16_at(b, 22)
        &&& EntityID::spec_decodes(b.subrange(24, 56), r.partition_contents)
        &&& r.partition_contents_use@ == b.subrange(56, 184)
        &&& r.access_type == le32_at(b, 184)
        &&& r.partition_starting_location == le32_at(b, 188)
        &&& r.partition_length == le32_at(b, 192)
        &&& EntityID::spec_decodes(b.subrange(196, 228), r.implementation_identifier)
        &&& r.implementation_use@ == b.subrange(228, 356)
        &&& r.reserved@ == b.subrange(356, 512)
    }

    pub fn size() -> (r: usize)
        ensures
            r == 512,
    {
        512
    }

    pub fn read(bytes: &[u8]) -> (r: PartitionDescriptor)
        requires
            bytes@.len() >= 512,
        ensures
            PartitionDescriptor::spec_decodes(bytes@, r),
            r.wf(),
    {
        PartitionDescriptor {
            tag: DescriptorTag::read(&bytes[0..16]),
            volume_descriptor_sequence_number: read_le32(bytes, 16),
            partition_flags: read_le16(bytes, 20),
            partition_number: read_le16(bytes, 22),
            partition_contents: EntityID::read(&bytes[24..56]),
            partition_contents_use: read_bytes(bytes, 56, 128),
            access_type: read_le32(bytes, 184),
            partition_starting_location: read_le32(bytes, 188),
            partition_length: read_le32(bytes, 192),
            implementation_identifier: EntityID::read(&bytes[196..228]),
            implementation_use: read_bytes(bytes, 228, 128),
            reserved: read_bytes(bytes, 356, 156),
        }
    }

    pub fn encode(&self) -> (r: Vec<u8>)
        requires
            self.wf(),
        ensures
            r@.len() == 512,
            PartitionDescriptor::spec_decodes(r@, *self),
    {
        let mut v: Vec<u8> = Vec::new();
        let tag = self.tag.encode();
        push_bytes(&mut v, tag.as_slice());
        push_le32(&mut v, self.volume_descriptor_sequence_number);
        push_le16(&mut v, self.partition_flags);
        push_le16(&mut v, self.partition_number);
        let pc = self.partition_contents.encode();
        push_bytes(&mut v, pc.as_slice());
        push_bytes(&mut v, self.partition_contents_use.as_slice());
        push_le32(&mut v, self.access_type);
        push_le32(&mut v, self.partition_starting_location);
        push_le32(&mut v, self.partition_length);
        let ii = self.implementation_identifier.encode();
        push_bytes(&mut v, ii.as_slice());
        push_bytes(&mut v, self.implementation_use.as_slice());
        push_bytes(&mut v, self.reserved.as_slice());
        proof {
            assert(v@.subrange(0, 16) =~= tag@);
            assert(v@.subrange(24, 56) =~= pc@);
            assert(v@.subrange(56, 184) =~= self.partition_contents_use@);
            assert(v@.subrange(196, 228) =~= ii@);
            assert(v@.subrange(228, 356) =~= self.implementation_use@);
            assert(v@.subrange(356, 512) =~= self.reserved@);
        }
        v
    }

    pub fn write(&self, bytes: &mut Vec<u8>, offset: usize)
        requires
            self.wf(),
            offset + 512 <= old(bytes)@.len(),
        ensures
            final(bytes)@.len() == old(bytes)@.len(),
            PartitionDescriptor::spec_decodes(
                final(bytes)@.subrange(offset as int, offset + 512),
                *self,
            ),
            forall|i: int|
                0 <= i < old(bytes)@.len() && !(offset <= i < offset + 512) ==> final(bytes)@[i]
                    == old(bytes)@[i],
    {
        let enc = self.encode();
        copy_into(bytes, offset, enc.as_slice());
        proof {
            assert(bytes@.subrange(offset as int, offset + 512) =~= enc@);
        }
    }
}

impl Default for PartitionDescriptor {
    fn default() -> (r: PartitionDescriptor)
        ensures
            r.wf(),
    {
        PartitionDescriptor {
            tag: DescriptorTag::default(),
            volume_descriptor_sequence_number: 0,
            partition_flags: 0,
            partition_number: 0,
            partition_contents: EntityID::default(),
            partition_contents_use: zero_vec(128),
            access_type: 0,
            partition_starting_location: 0,
            partition_length: 0,
            implementation_identifier: EntityID::default(),
            implementation_use: zero_vec(128),
            reserved: zero_vec(156),
        }
    }
}

/// Logical volume descriptor: names a logical volume, fixes the
/// logical block size and carries the partition-map table.
#[derive(Debug, Clone)]
pub struct LogicalVolumeDescriptor {
    pub tag: DescriptorTag,
    pub volume_descriptor_sequence_number: u32,
    pub descriptor_character_set: CharSpec,
    pub logical_volume_identifier: Dstring<128>,
    pub logical_block_size: u32,
    pub domain_identifier: EntityID,
    pub logical_volume_contents_use: Vec<u8>,
    pub map_table_length: u32,
    pub number_of_partition_maps: u32,
    pub implementation_identifier: EntityID,
    pub implementation_use: Vec<u8>,
    pub integrity_sequence_extent: ExtentAd,
}

impl LogicalVolumeDescriptor {
    pub const TAG_IDENTIFIER: u16 = 6;

    pub open spec fn wf(self) -> bool {
        &&& self.descriptor_character_set.wf()
        &&& self.logical_volume_identifier.wf()
        &&& self.domain_identifier.wf()
        &&& self.implementation_identifier.wf()
        &&& self.logical_volume_contents_use@.len() == 16
        &&& self.implementation_use@.len() == 128
    }

    pub open spec fn spec_decodes(b: Seq<u8>, r: LogicalVolumeDescriptor) -> bool {
        &&& r.tag == DescriptorTag::spec_decode(b.subrange(0, 16))
        &&& r.volume_descriptor_sequence_number == le32_at(b, 16)
        &&& CharSpec::spec_decodes(b.subrange(20, 84), r.descriptor_character_set)
        &&& r.logical_volume_identifier.0@ == b.subrange(84, 212)
        &&& r.logical_block_size == le32_at(b, 212)
        &&& EntityID::spec_decodes(b.subrange(216, 248), r.domain_identifier)
        &&& r.logical_volume_contents_use@ == b.subrange(248, 264)
        &&& r.map_table_length == le32_at(b, 264)
        &&& r.number_of_partition_maps == le32_at(b, 268)
        &&& EntityID::spec_decodes(b.subrange(272, 304), r.implementation_identifier)
        &&& r.implementation_use@ == b.subrange(304, 432)
        &&& r.integrity_sequence_extent == ExtentAd::spec_decode(b.subrange(432, 440))
    }

    pub fn size() -> (r: usize)
        ensures
            r == 440,
    {
        440
    }

    pub fn read(bytes: &[u8]) -> (r: LogicalVolumeDescriptor)
        requires
            bytes@.len() >= 440,
        ensures
            LogicalVolumeDescriptor::spec_decodes(bytes@, r),
            r.wf(),
    {
        LogicalVolumeDescriptor {
            tag: DescriptorTag::read(&bytes[0..16]),
            volume_descriptor_sequence_number: read_le32(bytes, 16),
            descriptor_character_set: CharSpec::read(&bytes[20..84]),
            logical_volume_identifier: Dstring(read_bytes(bytes, 84, 128)),
            logical_block_size: read_le32(bytes, 212),
            domain_identifier: EntityID::read(&bytes[216..248]),
            logical_volume_contents_use: read_bytes(bytes, 248, 16),
            map_table_length: read_le32(bytes, 264),
            number_of_partition_maps: read_le32(bytes, 268),
            implementation_identifier: EntityID::read(&bytes[272..304]),
            implementation_use: read_bytes(bytes, 304, 128),
            integrity_sequence_extent: ExtentAd::read(&bytes[432..440]),
        }
    }

    pub fn encode(&self) -> (r: Vec<u8>)
        requires
            self.wf(),
        ensures
            r@.len() == 440,
            LogicalVolumeDescriptor::spec_decodes(r@, *self),
    {
        let mut v: Vec<u8> = Vec::new();
        let tag = self.tag.encode();
        push_bytes(&mut v, tag.as_slice());
        push_le32(&mut v, self.volume_descriptor_sequence_number);
        let dcs = self.descriptor_character_set.encode();
        push_bytes(&mut v, dcs.as_slice());
        push_bytes(&mut v, self.logical_volume_identifier.0.as_slice());
        push_le32(&mut v, self.logical_block_size);
        let di = self.domain_identifier.encode();
        push_bytes(&mut v, di.as_slice());
        push_bytes(&mut v, self.logical_volume_contents_use.as_slice());
        push_le32(&mut v, self.map_table_length);
        push_le32(&mut v, self.number_of_partition_maps);
        let ii = self.implementation_identifier.encode();
        push_bytes(&mut v, ii.as_slice());
        push_bytes(&mut v, self.implementation_use.as_slice());
        let ise = self.integrity_sequence_extent.encode();
        push_bytes(&mut v, ise.as_slice());
        proof {
            assert(v@.subrange(0, 16) =~= tag@);
            assert(v@.subrange(20, 84) =~= dcs@);
            assert(v@.subrange(84, 212) =~= self.logical_volume_identifier.0@);
            assert(v@.subrange(216, 248) =~= di@);
            assert(v@.subrange(248, 264) =~= self.logical_volume_contents_use@);
            assert(v@.subrange(272, 304) =~= ii@);
            assert(v@.subrange(304, 432) =~= self.implementation_use@);
            assert(v@.subrange(432, 440) =~= ise@);
        }
        v
    }

    pub fn write(&self, bytes: &mut Vec<u8>, offset: usize)
        requires
            self.wf(),
            offset + 440 <= old(bytes)@.len(),
        ensures
            final(bytes)@.len() == old(bytes)@.len(),
            LogicalVolumeDescriptor::spec_decodes(
                final(bytes)@.subrange(offset as int, offset + 440),
                *self,
            ),
            forall|i: int|
                0 <= i < old(bytes)@.len() && !(offset <= i < offset + 440) ==> final(bytes)@[i]
                    == old(bytes)@[i],
    {
        let enc = self.encode();
        copy_into(bytes, offset, enc.as_slice());
        proof {
            assert(bytes@.subrange(offset as int, offset + 440) =~= enc@);
        }
    }
}

impl Default for LogicalVolumeDescriptor {
    fn default() -> (r: LogicalVolumeDescriptor)
        ensures
            r.wf(),
            r.map_table_length == 0,
            r.number_of_partition_maps == 0,
            r.logical_block_size == 0,
    {
        LogicalVolumeDescriptor {
            tag: DescriptorTag::default(),
            volume_descriptor_sequence_number: 0,
            descriptor_character_set: CharSpec::default(),
            logical_volume_identifier: Dstring::default(),
            logical_block_size: 0,
            domain_identifier: EntityID::default(),
            logical_volume_contents_use: zero_vec(16),
            map_table_length: 0,
            number_of_partition_maps: 0,
            implementation_identifier: EntityID::default(),
            implementation_use: zero_vec(128),
            integrity_sequence_extent: ExtentAd::default(),
        }
    }
}

/// File set descriptor: the root of a file set, holding the root
/// directory's ICB address.
#[derive(Debug, Clone)]
pub struct FileSetDescriptor {
    pub tag: DescriptorTag,
    pub recording_date_and_time: Timestamp,
    pub interchange_level: u16,
    pub maximum_interchange_level: u16,
    pub character_set_list: u32,
    pub maximum_character_set_list: u32,
    pub file_set_number: u32,
    pub file_set_descriptor_number: u32,
    pub logical_volume_identifier_character_set: CharSpec,
    pub logical_volume_identifier: Dstring<128>,
    pub file_set_character_set: CharSpec,
    pub file_set_identifier: Dstring<32>,
    pub copyright_file_identifier: Dstring<32>,
    pub abstract_file_identifier: Dstring<32>,
    pub root_directory_icb: LongAd,
    pub domain_identifier: EntityID,
    pub next_extent: LongAd,
    pub system_stream_directory_icb: LongAd,
    pub reserved: Vec<u8>,
}

impl FileSetDescriptor {
    pub const TAG_IDENTIFIER: u16 = 256;

    pub open spec fn wf(self) -> bool {
        &&& self.logical_volume_identifier_character_set.wf()
        &&& self.logical_volume_identifier.wf()
        &&& self.file_set_character_set.wf()
        &&& self.file_set_identifier.wf()
        &&& self.copyright_file_identifier.wf()
        &&& self.abstract_file_identifier.wf()
        &&& self.root_directory_icb.wf()
        &&& self.domain_identifier.wf()
        &&& self.next_extent.wf()
        &&& self.system_stream_directory_icb.wf()
        &&& self.reserved@.len() == 32
    }

    pub open spec fn spec_decodes(b: Seq<u8>, r: FileSetDescriptor) -> bool {
        &&& r.tag == DescriptorTag::spec_decode(b.subrange(0, 16))
        &&& r.recording_date_and_time == Timestamp::spec_decode(b.subrange(16, 28))
        &&& r.interchange_level == le16_at(b, 28)
        &&& r.maximum_interchange_level == le16_at(b, 30)
        &&& r.character_set_list == le32_at(b, 32)
        &&& r.maximum_character_set_list == le32_at(b, 36)
        &&& r.file_set_number == le32_at(b, 40)
        &&& r.file_set_descriptor_number == le32_at(b, 44)
        &&& CharSpec::spec_decodes(b.subrange(48, 112), r.logical_volume_identifier_character_set)
        &&& r.logical_volume_identifier.0@ == b.subrange(112, 240)
        &&& CharSpec::spec_decodes(b.subrange(240, 304), r.file_set_character_set)
        &&& r.file_set_identifier.0@ == b.subrange(304, 336)
        &&& r.copyright_file_identifier.0@ == b.subrange(336, 368)
        &&& r.abstract_file_identifier.0@ == b.subrange(368, 400)
        &&& LongAd::spec_decodes(b.subrange(400, 416), r.root_directory_icb)
        &&& EntityID::spec_decodes(b.subrange(416, 448), r.domain_identifier)
        &&& LongAd::spec_decodes(b.subrange(448, 464), r.next_extent)
        &&& LongAd::spec_decodes(b.subrange(464, 480), r.system_stream_directory_icb)
        &&& r.reserved@ == b.subrange(480, 512)
    }

    pub fn size() -> (r: usize)
        ensures
            r == 512,
    {
        512
    }

    pub fn read(bytes: &[u8]) -> (r: FileSetDescriptor)
        requires
            bytes@.len() >= 512,
        ensures
            FileSetDescriptor::spec_decodes(bytes@, r),
            r.wf(),
    {
        FileSetDescriptor {
            tag: DescriptorTag::read(&bytes[0..16]),
            recording_date_and_time: Timestamp::read(&bytes[16..28]),
            interchange_level: read_le16(bytes, 28),
            maximum_interchange_level: read_le16(bytes, 30),
            character_set_list: read_le32(bytes, 32),
            maximum_character_set_list: read_le32(bytes, 36),
            file_set_number: read_le32(bytes, 40),
            file_set_descriptor_number: read_le32(bytes, 44),
            logical_volume_identifier_character_set: CharSpec::read(&bytes[48..112]),
            logical_volume_identifier: Dstring(read_bytes(bytes, 112, 128)),
            file_set_character_set: CharSpec::read(&bytes[240..304]),
            file_set_identifier: Dstring(read_bytes(bytes, 304, 32)),
            copyright_file_identifier: Dstring(read_bytes(bytes, 336, 32)),
            abstract_file_identifier: Dstring(read_bytes(bytes, 368, 32)),
            root_directory_icb: LongAd::read(&bytes[400..416]),
            domain_identifier: EntityID::read(&bytes[416..448]),
            next_extent: LongAd::read(&bytes[448..464]),
            system_stream_directory_icb: LongAd::read(&bytes[464..480]),
            reserved: read_bytes(bytes, 480, 32),
        }
    }

    pub fn encode(&self) -> (r: Vec<u8>)
        requires
            self.wf(),
        ensures
            r@.len() == 512,
            FileSetDescriptor::spec_decodes(r@, *self),
    {
        let mut v: Vec<u8> = Vec::new();
        let tag = self.tag.encode();
        push_bytes(&mut v, tag.as_slice());
        let ts = self.recording_date_and_time.encode();
        push_bytes(&mut v, ts.as_slice());
        push_le16(&mut v, self.interchange_level);
        push_le16(&mut v, self.maximum_interchange_level);
        push_le32(&mut v, self.character_set_list);
        push_le32(&mut v, self.maximum_character_set_list);
        push_le32(&mut v, self.file_set_number);
        push_le32(&mut v, self.file_set_descriptor_number);
        let lvcs = self.logical_volume_identifier_character_set.encode();
        push_bytes(&mut v, lvcs.as_slice());
        push_bytes(&mut v, self.logical_volume_identifier.0.as_slice());
        let fscs = self.file_set_character_set.encode();
        push_bytes(&mut v, fscs.as_slice());
        push_bytes(&mut v, self.file_set_identifier.0.as_slice());
        push_bytes(&mut v, self.copyright_file_identifier.0.as_slice());
        push_bytes(&mut v, self.abstract_file_identifier.0.as_slice());
        let ricb = self.root_directory_icb.encode();
        push_bytes(&mut v, ricb.as_slice());
        let di = self.domain_identifier.encode();
        push_bytes(&mut v, di.as_slice());
        let ne = self.next_extent.encode();
        push_bytes(&mut v, ne.as_slice());
        let ssd = self.system_stream_directory_icb.encode();
        push_bytes(&mut v, ssd.as_slice());
        push_bytes(&mut v, self.reserved.as_slice());
        proof {
            assert(v@.subrange(0, 16) =~= tag@);
            assert(v@.subrange(16, 28) =~= ts@);
            assert(v@.subrange(48, 112) =~= lvcs@);
            assert(v@.subrange(112, 240) =~= self.logical_volume_identifier.0@);
            assert(v@.subrange(240, 304) =~= fscs@);
            assert(v@.subrange(304, 336) =~= self.file_set_identifier.0@);
            assert(v@.subrange(336, 368) =~= self.copyright_file_identifier.0@);
            assert(v@.subrange(368, 400) =~= self.abstract_file_identifier.0@);
            assert(v@.subrange(400, 416) =~= ricb@);
            assert(v@.subrange(416, 448) =~= di@);
            assert(v@.subrange(448, 464) =~= ne@);
            assert(v@.subrange(464, 480) =~= ssd@);
            assert(v@.subrange(480, 512) =~= self.reserved@);
        }
        v
    }

    pub fn write(&self, bytes: &mut Vec<u8>, offset: usize)
        requires
            self.wf(),
            offset + 512 <= old(bytes)@.len(),
        ensures
            final(bytes)@.len() == old(bytes)@.len(),
            FileSetDescriptor::spec_decodes(
                final(bytes)@.subrange(offset as int, offset + 512),
                *self,
            ),
            forall|i: int|
                0 <= i < old(bytes)@.len() && !(offset <= i < offset + 512) ==> final(bytes)@[i]
                    == old(bytes)@[i],
    {
        let enc = self.encode();
        copy_into(bytes, offset, enc.as_slice());
        proof {
            assert(bytes@.subrange(offset as int, offset + 512) =~= enc@);
        }
    }
}

impl Default for FileSetDescriptor {
    fn default() -> (r: FileSetDescriptor)
        ensures
            r.wf(),
    {
        FileSetDescriptor {
            tag: DescriptorTag::default(),
            recording_date_and_time: Timestamp::default(),
            interchange_level: 0,
            maximum_interchange_level: 0,
            character_set_list: 0,
            maximum_character_set_list: 0,
            file_set_number: 0,
            file_set_descriptor_number: 0,
            logical_volume_identifier_character_set: CharSpec::default(),
            logical_volume_identifier: Dstring::default(),
            file_set_character_set: CharSpec::default(),
            file_set_identifier: Dstring::default(),
            copyright_file_identifier: Dstring::default(),
            abstract_file_identifier: Dstring::default(),
            root_directory_icb: LongAd::default(),
            domain_identifier: EntityID::default(),
            next_extent: LongAd::default(),
            system_stream_directory_icb: LongAd::default(),
            reserved: zero_vec(32),
        }
    }
}

/// The extended-attributes length field of a file entry stored at `b`.
pub open spec fn spec_fe_lea(b: Seq<u8>) -> u32 {
    le32_at(b, 168)
}

/// The allocation-descriptors length field of a file entry stored at `b`.
pub open spec fn spec_fe_lad(b: Seq<u8>) -> u32 {
    le32_at(b, 172)
}

/// The total stored length of a file entry at `b`: the 176-byte fixed
/// part plus the two variable tails.
pub open spec fn spec_fe_total_len(b: Seq<u8>) -> int {
    176 + spec_fe_lea(b) + spec_fe_lad(b)
}

/// ECMA-167 file entry: the inode equivalent, with permissions,
/// timestamps and the allocation descriptors of the file body.
#[derive(Debug, Clone)]
pub struct FileEntry {
    pub tag: DescriptorTag,
    pub icb_tag: ICBTag,
    pub uid: u32,
    pub gid: u32,
    pub permissions: u32,
    pub file_link_count: u16,
    pub record_format: u8,
    pub record_display_attributes: u8,
    pub record_length: u32,
    pub information_length: u64,
    pub logical_blocks_recorded: u64,
    pub access_time: Timestamp,
    pub modification_time: Timestamp,
    pub attribute_time: Timestamp,
    pub checkpoint: u32,
    pub extended_attribute_icb: LongAd,
    pub implementation_identifier: EntityID,
    pub unique_id: u64,
    pub length_of_extended_attributes: u32,
    pub length_of_allocation_descriptors: u32,
    pub extended_attributes: Vec<u8>,
    /// UDF requires short allocation descriptors here for file bodies.
    pub allocation_descriptors: Vec<u8>,
}

impl FileEntry {
    pub const TAG_IDENTIFIER: u16 = 261;

    pub open spec fn wf(self) -> bool {
        &&& self.icb_tag.wf()
        &&& self.extended_attribute_icb.wf()
        &&& self.implementation_identifier.wf()
        &&& self.extended_attributes@.len() == self.length_of_extended_attributes
        &&& self.allocation_descriptors@.len() == self.length_of_allocation_descriptors
    }

    pub open spec fn spec_decodes(b: Seq<u8>, r: FileEntry) -> bool {
        &&& r.tag == DescriptorTag::spec_decode(b.subrange(0, 16))
        &&& ICBTag::spec_decodes(b.subrange(16, 36), r.icb_tag)
        &&& r.uid == le32_at(b, 36)
        &&& r.gid == le32_at(b, 40)
        &&& r.permissions == le32_at(b, 44)
        &&& r.file_link_count == le16_at(b, 48)
        &&& r.record_format == b[50]
        &&& r.record_display_attributes == b[51]
        &&& r.record_length == le32_at(b, 52)
        &&& r.information_length == le64_at(b, 56)
        &&& r.logical_blocks_recorded == le64_at(b, 64)
        &&& r.access_time == Timestamp::spec_decode(b.subrange(72, 84))
        &&& r.modification_time == Timestamp::spec_decode(b.subrange(84, 96))
        &&& r.attribute_time == Timestamp::spec_decode(b.subrange(96, 108))
        &&& r.checkpoint == le32_at(b, 108)
        &&& LongAd::spec_decodes(b.subrange(112, 128), r.extended_attribute_icb)
        &&& EntityID::spec_decodes(b.subrange(128, 160), r.implementation_identifier)
        &&& r.unique_id == le64_at(b, 160)
        &&& r.length_of_extended_attributes == spec_fe_lea(b)
        &&& r.length_of_allocation_descriptors == spec_fe_lad(b)
        &&& r.extended_attributes@ == b.subrange(176, 176 + spec_fe_lea(b))
        &&& r.allocation_descriptors@ == b.subrange(
            176 + spec_fe_lea(b),
            176 + spec_fe_lea(b) + spec_fe_lad(b),
        )
    }

    /// The stored length of the entry: fixed part plus both tails.
    pub fn get_length(&self) -> (r: usize)
        requires
            176 + self.length_of_extended_attributes + self.length_of_allocation_descriptors
                <= usize::MAX,
        ensures
            r == 176 + self.length_of_extended_attributes
                + self.length_of_allocation_descriptors,
    {
        176 + self.length_of_extended_attributes as usize
            + self.length_of_allocation_descriptors as usize
    }

    pub fn read(bytes: &[u8]) -> (r: FileEntry)
        requires
            bytes@.len() >= 176,
            bytes@.len() >= spec_fe_total_len(bytes@),
        ensures
            FileEntry::spec_decodes(bytes@, r),
            r.wf(),
    {
        let lea = read_le32(bytes, 168) as usize;
        let lad = read_le32(bytes, 172) as usize;
        FileEntry {
            tag: DescriptorTag::read(&bytes[0..16]),
            icb_tag: ICBTag::read(&bytes[16..36]),
            uid: read_le32(bytes, 36),
            gid: read_le32(bytes, 40),
            permissions: read_le32(bytes, 44),
            file_link_count: read_le16(bytes, 48),
            record_format: bytes[50],
            record_display_attributes: bytes[51],
            record_length: read_le32(bytes, 52),
            information_length: read_le64(bytes, 56),
            logical_blocks_recorded: read_le64(bytes, 64),
            access_time: Timestamp::read(&bytes[72..84]),
            modification_time: Timestamp::read(&bytes[84..96]),
            attribute_time: Timestamp::read(&bytes[96..108]),
            checkpoint: read_le32(bytes, 108),
            extended_attribute_icb: LongAd::read(&bytes[112..128]),
            implementation_identifier: EntityID::read(&bytes[128..160]),
            unique_id: read_le64(bytes, 160),
            length_of_extended_attributes: read_le32(bytes, 168),
            length_of_allocation_descriptors: read_le32(bytes, 172),
            extended_attributes: read_bytes(bytes, 176, lea),
            allocation_descriptors: read_bytes(bytes, 176 + lea, lad),
        }
    }

    pub fn encode(&self) -> (r: Vec<u8>)
        requires
            self.wf(),
            176 + self.length_of_extended_attributes + self.length_of_allocation_descriptors
                <= usize::MAX,
        ensures
            r@.len() == 176 + self.length_of_extended_attributes
                + self.length_of_allocation_descriptors,
            FileEntry::spec_decodes(r@, *self),
    {
        let mut v: Vec<u8> = Vec::new();
        let tag = self.tag.encode();
        push_bytes(&mut v, tag.as_slice());
        let icb = self.icb_tag.encode();
        push_bytes(&mut v, icb.as_slice());
        push_le32(&mut v, self.uid);
        push_le32(&mut v, self.gid);
        push_le32(&mut v, self.permissions);
        push_le16(&mut v, self.file_link_count);
        push_u8(&mut v, self.record_format);
        push_u8(&mut v, self.record_display_attributes);
        push_le32(&mut v, self.record_length);
        push_le64(&mut v, self.information_length);
        push_le64(&mut v, self.logical_blocks_recorded);
        let at = self.access_time.encode();
        push_bytes(&mut v, at.as_slice());
        let mt = self.modification_time.encode();
        push_bytes(&mut v, mt.as_slice());
        let att = self.attribute_time.encode();
        push_bytes(&mut v, att.as_slice());
        push_le32(&mut v, self.checkpoint);
        let eai = self.extended_attribute_icb.encode();
        push_bytes(&mut v, eai.as_slice());
        let ii = self.implementation_identifier.encode();
        push_bytes(&mut v, ii.as_slice());
        push_le64(&mut v, self.unique_id);
        push_le32(&mut v, self.length_of_extended_attributes);
        push_le32(&mut v, self.length_of_allocation_descriptors);
        push_bytes(&mut v, self.extended_attributes.as_slice());
        push_bytes(&mut v, self.allocation_descriptors.as_slice());
        proof {
            let lea = self.length_of_extended_attributes as int;
            let lad = self.length_of_allocation_descriptors as int;
            assert(v@.subrange(0, 16) =~= tag@);
            assert(v@.subrange(16, 36) =~= icb@);
            assert(v@.subrange(72, 84) =~= at@);
            assert(v@.subrange(84, 96) =~= mt@);
            assert(v@.subrange(96, 108) =~= att@);
            assert(v@.subrange(112, 128) =~= eai@);
            assert(v@.subrange(128, 160) =~= ii@);
            assert(v@.subrange(176, 176 + lea) =~= self.extended_attributes@);
            assert(v@.subrange(176 + lea, 176 + lea + lad) =~= self.allocation_descriptors@);
        }
        v
    }

    pub fn write(&self, bytes: &mut Vec<u8>, offset: usize)
        requires
            self.wf(),
            offset + 176 + self.length_of_extended_attributes
                + self.length_of_allocation_descriptors <= old(bytes)@.len(),
        ensures
            final(bytes)@.len() == old(bytes)@.len(),
            FileEntry::spec_decodes(
                final(bytes)@.subrange(
                    offset as int,
                    offset + 176 + self.length_of_extended_attributes
                        + self.length_of_allocation_descriptors,
                ),
                *self,
            ),
            forall|i: int|
                0 <= i < old(bytes)@.len() && !(offset <= i < offset + 176
                    + self.length_of_extended_attributes
                    + self.length_of_allocation_descriptors) ==> final(bytes)@[i] == old(
                    bytes,
                )@[i],
    {
        let n = bytes.len();
        assert(176 + self.length_of_extended_attributes + self.length_of_allocation_descriptors
            <= n);
        let enc = self.encode();
        copy_into(bytes, offset, enc.as_slice());
        proof {
            assert(bytes@.subrange(
                offset as int,
                offset + 176 + self.length_of_extended_attributes
                    + self.length_of_allocation_descriptors,
            ) =~= enc@);
        }
    }
}

impl Default for FileEntry {
    fn default() -> (r: FileEntry)
        ensures
            r.wf(),
            r.length_of_extended_attributes == 0,
            r.length_of_allocation_descriptors == 0,
    {
        FileEntry {
            tag: DescriptorTag::default(),
            icb_tag: ICBTag::default(),
            uid: 0,
            gid: 0,
            permissions: 0,
            file_link_count: 0,
            record_format: 0,
            record_display_attributes: 0,
            record_length: 0,
            information_length: 0,
            logical_blocks_recorded: 0,
            access_time: Timestamp::default(),
            modification_time: Timestamp::default(),
            attribute_time: Timestamp::default(),
            checkpoint: 0,
            extended_attribute_icb: LongAd::default(),
            implementation_identifier: EntityID::default(),
            unique_id: 0,
            length_of_extended_attributes: 0,
            length_of_allocation_descriptors: 0,
            extended_attributes: Vec::new(),
            allocation_descriptors: Vec::new(),
        }
    }
}

/// The implementation-use length field of a file identifier descriptor
/// stored at `b`.
pub open spec fn spec_fid_liu(b: Seq<u8>) -> u16 {
    le16_at(b, 36)
}

/// The file-identifier length field of a file identifier descriptor
/// stored at `b`.
pub open spec fn spec_fid_lfi(b: Seq<u8>) -> u8 {
    b[19]
}

/// The stored (unpadded) size of a file identifier descriptor at `b`.
pub open spec fn spec_fid_size(b: Seq<u8>) -> int {
    38 + spec_fid_liu(b) + spec_fid_lfi(b)
}

/// ECMA-167 file identifier descriptor: one directory entry.
#[derive(Debug, Clone)]
pub struct FileIdentifierDescriptor {
    pub tag: DescriptorTag,
    pub file_version_number: u16,
    pub file_characteristics: u8,
    pub length_of_file_identifier: u8,
    pub icb: LongAd,
    pub length_of_implementation_use: u16,
    pub implementation_use: Vec<u8>,
    /// Length 0 for the parent directory, otherwise 1 to 255 bytes.
    pub file_identifier: DynamicDstring,
}

impl FileIdentifierDescriptor {
    pub const TAG_IDENTIFIER: u16 = 257;

    pub const FILE_CHARACTERISTIC_EXISTENCE: u8 = 0b0000_0001;

    pub const FILE_CHARACTERISTIC_DIRECTORY: u8 = 0b0000_0010;

    pub const FILE_CHARACTERISTIC_DELETED: u8 = 0b0000_0100;

    pub const FILE_CHARACTERISTIC_PARENT: u8 = 0b0000_1000;

    pub const FILE_CHARACTERISTIC_METADATA: u8 = 0b0001_0000;

    pub open spec fn wf(self) -> bool {
        &&& self.icb.wf()
        &&& self.implementation_use@.len() == self.length_of_implementation_use
        &&& self.file_identifier.0@.len() == self.length_of_file_identifier
    }

    pub open spec fn spec_decodes(b: Seq<u8>, r: FileIdentifierDescriptor) -> bool {
        &&& r.tag == DescriptorTag::spec_decode(b.subrange(0, 16))
        &&& r.file_version_number == le16_at(b, 16)
        &&& r.file_characteristics == b[18]
        &&& r.length_of_file_identifier == spec_fid_lfi(b)
        &&& LongAd::spec_decodes(b.subrange(20, 36), r.icb)
        &&& r.length_of_implementation_use == spec_fid_liu(b)
        &&& r.implementation_use@ == b.subrange(38, 38 + spec_fid_liu(b))
        &&& r.file_identifier.0@ == b.subrange(
            38 + spec_fid_liu(b),
            38 + spec_fid_liu(b) + spec_fid_lfi(b),
        )
    }

    /// The stored size before 4-byte alignment padding.
    pub fn size(&self) -> (r: usize)
        ensures
            r == 38 + self.length_of_implementation_use + self.length_of_file_identifier,
    {
        38 + self.length_of_implementation_use as usize + self.length_of_file_identifier as usize
    }

    pub fn read(bytes: &[u8]) -> (r: FileIdentifierDescriptor)
        requires
            bytes@.len() >= 38,
            bytes@.len() >= spec_fid_size(bytes@),
        ensures
            FileIdentifierDescriptor::spec_decodes(bytes@, r),
            r.wf(),
    {
        let liu = read_le16(bytes, 36) as usize;
        let lfi = bytes[19] as usize;
        FileIdentifierDescriptor {
            tag: DescriptorTag::read(&bytes[0..16]),
            file_version_number: read_le16(bytes, 16),
            file_characteristics: bytes[18],
            length_of_file_identifier: bytes[19],
            icb: LongAd::read(&bytes[20..36]),
            length_of_implementation_use: read_le16(bytes, 36),
            implementation_use: read_bytes(bytes, 38, liu),
            file_identifier: DynamicDstring(read_bytes(bytes, 38 + liu, lfi)),
        }
    }

    pub fn encode(&self) -> (r: Vec<u8>)
        requires
            self.wf(),
        ensures
            r@.len() == 38 + self.length_of_implementation_use + self.length_of_file_identifier,
            FileIdentifierDescriptor::spec_decodes(r@, *self),
    {
        let mut v: Vec<u8> = Vec::new();
        let tag = self.tag.encode();
        push_bytes(&mut v, tag.as_slice());
        push_le16(&mut v, self.file_version_number);
        push_u8(&mut v, self.file_characteristics);
        push_u8(&mut v, self.length_of_file_identifier);
        let icb = self.icb.encode();
        push_bytes(&mut v, icb.as_slice());
        push_le16(&mut v, self.length_of_implementation_use);
        push_bytes(&mut v, self.implementation_use.as_slice());
        push_bytes(&mut v, self.file_identifier.0.as_slice());
        proof {
            let liu = self.length_of_implementation_use as int;
            let lfi = self.length_of_file_identifier as int;
            assert(v@.subrange(0, 16) =~= tag@);
            assert(v@.subrange(20, 36) =~= icb@);
            assert(v@.subrange(38, 38 + liu) =~= self.implementation_use@);
            assert(v@.subrange(38 + liu, 38 + liu + lfi) =~= self.file_identifier.0@);
        }
        v
    }

    pub fn write(&self, bytes: &mut Vec<u8>, offset: usize)
        requires
            self.wf(),
            offset + 38 + self.length_of_implementation_use + self.length_of_file_identifier
                <= old(bytes)@.len(),
        ensures
            final(bytes)@.len() == old(bytes)@.len(),
            FileIdentifierDescriptor::spec_decodes(
                final(bytes)@.subrange(
                    offset as int,
                    offset + 38 + self.length_of_implementation_use
                        + self.length_of_file_identifier,
                ),
                *self,
            ),
            forall|i: int|
                0 <= i < old(bytes)@.len() && !(offset <= i < offset + 38
                    + self.length_of_implementation_use + self.length_of_file_identifier)
                    ==> final(bytes)@[i] == old(bytes)@[i],
    {
        let enc = self.encode();
        copy_into(bytes, offset, enc.as_slice());
        proof {
            assert(bytes@.subrange(
                offset as int,
                offset + 38 + self.length_of_implementation_use
                    + self.length_of_file_identifier,
            ) =~= enc@);
        }
    }

    /// Whether this entry points back at the parent directory.  Such
    /// entries are never recursed into, which keeps traversal from
    /// ascending in a loop.
    pub fn is_parent(&self) -> (r: bool)
        ensures
            r == (self.file_characteristics & 0x08u8 != 0),
    {
        self.file_characteristics & 0x08u8 != 0
    }

    /// Whether this entry names a directory.
    pub fn is_directory(&self) -> (r: bool)
        ensures
            r == (self.file_characteristics & 0x02u8 != 0),
    {
        self.file_characteristics & 0x02u8 != 0
    }
}

impl Default for FileIdentifierDescriptor {
    fn default() -> (r: FileIdentifierDescriptor)
        ensures
            r.wf(),
            r.length_of_implementation_use == 0,
            r.length_of_file_identifier == 0,
    {
        FileIdentifierDescriptor {
            tag: DescriptorTag::default(),
            file_version_number: 0,
            file_characteristics: 0,
            length_of_file_identifier: 0,
            icb: LongAd::default(),
            length_of_implementation_use: 0,
            implementation_use: Vec::new(),
            file_identifier: DynamicDstring::default(),
        }
    }
}

/// The two-byte header every partition map starts with.
#[derive(Debug, Clone, Copy)]
pub struct GenericPartitionMapHeader {
    pub partition_map_type: u8,
    pub partition_map_length: u8,
}

impl Default for GenericPartitionMapHeader {
    fn default() -> (r: GenericPartitionMapHeader)
        ensures
            r == (GenericPartitionMapHeader { partition_map_type: 0u8, partition_map_length: 0u8 }),
    {
        GenericPartitionMapHeader { partition_map_type: 0, partition_map_length: 0 }
    }
}

/// Type 1 partition map: ties a partition-reference to a volume and
/// partition number.
#[derive(Debug, Clone, Copy)]
pub struct Type1PartitionMap {
    pub header: GenericPartitionMapHeader,
    /// The volume the partition is recorded on; 1 for single-volume media.
    pub volume_seq_number: u16,
    pub partition_number: u16,
}

impl Default for Type1PartitionMap {
    fn default() -> (r: Type1PartitionMap)
        ensures
            r == (Type1PartitionMap {
                header: GenericPartitionMapHeader {
                    partition_map_type: 0u8,
                    partition_map_length: 0u8,
                },
                volume_seq_number: 0u16,
                partition_number: 0u16,
            }),
    {
        Type1PartitionMap {
            header: GenericPartitionMapHeader { partition_map_type: 0, partition_map_length: 0 },
            volume_seq_number: 0,
            partition_number: 0,
        }
    }
}

/// Type 2 partition map: recognised and carried, not interpreted.
#[derive(Debug, Clone)]
pub struct Type2PartitionMap {
    pub header: GenericPartitionMapHeader,
    pub reserved1: Vec<u8>,
    pub partition_type_identifier: Vec<u8>,
}

impl Default for Type2PartitionMap {
    fn default() -> (r: Type2PartitionMap)
        ensures
            r.header == (GenericPartitionMapHeader {
                partition_map_type: 0u8,
                partition_map_length: 0u8,
            }),
            r.reserved1@ == Seq::new(2, |i: int| 0u8),
            r.partition_type_identifier@ == Seq::new(32, |i: int| 0u8),
    {
        Type2PartitionMap {
            header: GenericPartitionMapHeader { partition_map_type: 0, partition_map_length: 0 },
            reserved1: zero_vec(2),
            partition_type_identifier: zero_vec(32),
        }
    }
}

/// A partition map entry: the known shapes plus an opaque arm that
/// keeps unknown types verbatim.
#[derive(Debug, Clone)]
pub enum PartitionMap {
    Type1(Type1PartitionMap),
    Type2(Type2PartitionMap),
    Other { header: GenericPartitionMapHeader, data: Vec<u8> },
}

/// The error the partition-map reader gives for `b`, or None when it
/// succeeds: the buffer must hold the two header bytes and the whole
/// map, and the known types fix their length byte.
pub open spec fn spec_pm_read_err(b: Seq<u8>) -> Option<UdfError> {
    if b.len() < 2 {
        Option::Some(UdfError::BufferTooSmall)
    } else if b.len() < b[1] {
        Option::Some(UdfError::BufferTooSmall)
    } else if b[0] == 1 && b[1] != 6 {
        Option::Some(UdfError::InvalidPartitionMap)
    } else if b[0] == 2 && b[1] != 64 {
        Option::Some(UdfError::InvalidPartitionMap)
    } else {
        Option::None
    }
}

impl PartitionMap {
    pub open spec fn wf(self) -> bool {
        match self {
            PartitionMap::Type1(t) => {
                t.header.partition_map_type == 1 && t.header.partition_map_length == 6
            },
            PartitionMap::Type2(t) => {
                &&& t.header.partition_map_type == 2
                &&& t.header.partition_map_length == 64
                &&& t.reserved1@.len() == 2
                &&& t.partition_type_identifier@.len() == 32
            },
            PartitionMap::Other { header, data } => {
                &&& header.partition_map_type != 1
                &&& header.partition_map_type != 2
                &&& data@.len() == header.partition_map_length
                &&& (data@.len() >= 1 ==> data@[0] == header.partition_map_type)
                &&& (data@.len() >= 2 ==> data@[1] == header.partition_map_length)
            },
        }
    }

    /// `m` is the partition map stored at the start of `b`.
    pub open spec fn spec_decodes(b: Seq<u8>, m: PartitionMap) -> bool {
        match m {
            PartitionMap::Type1(t) => {
                &&& b[0] == 1
                &&& t.header.partition_map_type == 1
                &&& t.header.partition_map_length == b[1]
                &&& t.volume_seq_number == le16_at(b, 2)
                &&& t.partition_number == le16_at(b, 4)
            },
            PartitionMap::Type2(t) => {
                &&& b[0] == 2
                &&& t.header.partition_map_type == 2
                &&& t.header.partition_map_length == b[1]
                &&& t.reserved1@ == b.subrange(2, 4)
                &&& t.partition_type_identifier@ == b.subrange(4, 36)
            },
            PartitionMap::Other { header, data } => {
                &&& b[0] != 1
                &&& b[0] != 2
                &&& header.partition_map_type == b[0]
                &&& header.partition_map_length == b[1]
                &&& data@ == b.subrange(0, b[1] as int)
            },
        }
    }

    pub fn read(bytes: &[u8]) -> (r: Result<PartitionMap, UdfError>)
        ensures
            match r {
                Ok(m) => {
                    &&& spec_pm_read_err(bytes@) is None
                    &&& PartitionMap::spec_decodes(bytes@, m)
                    &&& m.wf()
                },
                Err(e) => spec_pm_read_err(bytes@) == Option::Some(e),
            },
    {
        if bytes.len() < 2 {
            return Err(UdfError::BufferTooSmall);
        }
        let map_type = bytes[0];
        let map_length = bytes[1];
        if bytes.len() < map_length as usize {
            return Err(UdfError::BufferTooSmall);
        }
        let header = GenericPartitionMapHeader {
            partition_map_type: map_type,
            partition_map_length: map_length,
        };
        if map_type == 1 {
            if map_length != 6 {
                return Err(UdfError::InvalidPartitionMap);
            }
            Ok(PartitionMap::Type1(Type1PartitionMap {
                header,
                volume_seq_number: read_le16(bytes, 2),
                partition_number: read_le16(bytes, 4),
            }))
        } else if map_type == 2 {
            if map_length != 64 {
                return Err(UdfError::InvalidPartitionMap);
            }
            Ok(PartitionMap::Type2(Type2PartitionMap {
                header,
                reserved1: read_bytes(bytes, 2, 2),
                partition_type_identifier: read_bytes(bytes, 4, 32),
            }))
        } else {
            let data = read_bytes(bytes, 0, map_length as usize);
            Ok(PartitionMap::Other { header, data })
        }
    }

    /// The stored length of the map entry in the table.
    pub fn get_length(&self) -> (r: u8)
        ensures
            r == match *self {
                PartitionMap::Type1(_) => 6u8,
                PartitionMap::Type2(_) => 64u8,
                PartitionMap::Other { header, .. } => header.partition_map_length,
            },
    {
        match self {
            PartitionMap::Type1(_) => 6,
            PartitionMap::Type2(_) => 64,
            PartitionMap::Other { header, .. } => header.partition_map_length,
        }
    }

    pub fn write(&self, bytes: &mut Vec<u8>, offset: usize) -> (r: Result<(), UdfError>)
        requires
            self.wf(),
        ensures
            match r {
                Ok(()) => {
                    &&& offset + self.spec_get_length() <= old(bytes)@.len()
                    &&& final(bytes)@.len() == old(bytes)@.len()
                    &&& (self.spec_get_length() >= 2 ==> PartitionMap::spec_decodes(
                        final(bytes)@.subrange(offset as int, old(bytes)@.len() as int),
                        *self,
                    ))
                    &&& forall|i: int|
                        0 <= i < old(bytes)@.len() && !(offset <= i < offset
                            + self.spec_get_length()) ==> final(bytes)@[i] == old(bytes)@[i]
                },
                Err(e) => {
                    &&& e == UdfError::BufferTooSmall
                    &&& offset + self.spec_get_length() > old(bytes)@.len()
                    &&& final(bytes)@ == old(bytes)@
                },
            },
    {
        let needed = self.get_length() as usize;
        if bytes.len() < needed || offset > bytes.len() - needed {
            return Err(UdfError::BufferTooSmall);
        }
        match self {
            PartitionMap::Type1(map) => {
                let mut enc: Vec<u8> = Vec::new();
                push_u8(&mut enc, map.header.partition_map_type);
                push_u8(&mut enc, map.header.partition_map_length);
                push_le16(&mut enc, map.volume_seq_number);
                push_le16(&mut enc, map.partition_number);
                copy_into(bytes, offset, enc.as_slice());
                proof {
                    let t = bytes@.subrange(offset as int, old(bytes)@.len() as int);
                    assert(t[0] == 1u8);
                    assert(le16_at(t, 2) == le16_at(enc@, 2));
                    assert(le16_at(t, 4) == le16_at(enc@, 4));
                }
                Ok(())
            },
            PartitionMap::Type2(map) => {
                let mut enc: Vec<u8> = Vec::new();
                push_u8(&mut enc, map.header.partition_map_type);
                push_u8(&mut enc, map.header.partition_map_length);
                push_bytes(&mut enc, map.reserved1.as_slice());
                push_bytes(&mut enc, map.partition_type_identifier.as_slice());
                let pad = zero_vec(28);
                push_bytes(&mut enc, pad.as_slice());
                copy_into(bytes, offset, enc.as_slice());
                proof {
                    let t = bytes@.subrange(offset as int, old(bytes)@.len() as int);
                    assert(t[0] == 2u8);
                    assert(t.subrange(2, 4) =~= map.reserved1@);
                    assert(t.subrange(4, 36) =~= map.partition_type_identifier@);
                }
                Ok(())
            },
            PartitionMap::Other { header, data } => {
                copy_into(bytes, offset, data.as_slice());
                proof {
                    let t = bytes@.subrange(offset as int, old(bytes)@.len() as int);
                    if data@.len() >= 2 {
                        assert(t.subrange(0, header.partition_map_length as int) =~= data@);
                        assert(t[0] == header.partition_map_type);
                        assert(t[1] == header.partition_map_length);
                    }
                }
                Ok(())
            },
        }
    }

    /// The stored length as a spec value.
    pub open spec fn spec_get_length(self) -> int {
        match self {
            PartitionMap::Type1(_) => 6,
            PartitionMap::Type2(_) => 64,
            PartitionMap::Other { header, .. } => header.partition_map_length as int,
        }
    }
}

} // verus!
