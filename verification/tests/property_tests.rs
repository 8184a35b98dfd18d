use dvdromcopy::cache::Cache;
use dvdromcopy::crc::cksum;
use dvdromcopy::logical_block_reader::long_ad_to_sector_number;
use dvdromcopy::logical_block_reader::short_ad_to_pos_in_partition;
use dvdromcopy::osta;
use dvdromcopy::udf::DescriptorTag;
use dvdromcopy::udf::Dstring;
use dvdromcopy::udf::ExtentType;
use dvdromcopy::udf::FileEntry;
use dvdromcopy::udf::FileIdentifierDescriptor;
use dvdromcopy::udf::FileSetDescriptor;
use dvdromcopy::udf::LbAddr;
use dvdromcopy::udf::LogicalVolumeDescriptor;
use dvdromcopy::udf::LongAd;
use dvdromcopy::udf::PartitionDescriptor;
use dvdromcopy::udf::PartitionMap;
use dvdromcopy::udf::ShortAllocationDescriptor;
use dvdromcopy::udf::Timestamp;
use dvdromcopy::udf_high_level::PartitionTable;
use dvdromcopy::udf_high_level::VolumeStructures;
use dvdromcopy::udf_parser::classify_entry;
use dvdromcopy::udf_parser::read_directory_contents;
use dvdromcopy::udf_parser::read_file_entries;
use dvdromcopy::udf_parser::read_short_allocation_descriptors;
use dvdromcopy::udf_parser::tag_checksum;
use dvdromcopy::udf_parser::validate_descriptor_tag;
use dvdromcopy::udf_parser::EntryAction;
use dvdromcopy::udf_parser::FsdScanStep;
use dvdromcopy::udf_parser::UdfParser;
use dvdromcopy::UdfError;

#[test]
fn tag_codec_round_trip() {
    let tag = DescriptorTag {
        tag_identifier: 261,
        descriptor_version: 3,
        tag_checksum: 0xAB,
        _reserved: 0,
        tag_serial_number: 7,
        descriptor_crc: 0x1234,
        descriptor_crc_length: 500,
        tag_location: 0xDEADBEEF,
    };
    let enc = tag.encode();
    assert_eq!(enc.len(), 16);
    let back = DescriptorTag::read(&enc);
    assert_eq!(back.tag_identifier, 261);
    assert_eq!(back.descriptor_version, 3);
    assert_eq!(back.tag_checksum, 0xAB);
    assert_eq!(back.tag_serial_number, 7);
    assert_eq!(back.descriptor_crc, 0x1234);
    assert_eq!(back.descriptor_crc_length, 500);
    assert_eq!(back.tag_location, 0xDEADBEEF);
}

#[test]
fn timestamp_codec_round_trip() {
    let ts = Timestamp {
        type_and_timezone: 0x121C,
        year: 2004,
        month: 7,
        day: 22,
        hour: 23,
        minute: 59,
        second: 58,
        centiseconds: 9,
        hundreds_of_microseconds: 8,
        microseconds: 7,
    };
    let enc = ts.encode();
    let back = Timestamp::read(&enc);
    assert_eq!(back.year, 2004);
    assert_eq!(back.month, 7);
    assert_eq!(back.day, 22);
    assert_eq!(back.type_and_timezone, 0x121C);
    assert_eq!(back.microseconds, 7);
}

#[test]
fn file_entry_codec_round_trip() {
    let mut fe = FileEntry::default();
    fe.tag.tag_identifier = 261;
    fe.uid = 1000;
    fe.gid = 2000;
    fe.information_length = 0x1_0000_0001;
    fe.length_of_allocation_descriptors = 8;
    fe.allocation_descriptors = vec![0, 8, 0, 0, 5, 0, 0, 0];
    let enc = fe.encode();
    assert_eq!(enc.len(), 176 + 8);
    let back = FileEntry::read(&enc);
    assert_eq!(back.uid, 1000);
    assert_eq!(back.gid, 2000);
    assert_eq!(back.information_length, 0x1_0000_0001);
    assert_eq!(back.length_of_allocation_descriptors, 8);
    assert_eq!(back.allocation_descriptors, vec![0, 8, 0, 0, 5, 0, 0, 0]);
}

#[test]
fn checksum_rejects_bit_flip() {
    let mut buf = vec![0u8; 512];
    let mut tag = DescriptorTag::default();
    tag.tag_identifier = 2;
    tag.descriptor_version = 2;
    tag.tag_location = 256;
    tag.write(&mut buf, 0);
    buf[4] = tag_checksum(&buf);
    let good = DescriptorTag::read(&buf);
    assert!(validate_descriptor_tag(&good, &buf));
    // Flip one bit of a covered byte: the validator must reject.
    for (i, bit) in [(0usize, 0u32), (2, 3), (12, 7), (15, 1)] {
        let mut bad = buf.clone();
        bad[i] ^= 1 << bit;
        let tag = DescriptorTag::read(&bad);
        assert!(!validate_descriptor_tag(&tag, &bad));
    }
}

#[test]
fn crc_of_empty_is_zero() {
    assert_eq!(cksum(&[]), 0);
}

#[test]
fn osta_mixed_bmp_uses_16_bit() {
    let input = "Hello, 世界!";
    let encoded = osta::encode(input);
    assert_eq!(encoded[0], 16);
    assert_eq!(*encoded.last().unwrap(), 0);
    assert_eq!(osta::decode(&encoded), input);
}

#[test]
fn osta_ascii_terminated() {
    let encoded = osta::encode("Hello, World!");
    assert_eq!(encoded[0], 8);
    assert_eq!(*encoded.last().unwrap(), 0);
    assert_eq!(encoded.len(), 1 + 13 + 1);
}

#[test]
fn dstring_round_trip() {
    let d: Dstring<32> = Dstring::from_str("MOVIE_DISC");
    assert_eq!(d.to_string(), "MOVIE_DISC");
}

#[test]
fn cache_coherence_and_eviction() {
    // Two slots.
    let mut cache = Cache::new(2 * 2048);
    assert_eq!(cache.capacity_blocks(), 2);
    let a = vec![0xAAu8; 2048];
    let b = vec![0xBBu8; 2048];
    let c = vec![0xCCu8; 2048];
    assert!(cache.read_block(10).is_none());
    cache.install_block(10, &a);
    cache.install_block(11, &b);
    // Both blocks read back exactly what was installed.
    assert_eq!(cache.read_block(11).unwrap(), b);
    assert_eq!(cache.read_block(10).unwrap(), a);
    // 10 is now most recently used; a miss under full occupancy must
    // evict exactly the least recently used block, which is 11.
    cache.install_block(12, &c);
    assert!(cache.read_block(11).is_none());
    assert_eq!(cache.read_block(10).unwrap(), a);
    assert_eq!(cache.read_block(12).unwrap(), c);
}

#[test]
fn cache_read_exact_splits_blocks() {
    let mut cache = Cache::new(4 * 2048);
    let block0: Vec<u8> = (0..2048).map(|i| (i % 251) as u8).collect();
    let block1: Vec<u8> = (0..2048).map(|i| ((i + 7) % 251) as u8).collect();
    // A miss names the block that must be fetched.
    let mut out: Vec<u8> = Vec::new();
    assert_eq!(cache.read_exact_step(2040, 16, &mut out), Some(0));
    cache.install_block(0, &block0);
    assert_eq!(cache.read_exact_step(2040, 16, &mut out), None);
    assert_eq!(out.len(), 8);
    assert_eq!(cache.read_exact_step(2040, 16, &mut out), Some(1));
    cache.install_block(1, &block1);
    assert_eq!(cache.read_exact_step(2040, 16, &mut out), None);
    assert_eq!(out.len(), 16);
    assert_eq!(&out[0..8], &block0[2040..2048]);
    assert_eq!(&out[8..16], &block1[0..8]);
}

#[test]
fn address_resolution_formula() {
    let mut lvd = LogicalVolumeDescriptor::default();
    lvd.logical_block_size = 2048;
    let mut pd = PartitionDescriptor::default();
    pd.partition_number = 1;
    pd.partition_starting_location = 100;
    let mut table = PartitionTable::new();
    table.insert(pd);
    let long_ad = LongAd {
        extent_length_and_type: 2048,
        extent_location: LbAddr {
            logical_block_number: 5,
            partition_reference_number: 1,
        },
        implementation_use: vec![0; 6],
    };
    // 100 + 5 * 2048 / 2048 == 105
    assert_eq!(long_ad_to_sector_number(&lvd, &table, &long_ad), Some(105));
    // A partition not in the table resolves to nothing.
    let missing = LongAd {
        extent_length_and_type: 2048,
        extent_location: LbAddr {
            logical_block_number: 5,
            partition_reference_number: 2,
        },
        implementation_use: vec![0; 6],
    };
    assert_eq!(long_ad_to_sector_number(&lvd, &table, &missing), None);
}

#[test]
fn partition_table_last_writer_wins() {
    let mut early = PartitionDescriptor::default();
    early.partition_number = 1;
    early.partition_starting_location = 50;
    let mut late = PartitionDescriptor::default();
    late.partition_number = 1;
    late.partition_starting_location = 99;
    let mut table = PartitionTable::new();
    table.insert(early);
    table.insert(late);
    assert_eq!(table.get(1).unwrap().partition_starting_location, 99);
    assert!(table.get(2).is_none());
}

#[test]
fn short_ad_position_and_fields() {
    let mut lvd = LogicalVolumeDescriptor::default();
    lvd.logical_block_size = 2048;
    let sad = ShortAllocationDescriptor {
        extent_length_and_type: 0x4000_0800,
        extent_location: 12,
    };
    assert_eq!(short_ad_to_pos_in_partition(&lvd, &sad), 12 * 2048);
    assert_eq!(sad.extent_length_bytes(), 0x800);
    assert!(matches!(sad.extent_type(), ExtentType::NotRecordedAllocated));
}

#[test]
fn short_allocation_descriptor_chunks() {
    // Two descriptors and a trailing fragment, which is ignored.
    let bytes: Vec<u8> = vec![
        0, 8, 0, 0, 5, 0, 0, 0, //
        0, 16, 0, 0, 9, 0, 0, 0, //
        1, 2, 3,
    ];
    let ads = read_short_allocation_descriptors(&bytes);
    assert_eq!(ads.len(), 2);
    assert_eq!(ads[0].extent_length_and_type, 0x800);
    assert_eq!(ads[0].extent_location, 5);
    assert_eq!(ads[1].extent_length_and_type, 0x1000);
    assert_eq!(ads[1].extent_location, 9);
}

#[test]
fn traversal_never_descends_into_parent() {
    let mut parent = FileIdentifierDescriptor::default();
    // Both the directory and the parent characteristic set: the parent
    // link wins and is skipped.
    parent.file_characteristics = 0x08 | 0x02;
    assert_eq!(classify_entry(&parent), EntryAction::SkipParent);
    let mut dir = FileIdentifierDescriptor::default();
    dir.file_characteristics = 0x02;
    assert_eq!(classify_entry(&dir), EntryAction::Descend);
    let file = FileIdentifierDescriptor::default();
    assert_eq!(classify_entry(&file), EntryAction::CopyFile);
}

#[test]
fn icb_walk_stops_at_unrecorded_block() {
    let zeros = vec![0u8; 2048];
    let entries = read_file_entries(&zeros).unwrap();
    assert!(entries.is_empty());
}

#[test]
fn icb_walk_reads_a_file_entry() {
    let mut buf = vec![0u8; 2048];
    let mut fe = FileEntry::default();
    fe.tag.tag_identifier = 261;
    fe.information_length = 4096;
    fe.write(&mut buf, 0);
    buf[4] = tag_checksum(&buf);
    let entries = read_file_entries(&buf).unwrap();
    assert_eq!(entries.len(), 1);
    assert_eq!(entries[0].information_length, 4096);
}

#[test]
fn icb_walk_rejects_indirect_and_unknown() {
    // An indirect entry (tag 259) is not followed: clear diagnostic.
    let mut buf = vec![0u8; 2048];
    let mut tag = DescriptorTag::default();
    tag.tag_identifier = 259;
    tag.write(&mut buf, 0);
    buf[4] = tag_checksum(&buf);
    assert!(matches!(
        read_file_entries(&buf),
        Err(UdfError::InvalidDescriptorTag)
    ));
    // An unknown identifier in an ICB is fatal.
    let mut buf2 = vec![0u8; 2048];
    let mut tag2 = DescriptorTag::default();
    tag2.tag_identifier = 9;
    tag2.write(&mut buf2, 0);
    buf2[4] = tag_checksum(&buf2);
    assert!(matches!(
        read_file_entries(&buf2),
        Err(UdfError::InvalidDescriptorTag)
    ));
}

#[test]
fn icb_walk_rejects_bad_checksum() {
    let mut buf = vec![0u8; 2048];
    let mut tag = DescriptorTag::default();
    tag.tag_identifier = 261;
    tag.write(&mut buf, 0);
    // The stored checksum stays zero while the computed one is not.
    assert!(matches!(
        read_file_entries(&buf),
        Err(UdfError::InvalidDescriptorTag)
    ));
}

#[test]
fn partition_map_read_errors() {
    // A type 1 map must be 6 bytes long.
    let bad_len: Vec<u8> = vec![1, 5, 0, 0, 0, 0, 0, 0];
    assert!(matches!(
        PartitionMap::read(&bad_len),
        Err(UdfError::InvalidPartitionMap)
    ));
    // A buffer shorter than the header is too small.
    let short: Vec<u8> = vec![1];
    assert!(matches!(
        PartitionMap::read(&short),
        Err(UdfError::BufferTooSmall)
    ));
    // A buffer shorter than the stored length is too small.
    let truncated: Vec<u8> = vec![1, 6, 0, 0];
    assert!(matches!(
        PartitionMap::read(&truncated),
        Err(UdfError::BufferTooSmall)
    ));
}

#[test]
fn lvd_map_table_length_mismatch() {
    // An LVD whose map table ends short of map_table_length is invalid.
    let mut buf = vec![0u8; 2048];
    let mut lvd = LogicalVolumeDescriptor::default();
    lvd.tag.tag_identifier = 6;
    lvd.logical_block_size = 2048;
    lvd.number_of_partition_maps = 1;
    lvd.map_table_length = 10; // the single 6-byte map ends at 6, not 10
    lvd.write(&mut buf, 0);
    buf[440] = 1; // type 1
    buf[441] = 6; // length 6
    buf[4] = tag_checksum(&buf);
    let parser = UdfParser::new();
    assert!(matches!(
        parser.read_logical_volume_descriptor(&buf),
        Err(UdfError::InvalidPartitionMap)
    ));
}

#[test]
fn fileset_descriptor_scan_steps() {
    let parser = UdfParser::new();
    // A sector holding a file set descriptor.
    let mut buf = vec![0u8; 2048];
    let mut fsd = FileSetDescriptor::default();
    fsd.tag.tag_identifier = 256;
    fsd.file_set_number = 3;
    fsd.write(&mut buf, 0);
    buf[4] = tag_checksum(&buf);
    match parser.read_fileset_descriptor_sector(&buf).unwrap() {
        FsdScanStep::FileSet(f) => assert_eq!(f.file_set_number, 3),
        _ => panic!("expected a file set descriptor"),
    }
    // A sector holding a terminating descriptor ends the sequence.
    let mut term = vec![0u8; 2048];
    let mut tag = DescriptorTag::default();
    tag.tag_identifier = 8;
    tag.write(&mut term, 0);
    term[4] = tag_checksum(&term);
    assert!(matches!(
        parser.read_fileset_descriptor_sector(&term).unwrap(),
        FsdScanStep::Terminator
    ));
    // A corrupt tag is rejected.
    let mut bad = vec![0u8; 2048];
    let mut tag2 = DescriptorTag::default();
    tag2.tag_identifier = 8;
    tag2.write(&mut bad, 0);
    // stored checksum left at zero
    assert!(matches!(
        parser.read_fileset_descriptor_sector(&bad),
        Err(UdfError::InvalidDescriptorTag)
    ));
}

#[test]
fn volume_info_application_id() {
    let mut pvd = dvdromcopy::udf::PrimaryVolumeDescriptor::default();
    let name = b"DVDTOOL";
    for (i, &b) in name.iter().enumerate() {
        pvd.application_identifier.identifier[i] = b;
    }
    let vs = VolumeStructures {
        primary_volume: pvd,
        logical_volume: LogicalVolumeDescriptor::default(),
        partition_maps: Vec::new(),
        partition_descriptors: PartitionTable::new(),
    };
    let info = vs.volume_info();
    assert_eq!(info.application_id, "DVDTOOL");
    assert_eq!(info.identifier, "");
}

#[test]
fn directory_contents_concatenates_extents() {
    let mut fid = FileIdentifierDescriptor::default();
    fid.tag.tag_identifier = 257;
    fid.length_of_file_identifier = 4;
    fid.file_identifier = dvdromcopy::udf::DynamicDstring(vec![8, b'A', b'B', b'C']);
    let mut buf = vec![0u8; 64];
    fid.write(&mut buf, 0);
    let bufs = vec![buf.clone(), buf];
    let fids = read_directory_contents(&bufs).unwrap();
    assert_eq!(fids.len(), 2);
    assert_eq!(fids[0].file_identifier.to_string(), "ABC");
    assert_eq!(fids[1].file_identifier.to_string(), "ABC");
}

#[test]
fn anchor_rejected_when_sector_is_not_an_anchor() {
    let parser = UdfParser::new_with_sector_size(512, 0);
    // A zeroed sector has a consistent checksum but no anchor
    // identifier, so it is rejected.
    let zeroed = vec![0u8; 512];
    assert!(matches!(
        parser.read_anchor(&zeroed),
        Err(UdfError::InvalidDescriptorTag)
    ));
    // A sector with a corrupted checksum is rejected too.
    let mut bad = vec![0u8; 512];
    bad[0] = 2;
    assert!(matches!(
        parser.read_anchor(&bad),
        Err(UdfError::InvalidDescriptorTag)
    ));
}

#[test]
fn volume_structures_fall_back_to_reserve_sequence() {
    // The main sequence is zeroed; the reserve holds a valid
    // PVD + PD + LVD + terminator, so discovery succeeds from it.
    let mut reserve = vec![0u8; 2048 * 8];

    let mut pvd = dvdromcopy::udf::PrimaryVolumeDescriptor::default();
    pvd.tag.tag_identifier = 1;
    osta::encode("TEST_VOLUME")
        .iter()
        .enumerate()
        .for_each(|(i, &b)| pvd.volume_identifier.0[i] = b);
    pvd.write(&mut reserve, 0);
    reserve[4] = tag_checksum(&reserve);

    let mut pd = PartitionDescriptor::default();
    pd.tag.tag_identifier = 5;
    pd.partition_number = 0;
    pd.partition_starting_location = 300;
    pd.write(&mut reserve, 2048);

    let mut lvd = LogicalVolumeDescriptor::default();
    lvd.tag.tag_identifier = 6;
    lvd.logical_block_size = 2048;
    lvd.number_of_partition_maps = 1;
    lvd.map_table_length = 6;
    lvd.write(&mut reserve, 2 * 2048);
    reserve[2 * 2048 + 440] = 1; // type 1 map
    reserve[2 * 2048 + 441] = 6;
    let cs = tag_checksum(&reserve[2 * 2048..]);
    reserve[2 * 2048 + 4] = cs;

    let mut term = DescriptorTag::default();
    term.tag_identifier = 8;
    term.write(&mut reserve, 3 * 2048);
    let cs = tag_checksum(&reserve[3 * 2048..]);
    reserve[3 * 2048 + 4] = cs;

    let main = vec![0u8; 2048 * 8];
    let parser = UdfParser::new();
    let vs = parser
        .read_volume_structures(&main, 2048 * 8, &reserve, 2048 * 8)
        .unwrap();
    let info = vs.volume_info();
    assert_eq!(info.identifier, "TEST_VOLUME");
    assert_eq!(info.logical_block_size, 2048);
    assert_eq!(
        vs.partition_descriptors.get(0).unwrap().partition_starting_location,
        300
    );
}
