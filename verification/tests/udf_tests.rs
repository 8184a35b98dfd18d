use dvdromcopy::crc::cksum;
use dvdromcopy::osta;
use dvdromcopy::udf::AnchorVolumeDescriptorPointer;
use dvdromcopy::udf::DescriptorTag;
use dvdromcopy::udf::GenericPartitionMapHeader;
use dvdromcopy::udf::LogicalVolumeDescriptor;
use dvdromcopy::udf::PartitionMap;
use dvdromcopy::udf::PrimaryVolumeDescriptor;
use dvdromcopy::udf::Type1PartitionMap;
use dvdromcopy::udf_parser::parse_file_identifiers;
use dvdromcopy::udf_parser::tag_checksum;
use dvdromcopy::udf_parser::UdfParser;

#[test]
fn test_basic_example() {
    // The CRC of the three bytes 0x70 0x6A 0x77 is 0x3299.
    let crc = cksum(&[0x70, 0x6a, 0x77]);
    assert_eq!(crc, 0x3299);
}

#[test]
fn test_read_anchor() {
    // Create test data
    let mut data = vec![0u8; 512 * 257]; // Enough space for sector 256

    // Put an anchor volume descriptor at sector 256
    let mut anchor = AnchorVolumeDescriptorPointer::default();
    anchor.tag.tag_identifier = 2; // Anchor Volume Descriptor Pointer
    anchor.tag.descriptor_version = 2;
    anchor.write(&mut data, 512 * 256);
    // The stored tag checksum must match the tag bytes for the
    // validator to accept the anchor.
    let cs = tag_checksum(&data[512 * 256..]);
    data[512 * 256 + 4] = cs;

    let parser = UdfParser::new_with_sector_size(512, 0);
    let result = parser.read_anchor(&data[512 * 256..]);
    assert!(result.is_ok());

    let read_anchor = result.unwrap();
    assert_eq!(read_anchor.tag.tag_identifier, 2);
}

#[test]
fn test_osta_unicode() {
    let input = "Hello, 世界!";
    let encoded = osta::encode(input);
    let decoded = osta::decode(&encoded);
    assert_eq!(input, decoded);
}

#[test]
fn test_osta_ascii() {
    let input = "Hello, World!";
    let encoded = osta::encode(input);
    assert_eq!(encoded[0], 8); // Should use 8-bit compression
    let decoded = osta::decode(&encoded);
    assert_eq!(input, decoded);
}

#[test]
fn test_osta_unicode_empty() {
    let input = "";
    let encoded = osta::encode(input);
    let decoded = osta::decode(&encoded);
    assert_eq!(input, decoded);
}

#[test]
fn test_parse_file_identifiers() {
    // copied from a DVD
    let bytes: Vec<u8> = vec![
        1, 1, 2, 0, 200, 0, 0, 0, 71, 98, 24, 0, 3, 0, 0, 0, 1, 0, 10, 0, 0, 8, 0, 0, 2, 0, 0, 0,
        0, 0, 0, 0, 0, 0, 0, 0, 0, 0, 0, 0, 1, 1, 2, 0, 251, 0, 0, 0, 96, 116, 32, 0, 3, 0, 0, 0,
        1, 0, 2, 9, 0, 8, 0, 0, 4, 0, 0, 0, 0, 0, 0, 0, 0, 0, 0, 0, 0, 0, 8, 65, 85, 68, 73, 79,
        95, 84, 83, 0, 1, 1, 2, 0, 217, 0, 0, 0, 211, 223, 32, 0, 3, 0, 0, 0, 1, 0, 2, 9, 0, 8, 0,
        0, 6, 0, 0, 0, 0, 0, 0, 0, 0, 0, 0, 0, 0, 0, 8, 86, 73, 68, 69, 79, 95, 84, 83, 0,
    ];
    let result = parse_file_identifiers(&bytes).unwrap();
    assert_eq!(
        result
            .iter()
            .map(|entry| entry.file_identifier.to_string())
            .collect::<Vec<String>>(),
        vec!["", "AUDIO_TS", "VIDEO_TS"]
    );
}

#[test]
fn test_read_volume_structures() {
    // Create test data with minimal valid structures
    let mut data = vec![0u8; 512 * 1024]; // Enough space for all structures

    // Create an anchor at sector 256
    let mut anchor = AnchorVolumeDescriptorPointer::default();
    anchor.tag.tag_identifier = 2; // Anchor Volume Descriptor Pointer
    anchor.tag.descriptor_version = 2;
    anchor.main_volume_descriptor_sequence_location.location_sector = 512;
    anchor.main_volume_descriptor_sequence_location.length_bytes = 512 * 64;
    anchor.write(&mut data, 512 * 256);
    let cs = tag_checksum(&data[512 * 256..]);
    data[512 * 256 + 4] = cs;

    // Create a Primary Volume Descriptor
    let mut pvd = PrimaryVolumeDescriptor::default();
    pvd.tag.tag_identifier = 1;
    pvd.tag.descriptor_version = 2;
    osta::encode("TEST_VOLUME")
        .iter()
        .enumerate()
        .for_each(|(i, &b)| pvd.volume_identifier.0[i] = b);
    pvd.write(&mut data, 512 * 512);
    let cs = tag_checksum(&data[512 * 512..]);
    data[512 * 512 + 4] = cs;

    // Create a Logical Volume Descriptor
    let mut lvd = LogicalVolumeDescriptor::default();
    lvd.tag.tag_identifier = 6;
    lvd.tag.descriptor_version = 2;
    lvd.logical_block_size = 2048;
    // Add a partition map
    lvd.number_of_partition_maps = 1;
    lvd.map_table_length = 6;
    lvd.write(&mut data, 512 * 513);

    // Create a Type 1 Partition Map
    let mut pm = Type1PartitionMap::default();
    pm.header.partition_map_type = 1;
    pm.header.partition_map_length = 6;
    PartitionMap::Type1(pm).write(&mut data, 512 * 513 + 440).unwrap();
    let cs = tag_checksum(&data[512 * 513..]);
    data[512 * 513 + 4] = cs;

    // Create a terminating descriptor
    let mut term = DescriptorTag::default();
    term.tag_identifier = 8;
    term.write(&mut data, 512 * 514);
    let cs = tag_checksum(&data[512 * 514..]);
    data[512 * 514 + 4] = cs;

    // Create parser and read structures
    let parser = UdfParser::new_with_sector_size(512, 0);

    let anchor = parser.read_anchor(&data[512 * 256..]).unwrap();
    let main_loc = anchor.main_volume_descriptor_sequence_location.location_sector as usize;
    let main_len = anchor.main_volume_descriptor_sequence_location.length_bytes;
    let sectors = (main_len as usize + 511) / 512;
    let extent = &data[512 * main_loc..512 * main_loc + sectors * 512];
    let reserve: Vec<u8> = Vec::new();

    let result = parser.read_volume_structures(extent, main_len, &reserve, 0);
    assert!(result.is_ok());

    let structures = result.unwrap();
    let info = structures.volume_info();

    assert_eq!(info.identifier, "TEST_VOLUME");
    assert_eq!(info.logical_block_size, 2048);
}

#[test]
fn partition_map_type1_round_trip() {
    let pm = PartitionMap::Type1(Type1PartitionMap {
        header: GenericPartitionMapHeader {
            partition_map_type: 1,
            partition_map_length: 6,
        },
        volume_seq_number: 7,
        partition_number: 3,
    });
    let mut buf = vec![0u8; 16];
    pm.write(&mut buf, 0).unwrap();
    assert_eq!(buf[0], 1);
    assert_eq!(buf[1], 6);
    let back = PartitionMap::read(&buf[0..6]).unwrap();
    match back {
        PartitionMap::Type1(t) => {
            assert_eq!(t.volume_seq_number, 7);
            assert_eq!(t.partition_number, 3);
        }
        _ => panic!("expected a type 1 partition map"),
    }
}
