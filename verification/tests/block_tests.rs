use blend_file_reader::block::Block;
use blend_file_reader::header::{Endianness, Header, PointerSize};

fn little_64_header() -> Header {
    Header {
        magic: *b"BLENDER",
        pointer_size: PointerSize::Bits64,
        endianness: Endianness::Little,
        version: 279,
    }
}

#[test]
fn test_block_creation() {
    let mut data = vec![
        b'L', b'I', b'\0', b'\0', // code
        100, 0, 0, 0, // size (little-endian)
        0x10, 0x00, 0x00, 0x00, 0x00, 0x00, 0x00, 0x00, // address (64-bit)
        0, 0, 0, 0, // sdna_index
        1, 0, 0, 0, // count
    ];
    data.extend(vec![0u8; 100]); // Add 100 bytes of data

    let header = little_64_header();

    let mut pos = 0usize;
    let block = Block::from_reader(&data, &mut pos, &header).unwrap().unwrap();

    assert_eq!(block.code, *b"LI\0\0");
    assert_eq!(block.size, 100);
    assert_eq!(block.old_memory_address, 0x10);
    assert_eq!(block.sdna_index, 0);
    assert_eq!(block.count, 1);
    assert_eq!(block.data.len(), 100);
}

#[test]
fn test_block_type_checking() {
    let block = Block {
        code: *b"LI\0\0",
        size: 100,
        old_memory_address: 0x1000,
        sdna_index: 0,
        count: 1,
        data_offset: 100,
        data: vec![0; 100],
    };

    assert!(block.is_library());
    assert!(!block.is_image());
    assert!(!block.is_sound());
    assert!(!block.is_movie_clip());

    let block = Block {
        code: *b"IM\0\0",
        size: 200,
        old_memory_address: 0x2000,
        sdna_index: 1,
        count: 1,
        data_offset: 200,
        data: vec![0; 200],
    };

    assert!(!block.is_library());
    assert!(block.is_image());
    assert!(!block.is_sound());
    assert!(!block.is_movie_clip());
}

#[test]
fn test_block_serialize_parse_identity() {
    let block = Block {
        code: *b"LI\0\0",
        size: 100,
        old_memory_address: 0x1000,
        sdna_index: 0,
        count: 1,
        data_offset: 0,
        data: vec![0; 100],
    };
    let header = little_64_header();
    let mut out = Vec::new();
    block.write_to_writer(&mut out, &header);
    assert_eq!(out.len(), 24 + 100);

    let mut pos = 0usize;
    let parsed = Block::from_reader(&out, &mut pos, &header).unwrap().unwrap();
    assert_eq!(parsed.code, block.code);
    assert_eq!(parsed.size, block.size);
    assert_eq!(parsed.old_memory_address, block.old_memory_address);
    assert_eq!(parsed.sdna_index, block.sdna_index);
    assert_eq!(parsed.count, block.count);
    assert_eq!(parsed.data, block.data);
    assert_eq!(pos, out.len());
}

#[test]
fn test_big_endian_block_round_trip() {
    let header = Header {
        magic: *b"BLENDER",
        pointer_size: PointerSize::Bits32,
        endianness: Endianness::Big,
        version: 279,
    };
    let block = Block {
        code: *b"ME\0\0",
        size: 3,
        old_memory_address: 0xABCD,
        sdna_index: 7,
        count: 2,
        data_offset: 0,
        data: vec![1, 2, 3],
    };
    let mut out = Vec::new();
    block.write_to_writer(&mut out, &header);
    assert_eq!(out.len(), 20 + 3);
    // the size field is big-endian
    assert_eq!(&out[4..8], &[0, 0, 0, 3]);

    let mut pos = 0usize;
    let parsed = Block::from_reader(&out, &mut pos, &header).unwrap().unwrap();
    assert_eq!(parsed.size, 3);
    assert_eq!(parsed.old_memory_address, 0xABCD);
    assert_eq!(parsed.count, 2);
    assert_eq!(parsed.data, vec![1, 2, 3]);
}

#[test]
fn test_string_field_round_trip() {
    let mut block = Block {
        code: *b"LI\0\0",
        size: 40,
        old_memory_address: 0,
        sdna_index: 0,
        count: 1,
        data_offset: 0,
        data: vec![7; 40],
    };
    block.set_string_field("name", "hello").unwrap();
    assert_eq!(block.get_string_field("name").unwrap(), "hello");
    // a value longer than the payload is truncated, never grown
    block.set_string_field("name", &"x".repeat(64)).unwrap();
    assert_eq!(block.data.len(), 40);
    assert_eq!(block.get_string_field("name").unwrap(), "x".repeat(40));
}

#[test]
fn test_float_array_field_bits_round_trip() {
    let mut block = Block {
        code: *b"OB\0\0",
        size: 12,
        old_memory_address: 0,
        sdna_index: 0,
        count: 1,
        data_offset: 0,
        data: vec![0; 12],
    };
    let values = [10.0f32.to_bits(), 20.0f32.to_bits(), 30.0f32.to_bits(), 40.0f32.to_bits()];
    // the fourth slot overruns the 12-byte payload and is skipped
    block.set_float_array_field_bits("loc", &values).unwrap();
    assert_eq!(block.data.len(), 12);

    let bits = block.get_float_array_field_bits("loc", 4).unwrap();
    assert_eq!(f32::from_bits(bits[0]), 10.0);
    assert_eq!(f32::from_bits(bits[1]), 20.0);
    assert_eq!(f32::from_bits(bits[2]), 30.0);
    // a slot beyond the payload reads back as 0.0
    assert_eq!(f32::from_bits(bits[3]), 0.0);
}

#[test]
fn test_get_type_name_decodes_code() {
    let block = Block {
        code: *b"MESH",
        size: 0,
        old_memory_address: 0,
        sdna_index: 0,
        count: 0,
        data_offset: 0,
        data: vec![],
    };
    assert_eq!(block.get_type_name(), "MESH");
}
