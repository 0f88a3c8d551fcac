use blend_file_reader::blend_file::BlendFile;
use std::io::Write;
use blend_file_reader::error::BlendFileError;
use blend_file_reader::header::{Endianness, PointerSize};
use blend_file_reader::library_link::{LibraryLink, LibraryLinkExtractor};

fn push_block(out: &mut Vec<u8>, code: &[u8; 4], addr: u64, sdna: u32, count: u32, payload: &[u8]) {
    out.extend_from_slice(code);
    out.extend_from_slice(&(payload.len() as u32).to_le_bytes());
    out.extend_from_slice(&addr.to_le_bytes());
    out.extend_from_slice(&sdna.to_le_bytes());
    out.extend_from_slice(&count.to_le_bytes());
    out.extend_from_slice(payload);
}

fn sample_file() -> Vec<u8> {
    let mut out = Vec::new();
    out.extend_from_slice(b"BLENDER-v279");
    push_block(&mut out, b"LI\0\0", 0x1000, 0, 1, &[0u8; 160]);
    push_block(&mut out, b"IM\0\0", 0x2000, 1, 1, &[0u8; 120]);
    push_block(&mut out, b"SO\0\0", 0x3000, 2, 1, &[0u8; 110]);
    // the terminator tag and the catalog bytes after it are preserved opaquely
    out.extend_from_slice(b"DNA1");
    out.extend_from_slice(&[9, 9, 9, 9]);
    out
}

#[test]
fn test_path_resolution() {
    let extractor = LibraryLinkExtractor::new("/home/user/project/scene.blend");

    let mut links = vec![
        LibraryLink {
            path: "textures/wood.jpg".to_string(),
            absolute_path: None,
            block_type: "Image".to_string(),
            block_name: None,
            is_relative: true,
        },
        LibraryLink {
            path: "/absolute/path/texture.jpg".to_string(),
            absolute_path: None,
            block_type: "Image".to_string(),
            block_name: None,
            is_relative: false,
        },
    ];

    extractor.resolve_relative_paths(&mut links).unwrap();

    assert_eq!(
        links[0].absolute_path,
        Some("/home/user/project/textures/wood.jpg".to_string())
    );
    assert_eq!(links[1].absolute_path, None);
}

#[test]
fn test_open_parses_header_and_blocks() {
    let bytes = sample_file();
    let bf = BlendFile::from_bytes("test.blend", &bytes, false).unwrap();

    assert_eq!(bf.header.magic, *b"BLENDER");
    assert_eq!(bf.header.pointer_size, PointerSize::Bits64);
    assert_eq!(bf.header.endianness, Endianness::Little);
    assert_eq!(bf.header.version, 279);
    assert_eq!(bf.blocks.len(), 3);
    assert_eq!(bf.blocks[0].code, *b"LI\0\0");
    assert_eq!(bf.blocks[0].size, 160);
    assert_eq!(bf.blocks[1].code, *b"IM\0\0");
    // the terminator tag and what follows it are kept verbatim
    assert_eq!(bf.catalog, b"DNA1\x09\x09\x09\x09");
    assert!(!bf.is_compressed());
}

#[test]
fn test_truncated_stream_fails() {
    let mut out = Vec::new();
    out.extend_from_slice(b"BLENDER-v279");
    // a block that declares 100 payload bytes but provides only 10
    push_block(&mut out, b"LI\0\0", 0x1000, 0, 1, &[0u8; 100]);
    out.truncate(12 + 24 + 10);

    let result = BlendFile::from_bytes("trunc.blend", &out, false);
    assert!(matches!(result, Err(BlendFileError::IoError(_))));
}

#[test]
fn test_incomplete_file_fails() {
    let result = BlendFile::from_bytes("short.blend", b"BLENDER-v279RENDH", false);
    assert!(result.is_err());
}

#[test]
fn test_invalid_file_fails() {
    let result = BlendFile::from_bytes("bad.blend", b"INVALID FILE", false);
    assert!(result.is_err());
}

#[test]
fn test_block_lookup_immutable_and_by_index_agree() {
    let bytes = sample_file();
    let bf = BlendFile::from_bytes("test.blend", &bytes, false).unwrap();

    let by_ref = bf.get_blocks_by_type(b"LI");
    assert_eq!(by_ref.len(), 1);
    assert_eq!(&by_ref[0].code[..2], b"LI");

    let by_idx = bf.get_blocks_by_type_indices(b"LI");
    assert_eq!(by_idx.len(), 1);
    assert_eq!(&bf.blocks[by_idx[0]].code[..2], b"LI");

    let images = bf.get_image_blocks();
    assert_eq!(images.len(), 1);
    assert_eq!(&images[0].code[..2], b"IM");

    let sounds = bf.get_sound_blocks();
    assert_eq!(sounds.len(), 1);
    assert_eq!(&sounds[0].code[..2], b"SO");

    assert_eq!(bf.get_mesh_blocks().len(), 0);
    assert_eq!(bf.get_material_blocks().len(), 0);
    assert_eq!(bf.get_texture_blocks().len(), 0);
    assert_eq!(bf.get_movie_clip_blocks().len(), 0);
}

#[test]
fn test_save_round_trips_bytes() {
    let bytes = sample_file();
    let bf = BlendFile::from_bytes("test.blend", &bytes, true).unwrap();
    let saved = bf.save_to_bytes().unwrap();
    assert_eq!(saved, bytes);
}

#[test]
fn test_save_rejected_when_read_only() {
    let bytes = sample_file();
    let bf = BlendFile::from_bytes("test.blend", &bytes, false).unwrap();
    match bf.save_to_bytes() {
        Err(BlendFileError::IoError(m)) => assert_eq!(m, "File not opened in write mode"),
        other => panic!("expected a mode error, got {other:?}"),
    }
}

#[test]
fn test_close_makes_session_read_only() {
    let bytes = sample_file();
    let mut bf = BlendFile::from_bytes("test.blend", &bytes, true).unwrap();
    assert!(bf.save_to_bytes().is_ok());
    bf.close();
    assert!(bf.save_to_bytes().is_err());
}

#[test]
fn test_set_string_field_save_reopen() {
    let bytes = sample_file();
    let mut bf = BlendFile::from_bytes("test.blend", &bytes, true).unwrap();

    let idxs = bf.get_blocks_by_type_indices(b"LI");
    assert_eq!(idxs.len(), 1);
    bf.blocks[idxs[0]].set_string_field("name", "//new_library_path.blend").unwrap();

    let saved = bf.save_to_bytes().unwrap();
    let reopened = BlendFile::from_bytes("test.blend", &saved, false).unwrap();
    let again = reopened.get_library_blocks();
    assert_eq!(again.len(), 1);
    assert_eq!(again[0].get_string_field("name").unwrap(), "//new_library_path.blend");
}

#[test]
fn test_zstd_compressed_parses_identically() {
    let bytes = sample_file();
    let compressed = zstd::stream::encode_all(bytes.as_slice(), 0).unwrap();
    assert_eq!(&compressed[..4], &[0x28, 0xB5, 0x2F, 0xFD]);

    let plain = BlendFile::from_bytes("plain.blend", &bytes, false).unwrap();
    let packed = BlendFile::from_bytes("packed.blend", &compressed, false).unwrap();

    assert!(packed.is_compressed());
    assert_eq!(plain.header.version, packed.header.version);
    assert_eq!(plain.blocks.len(), packed.blocks.len());
    for (a, b) in plain.blocks.iter().zip(packed.blocks.iter()) {
        assert_eq!(a.code, b.code);
        assert_eq!(a.size, b.size);
        assert_eq!(a.old_memory_address, b.old_memory_address);
        assert_eq!(a.data, b.data);
    }
    assert_eq!(plain.catalog, packed.catalog);
}

#[test]
fn test_zlib_compressed_parses_identically() {
    let bytes = sample_file();
    let mut encoder = flate2::write::ZlibEncoder::new(Vec::new(), flate2::Compression::default());
    encoder.write_all(&bytes).unwrap();
    let compressed = encoder.finish().unwrap();
    assert_eq!(compressed[0], 0x78);

    let plain = BlendFile::from_bytes("plain.blend", &bytes, false).unwrap();
    let packed = BlendFile::from_bytes("packed.blend", &compressed, false).unwrap();
    assert!(packed.is_compressed());
    assert_eq!(plain.blocks.len(), packed.blocks.len());
    assert_eq!(plain.catalog, packed.catalog);
}

#[test]
fn test_gzip_compressed_parses_identically() {
    let bytes = sample_file();
    let mut encoder = flate2::write::GzEncoder::new(Vec::new(), flate2::Compression::default());
    encoder.write_all(&bytes).unwrap();
    let compressed = encoder.finish().unwrap();
    // the sniffer requires the fixed four-byte gzip signature
    assert_eq!(&compressed[..4], &[0x1F, 0x8B, 0x08, 0x00]);

    let plain = BlendFile::from_bytes("plain.blend", &bytes, false).unwrap();
    let packed = BlendFile::from_bytes("packed.blend", &compressed, false).unwrap();
    assert!(packed.is_compressed());
    assert_eq!(plain.blocks.len(), packed.blocks.len());
    assert_eq!(plain.catalog, packed.catalog);
}

#[test]
fn test_library_links_from_container() {
    let mut payload = vec![0u8; 200];
    // a library block carries its file path at payload offset 144
    let path = b"//assets/tree.blend";
    payload[144..144 + path.len()].copy_from_slice(path);

    let mut out = Vec::new();
    out.extend_from_slice(b"BLENDER-v279");
    push_block(&mut out, b"LI\0\0", 0x1000, 0, 1, &payload);
    out.extend_from_slice(b"DNA1");

    let bf = BlendFile::from_bytes("/home/user/project/scene.blend", &out, false).unwrap();
    let links = bf.get_library_links().unwrap();
    assert_eq!(links.len(), 1);
    assert_eq!(links[0].path, "//assets/tree.blend");
    assert_eq!(links[0].block_type, "Library");
    assert!(links[0].is_relative);
    assert_eq!(
        links[0].absolute_path,
        Some("//assets/tree.blend".to_string())
    );
}
