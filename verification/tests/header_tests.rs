use blend_file_reader::error::BlendFileError;
use blend_file_reader::header::{Endianness, Header, PointerSize};

#[test]
fn test_valid_header() {
    let data = b"BLENDER-v279";
    let header = Header::from_reader(data).unwrap();

    assert_eq!(header.magic, *b"BLENDER");
    assert_eq!(header.pointer_size, PointerSize::Bits64);
    assert_eq!(header.endianness, Endianness::Little);
    assert_eq!(header.version, 279);
}

#[test]
fn test_invalid_magic() {
    let data = b"INVALID-v279";
    let result = Header::from_reader(data);

    assert!(result.is_err());
}

#[test]
fn test_32bit_header() {
    let data = b"BLENDER_v279";
    let header = Header::from_reader(data).unwrap();

    assert_eq!(header.pointer_size, PointerSize::Bits32);
}

#[test]
fn test_big_endian_header() {
    let data = b"BLENDER-V279";
    let header = Header::from_reader(data).unwrap();

    assert_eq!(header.endianness, Endianness::Big);
}

#[test]
fn test_invalid_magic_is_format_error() {
    let err = Header::from_reader(b"XLENDER-v279").unwrap_err();
    match err {
        BlendFileError::InvalidFormat(m) => assert!(m.starts_with("Invalid magic: ")),
        other => panic!("expected a format error, got {other:?}"),
    }
}

#[test]
fn test_bad_pointer_size_byte_named() {
    let err = Header::from_reader(b"BLENDER+v279").unwrap_err();
    match err {
        BlendFileError::InvalidFormat(m) => {
            assert_eq!(m, "Invalid pointer size indicator: 43");
        }
        other => panic!("expected a format error, got {other:?}"),
    }
}

#[test]
fn test_bad_endianness_byte_named() {
    let err = Header::from_reader(b"BLENDER-w279").unwrap_err();
    match err {
        BlendFileError::InvalidFormat(m) => {
            assert_eq!(m, "Invalid endianness indicator: 119");
        }
        other => panic!("expected a format error, got {other:?}"),
    }
}

#[test]
fn test_bad_version_digits() {
    let err = Header::from_reader(b"BLENDER-v2x9").unwrap_err();
    match err {
        BlendFileError::InvalidFormat(m) => {
            assert_eq!(m, "Invalid version: 2x9");
        }
        other => panic!("expected a format error, got {other:?}"),
    }
}

#[test]
fn test_short_header_is_read_error() {
    let err = Header::from_reader(b"BLEND").unwrap_err();
    assert!(matches!(err, BlendFileError::IoError(_)));
}

#[test]
fn test_header_serialize_round_trip() {
    let data = b"BLENDER_V042";
    let header = Header::from_reader(data).unwrap();
    let mut out = Vec::new();
    header.write_to_writer(&mut out);
    assert_eq!(out.as_slice(), data);
    assert_eq!(header.version, 42);
}
