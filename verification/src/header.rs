//! The fixed 12-byte file prologue: magic, pointer width, endianness
//! and version, with an exact parse/serialize specification.

use vstd::prelude::*;

verus! {

use crate::error::BlendFileError;
use crate::text::{dec_chars, push_dec_byte, lossy_string, utf8_lossy};
use vstd::string::StringExecFns;

/// Width of the legacy addresses stored in block prologues.
#[derive(Debug, Clone, Copy, PartialEq, Eq, Structural)]
pub enum PointerSize {
    Bits32,
    Bits64,
}

impl PointerSize {
    /// How many bytes a legacy address occupies on disk.
    pub fn bytes(&self) -> (r: usize)
        ensures
            r == self.spec_bytes(),
    {
        match self {
            PointerSize::Bits32 => 4,
            PointerSize::Bits64 => 8,
        }
    }

    pub open spec fn spec_bytes(self) -> int {
        match self {
            PointerSize::Bits32 => 4,
            PointerSize::Bits64 => 8,
        }
    }
}

/// Byte order of every multi-byte integer in the file.
#[derive(Debug, Clone, Copy, PartialEq, Eq, Structural)]
pub enum Endianness {
    Little,
    Big,
}

/// The parsed file prologue.
#[derive(Debug, Clone)]
pub struct Header {
    pub magic: [u8; 7],
    pub pointer_size: PointerSize,
    pub endianness: Endianness,
    pub version: u32,
}

/// The seven magic bytes `BLENDER` that every file must start with.
pub open spec fn spec_magic() -> Seq<u8> {
    seq![
        'B' as u8,
        'L' as u8,
        'E' as u8,
        'N' as u8,
        'D' as u8,
        'E' as u8,
        'R' as u8,
    ]
}

/// The sentinel byte for each pointer width: `_` for 32-bit, `-` for
/// 64-bit.
pub open spec fn pointer_size_byte(p: PointerSize) -> u8 {
    match p {
        PointerSize::Bits32 => '_' as u8,
        PointerSize::Bits64 => '-' as u8,
    }
}

/// The sentinel byte for each byte order: `v` for little, `V` for big.
pub open spec fn endianness_byte(e: Endianness) -> u8 {
    match e {
        Endianness::Little => 'v' as u8,
        Endianness::Big => 'V' as u8,
    }
}

pub open spec fn is_ascii_digit(b: u8) -> bool {
    48 <= b <= 57
}

/// The version as three zero-padded ASCII decimal digits.
pub open spec fn version_digits(v: u32) -> Seq<u8> {
    seq![
        (48 + (v / 100) % 10) as u8,
        (48 + (v / 10) % 10) as u8,
        (48 + v % 10) as u8,
    ]
}

/// The version encoded by three ASCII digit bytes.
pub open spec fn spec_version_val(d0: u8, d1: u8, d2: u8) -> int {
    100 * (d0 - 48) + 10 * (d1 - 48) + (d2 - 48)
}

/// A version below 1000 and its three digits determine one another.
pub proof fn lemma_version_digits(v: u32)
    requires
        v < 1000,
    ensures
        forall|i: int| 0 <= i < 3 ==> is_ascii_digit(#[trigger] version_digits(v)[i]),
        spec_version_val(version_digits(v)[0], version_digits(v)[1], version_digits(v)[2]) == v,
{
    let a = (v / 100) % 10;
    let b = (v / 10) % 10;
    let c = v % 10;
    assert(100 * a + 10 * b + c == v) by (nonlinear_arith)
        requires
            v < 1000,
            a == (v / 100) % 10,
            b == (v / 10) % 10,
            c == v % 10,
    ;
}

/// Three digit bytes decode to a version below 1000 whose digits they
/// are.
pub proof fn lemma_version_val(d0: u8, d1: u8, d2: u8)
    requires
        is_ascii_digit(d0),
        is_ascii_digit(d1),
        is_ascii_digit(d2),
    ensures
        0 <= spec_version_val(d0, d1, d2) < 1000,
        version_digits(spec_version_val(d0, d1, d2) as u32) == seq![d0, d1, d2],
{
    let v = spec_version_val(d0, d1, d2) as u32;
    assert((v / 100) % 10 == d0 - 48 && (v / 10) % 10 == d1 - 48 && v % 10 == d2 - 48)
        by (nonlinear_arith)
        requires
            v == 100 * (d0 - 48) + 10 * (d1 - 48) + (d2 - 48),
            0 <= d0 - 48 < 10,
            0 <= d1 - 48 < 10,
            0 <= d2 - 48 < 10,
    ;
    assert(version_digits(v) =~= seq![d0, d1, d2]);
}

impl Header {
    /// A header the serializer can re-emit onto 12 bytes: the magic is
    /// the fixed constant and the version fits in three digits.
    pub open spec fn wf(self) -> bool {
        &&& self.magic@ == spec_magic()
        &&& self.version < 1000
    }

    /// The 12 bytes this header occupies on disk.
    pub open spec fn spec_bytes(self) -> Seq<u8> {
        self.magic@ + seq![pointer_size_byte(self.pointer_size), endianness_byte(self.endianness)]
            + version_digits(self.version)
    }
}

/// True when the first 12 bytes of `bytes` form a well-formed header.
pub open spec fn spec_header_valid(bytes: Seq<u8>) -> bool {
    &&& bytes.len() >= 12
    &&& bytes.subrange(0, 7) == spec_magic()
    &&& (bytes[7] == pointer_size_byte(PointerSize::Bits32) || bytes[7] == pointer_size_byte(
        PointerSize::Bits64,
    ))
    &&& (bytes[8] == endianness_byte(Endianness::Little) || bytes[8] == endianness_byte(
        Endianness::Big,
    ))
    &&& is_ascii_digit(bytes[9])
    &&& is_ascii_digit(bytes[10])
    &&& is_ascii_digit(bytes[11])
}

/// True when `h` is exactly what parsing the first 12 bytes yields.
pub open spec fn spec_header_matches(h: Header, bytes: Seq<u8>) -> bool {
    &&& h.magic@ == bytes.subrange(0, 7)
    &&& pointer_size_byte(h.pointer_size) == bytes[7]
    &&& endianness_byte(h.endianness) == bytes[8]
    &&& h.version == spec_version_val(bytes[9], bytes[10], bytes[11])
}

/// True when `e` is the error the header parser reports for `bytes`,
/// with the exact diagnostic text.
pub open spec fn spec_header_error_matches(e: BlendFileError, bytes: Seq<u8>) -> bool {
    if bytes.len() < 7 {
        e matches BlendFileError::IoError(m) && m@ == "unexpected end of stream in header"@
    } else if bytes.subrange(0, 7) != spec_magic() {
        e matches BlendFileError::InvalidFormat(m) && m@ == "Invalid magic: "@ + utf8_lossy(
            bytes.subrange(0, 7),
        )
    } else if bytes.len() < 8 {
        e matches BlendFileError::IoError(m) && m@ == "unexpected end of stream in header"@
    } else if bytes[7] != pointer_size_byte(PointerSize::Bits32) && bytes[7] != pointer_size_byte(
        PointerSize::Bits64,
    ) {
        e matches BlendFileError::InvalidFormat(m) && m@ == "Invalid pointer size indicator: "@
            + dec_chars(bytes[7] as int)
    } else if bytes.len() < 9 {
        e matches BlendFileError::IoError(m) && m@ == "unexpected end of stream in header"@
    } else if bytes[8] != endianness_byte(Endianness::Little) && bytes[8] != endianness_byte(
        Endianness::Big,
    ) {
        e matches BlendFileError::InvalidFormat(m) && m@ == "Invalid endianness indicator: "@
            + dec_chars(bytes[8] as int)
    } else if bytes.len() < 12 {
        e matches BlendFileError::IoError(m) && m@ == "unexpected end of stream in header"@
    } else {
        e matches BlendFileError::InvalidFormat(m) && m@ == "Invalid version: "@ + utf8_lossy(
            bytes.subrange(9, 12),
        )
    }
}

impl Header {
    /// Parse the prologue from the start of `data`.
    ///
    /// Succeeds exactly on a well-formed 12-byte prologue; every
    /// failure reports which field was wrong, a magic mismatch, a bad
    /// sentinel byte or bad version digits as a format error with the
    /// offending bytes, a short buffer as a read failure.
    pub fn from_reader(data: &[u8]) -> (r: Result<Header, BlendFileError>)
        ensures
            match r {
                Ok(h) => spec_header_valid(data@) && spec_header_matches(h, data@) && h.wf(),
                Err(e) => !spec_header_valid(data@) && spec_header_error_matches(e, data@),
            },
    {
        let n = data.len();
        if n < 7 {
            return Err(BlendFileError::IoError(String::from_str(
                "unexpected end of stream in header",
            )));
        }
        let magic: [u8; 7] = [data[0], data[1], data[2], data[3], data[4], data[5], data[6]];
        let magic_ok = data[0] == 'B' as u8 && data[1] == 'L' as u8 && data[2] == 'E' as u8
            && data[3] == 'N' as u8 && data[4] == 'D' as u8 && data[5] == 'E' as u8
            && data[6] == 'R' as u8;
        if !magic_ok {
            proof {
                assert(data@.subrange(0, 7) != spec_magic());
            }
            let mut m = String::from_str("Invalid magic: ");
            let shown = lossy_string(slice_prefix(data, 7));
            m.append(shown.as_str());
            return Err(BlendFileError::InvalidFormat(m));
        }
        proof {
            assert(data@.subrange(0, 7) =~= spec_magic());
            assert(magic@ =~= data@.subrange(0, 7));
        }
        if n < 8 {
            return Err(BlendFileError::IoError(String::from_str(
                "unexpected end of stream in header",
            )));
        }
        let ps_byte = data[7];
        let pointer_size = if ps_byte == '_' as u8 {
            PointerSize::Bits32
        } else if ps_byte == '-' as u8 {
            PointerSize::Bits64
        } else {
            let mut m = String::from_str("Invalid pointer size indicator: ");
            push_dec_byte(&mut m, ps_byte);
            return Err(BlendFileError::InvalidFormat(m));
        };
        if n < 9 {
            return Err(BlendFileError::IoError(String::from_str(
                "unexpected end of stream in header",
            )));
        }
        let e_byte = data[8];
        let endianness = if e_byte == 'v' as u8 {
            Endianness::Little
        } else if e_byte == 'V' as u8 {
            Endianness::Big
        } else {
            let mut m = String::from_str("Invalid endianness indicator: ");
            push_dec_byte(&mut m, e_byte);
            return Err(BlendFileError::InvalidFormat(m));
        };
        if n < 12 {
            return Err(BlendFileError::IoError(String::from_str(
                "unexpected end of stream in header",
            )));
        }
        let d0 = data[9];
        let d1 = data[10];
        let d2 = data[11];
        if !(48 <= d0 && d0 <= 57 && 48 <= d1 && d1 <= 57 && 48 <= d2 && d2 <= 57) {
            let mut m = String::from_str("Invalid version: ");
            let shown = lossy_string(slice_range(data, 9, 12));
            m.append(shown.as_str());
            return Err(BlendFileError::InvalidFormat(m));
        }
        let version: u32 = 100 * ((d0 - 48) as u32) + 10 * ((d1 - 48) as u32) + ((d2 - 48) as u32);
        Ok(Header { magic, pointer_size, endianness, version })
    }

    /// Serialize the prologue, appending exactly `spec_bytes`.
    pub fn write_to_writer(&self, out: &mut Vec<u8>)
        requires
            self.version < 1000,
        ensures
            final(out)@ == old(out)@ + self.spec_bytes(),
    {
        out.push(self.magic[0]);
        out.push(self.magic[1]);
        out.push(self.magic[2]);
        out.push(self.magic[3]);
        out.push(self.magic[4]);
        out.push(self.magic[5]);
        out.push(self.magic[6]);
        let ps_byte = match self.pointer_size {
            PointerSize::Bits32 => '_' as u8,
            PointerSize::Bits64 => '-' as u8,
        };
        out.push(ps_byte);
        let e_byte = match self.endianness {
            Endianness::Little => 'v' as u8,
            Endianness::Big => 'V' as u8,
        };
        out.push(e_byte);
        let v = self.version;
        out.push((48 + (v / 100) % 10) as u8);
        out.push((48 + (v / 10) % 10) as u8);
        out.push((48 + v % 10) as u8);
        proof {
            assert(out@ =~= old(out)@ + self.spec_bytes());
        }
    }
}

/// The first `k` bytes of a slice.
fn slice_prefix(data: &[u8], k: usize) -> (r: &[u8])
    requires
        k <= data@.len(),
    ensures
        r@ == data@.subrange(0, k as int),
{
    slice_range(data, 0, k)
}

/// The bytes of a slice between `from` and `to`.
fn slice_range(data: &[u8], from: usize, to: usize) -> (r: &[u8])
    requires
        from <= to <= data@.len(),
    ensures
        r@ == data@.subrange(from as int, to as int),
{
    vstd::slice::slice_subrange(data, from, to)
}

/// Parsing a well-formed header prologue and serializing the result
/// reproduces the original 12 bytes: the header round trip.
pub proof fn lemma_header_round_trip(h: Header, bytes: Seq<u8>)
    requires
        spec_header_valid(bytes),
        spec_header_matches(h, bytes),
    ensures
        h.wf(),
        h.spec_bytes() == bytes.subrange(0, 12),
{
    lemma_version_val(bytes[9], bytes[10], bytes[11]);
    assert(h.spec_bytes() =~= bytes.subrange(0, 12));
}

/// Serializing a well-formed header and parsing the result gives the
/// header back: the other direction of the round trip.
pub proof fn lemma_header_serialize_parse(h: Header)
    requires
        h.wf(),
    ensures
        spec_header_valid(h.spec_bytes()),
        spec_header_matches(h, h.spec_bytes()),
{
    lemma_version_digits(h.version);
    assert(h.spec_bytes().subrange(0, 7) =~= spec_magic());
}

} // verus!
