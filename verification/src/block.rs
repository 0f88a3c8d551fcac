//! One block record: a fixed prologue (type code, payload size, legacy
//! address, catalog index, element count) followed by `size` payload
//! bytes, parameterized by the header's pointer width and endianness.

use vstd::prelude::*;

verus! {

use crate::error::BlendFileError;
use crate::header::{Endianness, Header, PointerSize};
use crate::text::{lossy_string, utf8_lossy};
use crate::wire::{
    be_bytes_32, be_bytes_64, le_bytes_32, le_bytes_64, lemma_le32_reconstruct,
    lemma_le64_reconstruct, read_u32_be, read_u32_le, read_u64_be, read_u64_le, push_u32_be,
    push_u32_le, push_u64_be, push_u64_le, u32_of_be, u32_of_le, u64_of_be, u64_of_le,
    lemma_u32_of_le, lemma_u32_of_be, lemma_u64_of_le, lemma_u64_of_be,
};
use vstd::string::{StringExecFns, StringSliceAdditionalSpecFns};
use vstd::slice::{slice_subrange, slice_to_vec};

/// The reserved type code `DNA1` that terminates the block sequence.
pub open spec fn spec_terminator() -> Seq<u8> {
    seq!['D' as u8, 'N' as u8, 'A' as u8, '1' as u8]
}

/// The bytes of `x` in the given order.
pub open spec fn u32_bytes(e: Endianness, x: u32) -> Seq<u8> {
    match e {
        Endianness::Little => le_bytes_32(x),
        Endianness::Big => be_bytes_32(x),
    }
}

/// The bytes of `x` in the given order.
pub open spec fn u64_bytes(e: Endianness, x: u64) -> Seq<u8> {
    match e {
        Endianness::Little => le_bytes_64(x),
        Endianness::Big => be_bytes_64(x),
    }
}

/// The value of four bytes in the given order.
pub open spec fn u32_of(e: Endianness, s: Seq<u8>) -> int {
    match e {
        Endianness::Little => u32_of_le(s),
        Endianness::Big => u32_of_be(s),
    }
}

/// The value of eight bytes in the given order.
pub open spec fn u64_of(e: Endianness, s: Seq<u8>) -> int {
    match e {
        Endianness::Little => u64_of_le(s),
        Endianness::Big => u64_of_be(s),
    }
}

/// How a legacy address is written: four truncated bytes under 32-bit
/// pointers, eight bytes under 64-bit pointers.
pub open spec fn addr_bytes(ps: PointerSize, e: Endianness, a: u64) -> Seq<u8> {
    match ps {
        PointerSize::Bits32 => u32_bytes(e, a as u32),
        PointerSize::Bits64 => u64_bytes(e, a),
    }
}

/// The address encoded by an address field, widened to 64 bits.
pub open spec fn addr_of(ps: PointerSize, e: Endianness, s: Seq<u8>) -> int {
    match ps {
        PointerSize::Bits32 => u32_of(e, s),
        PointerSize::Bits64 => u64_of(e, s),
    }
}

/// Bytes of prologue before the payload: code, size, address, catalog
/// index, element count.
pub open spec fn spec_prologue_len(ps: PointerSize) -> int {
    16 + ps.spec_bytes()
}

/// The mathematical model of one block.
pub struct BlockView {
    pub code: Seq<u8>,
    pub size: u32,
    pub old_memory_address: u64,
    pub sdna_index: u32,
    pub count: u32,
    pub data_offset: u64,
    pub data: Seq<u8>,
}

impl BlockView {
    /// The payload length is the declared size, and the address fits
    /// the pointer width it will be written with.
    pub open spec fn wf(self, ps: PointerSize) -> bool {
        &&& self.code.len() == 4
        &&& self.data.len() == self.size
        &&& (ps is Bits32 ==> self.old_memory_address < 0x1_0000_0000)
    }

    /// The bytes this block occupies on disk.
    pub open spec fn spec_bytes(self, ps: PointerSize, e: Endianness) -> Seq<u8> {
        self.code + u32_bytes(e, self.size) + addr_bytes(ps, e, self.old_memory_address)
            + u32_bytes(e, self.sdna_index) + u32_bytes(e, self.count) + self.data
    }
}

/// The declared payload size of the block starting at `pos`.
pub open spec fn spec_block_size(d: Seq<u8>, e: Endianness, pos: int) -> int
    recommends
        pos + 8 <= d.len(),
{
    u32_of(e, d.subrange(pos + 4, pos + 8))
}

/// Prologue plus declared payload.
pub open spec fn spec_block_len(d: Seq<u8>, ps: PointerSize, e: Endianness, pos: int) -> int {
    spec_prologue_len(ps) + spec_block_size(d, e, pos)
}

/// True when the block starting at `pos` lies entirely within `d`.
pub open spec fn spec_block_fits(d: Seq<u8>, ps: PointerSize, e: Endianness, pos: int) -> bool {
    &&& pos + spec_prologue_len(ps) <= d.len()
    &&& pos + spec_block_len(d, ps, e, pos) <= d.len()
}

/// The block parsed from `d` at `pos`, assuming it fits.
pub open spec fn spec_parse_block(d: Seq<u8>, ps: PointerSize, e: Endianness, pos: int) -> BlockView
    recommends
        spec_block_fits(d, ps, e, pos),
{
    let psb = ps.spec_bytes();
    let plen = spec_prologue_len(ps);
    let size = spec_block_size(d, e, pos);
    BlockView {
        code: d.subrange(pos, pos + 4),
        size: size as u32,
        old_memory_address: addr_of(ps, e, d.subrange(pos + 8, pos + 8 + psb)) as u64,
        sdna_index: u32_of(e, d.subrange(pos + 8 + psb, pos + 12 + psb)) as u32,
        count: u32_of(e, d.subrange(pos + 12 + psb, pos + 16 + psb)) as u32,
        data_offset: (pos + plen + size) as u64,
        data: d.subrange(pos + plen, pos + plen + size),
    }
}

/// Index of the first NUL byte, or the length when there is none.
pub open spec fn spec_nul_pos(s: Seq<u8>) -> int
    decreases s.len(),
{
    if s.len() == 0 {
        0
    } else if s[0] == 0 {
        0
    } else {
        1 + spec_nul_pos(s.drop_first())
    }
}

/// Everything before the first NUL is non-NUL, and the first NUL, if
/// any, sits exactly there.
pub proof fn lemma_nul_pos(s: Seq<u8>)
    ensures
        0 <= spec_nul_pos(s) <= s.len(),
        spec_nul_pos(s) < s.len() ==> s[spec_nul_pos(s)] == 0,
        forall|j: int| 0 <= j < spec_nul_pos(s) ==> s[j] != 0,
    decreases s.len(),
{
    if s.len() != 0 && s[0] != 0 {
        lemma_nul_pos(s.drop_first());
        assert forall|j: int| 0 <= j < spec_nul_pos(s) implies s[j] != 0 by {
            if j > 0 {
                assert(s.drop_first()[j - 1] != 0);
            }
        }
    }
}

/// A string written over a payload: the value's bytes, truncated to
/// fit, a NUL after them if a byte remains, and the rest untouched.
pub open spec fn spec_set_string(data: Seq<u8>, vb: Seq<u8>) -> Seq<u8> {
    let l = if vb.len() <= data.len() {
        vb.len() as int
    } else {
        data.len() as int
    };
    Seq::new(
        data.len(),
        |i: int|
            if i < l {
                vb[i]
            } else if i == l {
                0u8
            } else {
                data[i]
            },
    )
}

/// The 32-bit little-endian value in slot `i` of a payload, or zero
/// when the slot overruns it.
pub open spec fn spec_float_slot(data: Seq<u8>, i: int) -> int {
    if 0 <= i && 4 * i + 4 <= data.len() {
        u32_of_le(data.subrange(4 * i, 4 * i + 4))
    } else {
        0
    }
}

/// A payload after an array of 32-bit values is written slot by slot:
/// every slot that fits carries its value's little-endian bytes, and
/// every other byte is untouched.
pub open spec fn spec_set_float_bits(data: Seq<u8>, vals: Seq<u32>) -> Seq<u8> {
    Seq::new(
        data.len(),
        |j: int|
            if j / 4 < vals.len() && 4 * (j / 4) + 4 <= data.len() {
                le_bytes_32(vals[j / 4])[j % 4]
            } else {
                data[j]
            },
    )
}

/// Dividing `4*i + k` by four for a digit `k` gives `i` back.
proof fn lemma_div4(i: int, k: int)
    requires
        0 <= i,
        0 <= k < 4,
    ensures
        (4 * i + k) / 4 == i,
        (4 * i + k) % 4 == k,
{
    assert((4 * i + k) / 4 == i && (4 * i + k) % 4 == k) by (nonlinear_arith)
        requires
            0 <= i,
            0 <= k < 4,
    ;
}

/// A byte index lands in slot `i` exactly when it lies in the four
/// bytes of that slot.
proof fn lemma_div4_range(j: int, i: int)
    requires
        0 <= j,
        0 <= i,
    ensures
        (j / 4 == i) <==> (4 * i <= j < 4 * i + 4),
{
    lemma_div4(j / 4, j % 4);
    assert(j == 4 * (j / 4) + j % 4);
}

/// Slot `i` fits in a payload of `n` bytes exactly when `i < n / 4`.
proof fn lemma_slot_bound(n: int, i: int)
    requires
        0 <= n,
        0 <= i,
    ensures
        (i < n / 4) <==> (4 * i + 4 <= n),
{
    assert((i < n / 4) <==> (4 * i + 4 <= n)) by (nonlinear_arith)
        requires
            0 <= n,
            0 <= i,
    ;
}

/// One block record held in memory.
#[derive(Debug, Clone)]
pub struct Block {
    pub code: [u8; 4],
    pub size: u32,
    pub old_memory_address: u64,
    pub sdna_index: u32,
    pub count: u32,
    pub data_offset: u64,
    pub data: Vec<u8>,
}

impl View for Block {
    type V = BlockView;

    open spec fn view(&self) -> BlockView {
        BlockView {
            code: self.code@,
            size: self.size,
            old_memory_address: self.old_memory_address,
            sdna_index: self.sdna_index,
            count: self.count,
            data_offset: self.data_offset,
            data: self.data@,
        }
    }
}

impl Block {
    /// Parse one block at `*pos`.
    ///
    /// `Ok(None)` is the normal stop: fewer than four bytes remain, or
    /// the type code is the terminator tag; `pos` then stays put. A
    /// record whose prologue or declared payload overruns the buffer is
    /// a hard read failure, never a silent truncation.
    pub fn from_reader(data: &[u8], pos: &mut usize, header: &Header) -> (r: Result<
        Option<Block>,
        BlendFileError,
    >)
        requires
            *old(pos) <= data@.len(),
        ensures
            match r {
                Ok(Some(b)) => {
                    &&& *old(pos) + 4 <= data@.len()
                    &&& data@.subrange(*old(pos) as int, *old(pos) + 4) != spec_terminator()
                    &&& spec_block_fits(data@, header.pointer_size, header.endianness, *old(pos) as int)
                    &&& b@ == spec_parse_block(data@, header.pointer_size, header.endianness, *old(pos) as int)
                    &&& b@.wf(header.pointer_size)
                    &&& *final(pos) == *old(pos) + spec_block_len(data@, header.pointer_size, header.endianness, *old(pos) as int)
                    &&& *final(pos) <= data@.len()
                },
                Ok(None) => {
                    &&& *final(pos) == *old(pos)
                    &&& (*old(pos) + 4 > data@.len() || data@.subrange(*old(pos) as int, *old(pos) + 4) == spec_terminator())
                },
                Err(e) => {
                    &&& *final(pos) == *old(pos)
                    &&& *old(pos) + 4 <= data@.len()
                    &&& data@.subrange(*old(pos) as int, *old(pos) + 4) != spec_terminator()
                    &&& !spec_block_fits(data@, header.pointer_size, header.endianness, *old(pos) as int)
                    &&& e matches BlendFileError::IoError(m) && m@ == "unexpected end of stream in block"@
                },
            },
    {
        let p = *pos;
        let n = data.len();
        if n - p < 4 {
            return Ok(None);
        }
        let c0 = data[p];
        let c1 = data[p + 1];
        let c2 = data[p + 2];
        let c3 = data[p + 3];
        proof {
            assert(data@.subrange(p as int, p as int + 4) =~= seq![c0, c1, c2, c3]);
        }
        if c0 == 'D' as u8 && c1 == 'N' as u8 && c2 == 'A' as u8 && c3 == '1' as u8 {
            proof {
                assert(data@.subrange(p as int, p as int + 4) =~= spec_terminator());
            }
            return Ok(None);
        }
        proof {
            assert(data@.subrange(p as int, p as int + 4) != spec_terminator());
        }
        let psb: usize = header.pointer_size.bytes();
        let plen: usize = 16 + psb;
        if n - p < plen {
            return Err(BlendFileError::IoError(String::from_str(
                "unexpected end of stream in block",
            )));
        }
        let size = match header.endianness {
            Endianness::Little => read_u32_le(data, p + 4),
            Endianness::Big => read_u32_be(data, p + 4),
        };
        proof {
            lemma_le32_reconstruct(size);
        }
        let size_us = size as usize;
        if size_us > n - p - plen {
            return Err(BlendFileError::IoError(String::from_str(
                "unexpected end of stream in block",
            )));
        }
        let old_memory_address: u64 = match header.pointer_size {
            PointerSize::Bits32 => {
                let a = match header.endianness {
                    Endianness::Little => read_u32_le(data, p + 8),
                    Endianness::Big => read_u32_be(data, p + 8),
                };
                proof {
                    lemma_le32_reconstruct(a);
                }
                a as u64
            },
            PointerSize::Bits64 => {
                let a = match header.endianness {
                    Endianness::Little => read_u64_le(data, p + 8),
                    Endianness::Big => read_u64_be(data, p + 8),
                };
                proof {
                    lemma_le64_reconstruct(a);
                }
                a
            },
        };
        let sdna_index = match header.endianness {
            Endianness::Little => read_u32_le(data, p + plen - 8),
            Endianness::Big => read_u32_be(data, p + plen - 8),
        };
        let count = match header.endianness {
            Endianness::Little => read_u32_le(data, p + plen - 4),
            Endianness::Big => read_u32_be(data, p + plen - 4),
        };
        proof {
            lemma_le32_reconstruct(sdna_index);
            lemma_le32_reconstruct(count);
        }
        let payload = slice_to_vec(slice_subrange(data, p + plen, p + plen + size_us));
        let end = p + plen + size_us;
        let b = Block {
            code: [c0, c1, c2, c3],
            size,
            old_memory_address,
            sdna_index,
            count,
            data_offset: end as u64,
            data: payload,
        };
        proof {
            let d = data@;
            let ps = header.pointer_size;
            let e = header.endianness;
            let pi = p as int;
            assert(spec_block_size(d, e, pi) == size);
            assert(b@.code =~= spec_parse_block(d, ps, e, pi).code);
            assert(b@.data =~= spec_parse_block(d, ps, e, pi).data);
        }
        *pos = end;
        Ok(Some(b))
    }

    /// True when the type code starts with `LI`, the library category.
    pub fn is_library(&self) -> (r: bool)
        ensures
            r == (self.code@[0] == 'L' as u8 && self.code@[1] == 'I' as u8),
    {
        self.code[0] == 'L' as u8 && self.code[1] == 'I' as u8
    }

    /// True when the type code starts with `IM`, the image category.
    pub fn is_image(&self) -> (r: bool)
        ensures
            r == (self.code@[0] == 'I' as u8 && self.code@[1] == 'M' as u8),
    {
        self.code[0] == 'I' as u8 && self.code[1] == 'M' as u8
    }

    /// True when the type code starts with `SO`, the sound category.
    pub fn is_sound(&self) -> (r: bool)
        ensures
            r == (self.code@[0] == 'S' as u8 && self.code@[1] == 'O' as u8),
    {
        self.code[0] == 'S' as u8 && self.code[1] == 'O' as u8
    }

    /// True when the type code starts with `MC`, the movie-clip
    /// category.
    pub fn is_movie_clip(&self) -> (r: bool)
        ensures
            r == (self.code@[0] == 'M' as u8 && self.code@[1] == 'C' as u8),
    {
        self.code[0] == 'M' as u8 && self.code[1] == 'C' as u8
    }

    /// The type code decoded as text.
    pub fn get_type_name(&self) -> (r: String)
        ensures
            r@ == utf8_lossy(self.code@),
    {
        lossy_string(self.code.as_slice())
    }

    /// The payload bytes before the first NUL, decoded as text. The
    /// field name is not consulted: without a struct resolver the field
    /// is assumed to start at payload offset zero.
    pub fn get_string_field(&self, field_name: &str) -> (r: Result<String, BlendFileError>)
        ensures
            match r {
                Ok(s) => {
                    &&& s@ == utf8_lossy(self.data@.subrange(0, spec_nul_pos(self.data@)))
                    &&& vstd::utf8::valid_utf8(self.data@.subrange(0, spec_nul_pos(self.data@)))
                        ==> s@ == vstd::utf8::decode_utf8(
                        self.data@.subrange(0, spec_nul_pos(self.data@)),
                    )
                },
                Err(_) => false,
            },
    {
        let n = self.data.len();
        let mut i: usize = 0;
        let mut found = false;
        while i < n && !found
            invariant
                i <= n,
                n == self.data@.len(),
                forall|j: int| 0 <= j < i ==> self.data@[j] != 0,
                found ==> i < n && self.data@[i as int] == 0,
            decreases n - i + (if found { 0int } else { 1int }),
        {
            if self.data[i] == 0 {
                found = true;
            } else {
                i = i + 1;
            }
        }
        proof {
            lemma_nul_pos(self.data@);
            assert(i == spec_nul_pos(self.data@));
        }
        Ok(lossy_string(slice_subrange(self.data.as_slice(), 0, i)))
    }

    /// Overwrite the payload from offset zero with the bytes of
    /// `value`, truncated to fit, and NUL-terminate if a byte remains.
    /// A value longer than the payload never grows it.
    pub fn set_string_field(&mut self, field_name: &str, value: &str) -> (r: Result<
        (),
        BlendFileError,
    >)
        ensures
            r is Ok,
            final(self).data@ == spec_set_string(old(self).data@, value.spec_bytes()),
            final(self).code == old(self).code,
            final(self).size == old(self).size,
            final(self).old_memory_address == old(self).old_memory_address,
            final(self).sdna_index == old(self).sdna_index,
            final(self).count == old(self).count,
            final(self).data_offset == old(self).data_offset,
    {
        let vb = value.as_bytes();
        let n = self.data.len();
        let l = if vb.len() < n {
            vb.len()
        } else {
            n
        };
        let mut i: usize = 0;
        while i < l
            invariant
                i <= l,
                l <= n,
                l <= vb@.len(),
                n == self.data@.len(),
                vb@ == value.spec_bytes(),
                forall|j: int| 0 <= j < i ==> self.data@[j] == vb@[j],
                forall|j: int| i <= j < n ==> self.data@[j] == old(self).data@[j],
                self.code == old(self).code,
                self.size == old(self).size,
                self.old_memory_address == old(self).old_memory_address,
                self.sdna_index == old(self).sdna_index,
                self.count == old(self).count,
                self.data_offset == old(self).data_offset,
            decreases l - i,
        {
            let b = vb[i];
            self.data.set(i, b);
            i = i + 1;
        }
        if l < n {
            self.data.set(l, 0);
        }
        proof {
            assert(self.data@ =~= spec_set_string(old(self).data@, value.spec_bytes()));
        }
        Ok(())
    }

    /// Read `count` consecutive 32-bit little-endian values from the
    /// start of the payload, as their raw bit patterns. A slot that
    /// would overrun the payload reads as zero instead of failing.
    pub fn get_float_array_field_bits(&self, field_name: &str, count: usize) -> (r: Result<
        Vec<u32>,
        BlendFileError,
    >)
        ensures
            match r {
                Ok(v) => {
                    &&& v@.len() == count
                    &&& forall|i: int|
                        0 <= i < count ==> v@[i] == spec_float_slot(self.data@, i)
                },
                Err(_) => false,
            },
    {
        let mut out: Vec<u32> = Vec::new();
        let slots = self.data.len() / 4;
        let mut i: usize = 0;
        while i < count
            invariant
                i <= count,
                slots == self.data@.len() / 4,
                self.data@.len() <= usize::MAX,
                out@.len() == i,
                forall|j: int| 0 <= j < i ==> out@[j] == spec_float_slot(self.data@, j),
            decreases count - i,
        {
            proof {
                lemma_slot_bound(self.data@.len() as int, i as int);
            }
            if i < slots {
                let x = read_u32_le(self.data.as_slice(), 4 * i);
                proof {
                    lemma_le32_reconstruct(x);
                }
                out.push(x);
            } else {
                out.push(0);
            }
            i = i + 1;
        }
        Ok(out)
    }

    /// Write each value's 32-bit little-endian bytes at its slot from
    /// the start of the payload, silently skipping any slot that would
    /// overrun the payload. The payload never grows.
    pub fn set_float_array_field_bits(&mut self, field_name: &str, values: &[u32]) -> (r: Result<
        (),
        BlendFileError,
    >)
        ensures
            r is Ok,
            final(self).data@ == spec_set_float_bits(old(self).data@, values@),
            final(self).code == old(self).code,
            final(self).size == old(self).size,
            final(self).old_memory_address == old(self).old_memory_address,
            final(self).sdna_index == old(self).sdna_index,
            final(self).count == old(self).count,
            final(self).data_offset == old(self).data_offset,
    {
        let n = self.data.len();
        let slots = n / 4;
        let m = values.len();
        let mut i: usize = 0;
        while i < m
            invariant
                i <= m,
                m == values@.len(),
                slots == n / 4,
                n == self.data@.len(),
                forall|j: int|
                    0 <= j < n ==> self.data@[j] == (if j / 4 < i && j / 4 < values@.len()
                        && 4 * (j / 4) + 4 <= n {
                        le_bytes_32(values@[j / 4])[j % 4]
                    } else {
                        old(self).data@[j]
                    }),
                self.code == old(self).code,
                self.size == old(self).size,
                self.old_memory_address == old(self).old_memory_address,
                self.sdna_index == old(self).sdna_index,
                self.count == old(self).count,
                self.data_offset == old(self).data_offset,
            decreases m - i,
        {
            proof {
                lemma_slot_bound(n as int, i as int);
            }
            let ghost before = self.data@;
            if i < slots {
                let x = values[i];
                self.data.set(4 * i, (x % 256) as u8);
                self.data.set(4 * i + 1, ((x / 256) % 256) as u8);
                self.data.set(4 * i + 2, ((x / 65536) % 256) as u8);
                self.data.set(4 * i + 3, ((x / 16777216) % 256) as u8);
                proof {
                    assert forall|j: int| 0 <= j < n implies self.data@[j] == (if j / 4 < i + 1
                        && j / 4 < values@.len() && 4 * (j / 4) + 4 <= n {
                        le_bytes_32(values@[j / 4])[j % 4]
                    } else {
                        old(self).data@[j]
                    }) by {
                        lemma_div4_range(j, i as int);
                        if 4 * i <= j < 4 * i + 4 {
                            lemma_div4(i as int, j - 4 * i);
                        }
                    }
                }
            } else {
                proof {
                    assert forall|j: int| 0 <= j < n implies self.data@[j] == (if j / 4 < i + 1
                        && j / 4 < values@.len() && 4 * (j / 4) + 4 <= n {
                        le_bytes_32(values@[j / 4])[j % 4]
                    } else {
                        old(self).data@[j]
                    }) by {
                        lemma_div4_range(j, i as int);
                        if j / 4 == i {
                            lemma_slot_bound(n as int, i as int);
                        }
                    }
                }
            }
            i = i + 1;
        }
        proof {
            assert(self.data@ =~= spec_set_float_bits(old(self).data@, values@));
        }
        Ok(())
    }

    /// Serialize this block, appending exactly `spec_bytes`.
    pub fn write_to_writer(&self, out: &mut Vec<u8>, header: &Header)
        ensures
            final(out)@ == old(out)@ + self@.spec_bytes(header.pointer_size, header.endianness),
    {
        out.push(self.code[0]);
        out.push(self.code[1]);
        out.push(self.code[2]);
        out.push(self.code[3]);
        match header.endianness {
            Endianness::Little => push_u32_le(out, self.size),
            Endianness::Big => push_u32_be(out, self.size),
        }
        match header.pointer_size {
            PointerSize::Bits32 => {
                let a = self.old_memory_address as u32;
                match header.endianness {
                    Endianness::Little => push_u32_le(out, a),
                    Endianness::Big => push_u32_be(out, a),
                }
            },
            PointerSize::Bits64 => {
                match header.endianness {
                    Endianness::Little => push_u64_le(out, self.old_memory_address),
                    Endianness::Big => push_u64_be(out, self.old_memory_address),
                }
            },
        }
        match header.endianness {
            Endianness::Little => push_u32_le(out, self.sdna_index),
            Endianness::Big => push_u32_be(out, self.sdna_index),
        }
        match header.endianness {
            Endianness::Little => push_u32_le(out, self.count),
            Endianness::Big => push_u32_be(out, self.count),
        }
        let mut i: usize = 0;
        let m = self.data.len();
        while i < m
            invariant
                i <= m,
                m == self.data@.len(),
                out@ == old(out)@ + self.code@
                    + u32_bytes(header.endianness, self.size)
                    + addr_bytes(header.pointer_size, header.endianness, self.old_memory_address)
                    + u32_bytes(header.endianness, self.sdna_index)
                    + u32_bytes(header.endianness, self.count)
                    + self.data@.subrange(0, i as int),
            decreases m - i,
        {
            out.push(self.data[i]);
            proof {
                assert(self.data@.subrange(0, i + 1) =~= self.data@.subrange(0, i as int)
                    + seq![self.data@[i as int]]);
            }
            i = i + 1;
        }
        proof {
            assert(self.data@.subrange(0, m as int) =~= self.data@);
            assert(out@ =~= old(out)@ + self@.spec_bytes(header.pointer_size, header.endianness));
        }
    }
}

/// The float-array field round trip: after writing an array of 32-bit
/// values slot by slot, every slot within the payload reads back
/// exactly the value written, every slot beyond the payload reads back
/// zero, and the bytes beyond the written slots are untouched.
pub proof fn lemma_float_field_round_trip(data: Seq<u8>, vals: Seq<u32>, i: int)
    requires
        0 <= i < vals.len(),
    ensures
        4 * i + 4 <= data.len() ==> spec_float_slot(spec_set_float_bits(data, vals), i) == vals[i],
        4 * i + 4 > data.len() ==> spec_float_slot(spec_set_float_bits(data, vals), i) == 0,
        forall|j: int|
            0 <= j < data.len() && j / 4 >= vals.len() ==> #[trigger] spec_set_float_bits(
                data,
                vals,
            )[j] == data[j],
{
    let out = spec_set_float_bits(data, vals);
    if 4 * i + 4 <= data.len() {
        assert forall|k: int| 0 <= k < 4 implies out[4 * i + k] == le_bytes_32(vals[i])[k] by {
            lemma_div4(i, k);
        }
        assert(out.subrange(4 * i, 4 * i + 4) =~= le_bytes_32(vals[i]));
        lemma_le32_reconstruct(vals[i]);
    }
    assert forall|j: int| 0 <= j < data.len() && j / 4 >= vals.len() implies out[j] == data[j] by {}
}

/// The string field round trip: writing a value whose bytes have no
/// NUL and leave a byte of room, then reading the field back, yields
/// the value's bytes exactly, NUL-terminated where the write left it.
pub proof fn lemma_string_field_round_trip(data: Seq<u8>, vb: Seq<u8>)
    requires
        vb.len() < data.len(),
        forall|j: int| 0 <= j < vb.len() ==> #[trigger] vb[j] != 0,
    ensures
        spec_nul_pos(spec_set_string(data, vb)) == vb.len(),
        spec_set_string(data, vb).subrange(0, vb.len() as int) == vb,
{
    let out = spec_set_string(data, vb);
    lemma_nul_pos(out);
    let np = spec_nul_pos(out);
    assert(out[vb.len() as int] == 0);
    if np < vb.len() {
        assert(out[np] == vb[np]);
    }
    if np > vb.len() {
        assert(out[vb.len() as int] != 0);
    }
    assert(out.subrange(0, vb.len() as int) =~= vb);
}

/// Parsing a block that fits and serializing the result reproduces the
/// original bytes.
pub proof fn lemma_block_round_trip(d: Seq<u8>, ps: PointerSize, e: Endianness, pos: int)
    requires
        0 <= pos,
        spec_block_fits(d, ps, e, pos),
    ensures
        spec_parse_block(d, ps, e, pos).wf(ps),
        spec_parse_block(d, ps, e, pos).spec_bytes(ps, e) == d.subrange(
            pos,
            pos + spec_block_len(d, ps, e, pos),
        ),
{
    let b = spec_parse_block(d, ps, e, pos);
    let psb = ps.spec_bytes();
    let plen = spec_prologue_len(ps);
    let size = spec_block_size(d, e, pos);
    match e {
        Endianness::Little => {
            lemma_u32_of_le(d.subrange(pos + 4, pos + 8));
            lemma_u32_of_le(d.subrange(pos + 8 + psb, pos + 12 + psb));
            lemma_u32_of_le(d.subrange(pos + 12 + psb, pos + 16 + psb));
            match ps {
                PointerSize::Bits32 => lemma_u32_of_le(d.subrange(pos + 8, pos + 8 + psb)),
                PointerSize::Bits64 => lemma_u64_of_le(d.subrange(pos + 8, pos + 8 + psb)),
            }
        },
        Endianness::Big => {
            lemma_u32_of_be(d.subrange(pos + 4, pos + 8));
            lemma_u32_of_be(d.subrange(pos + 8 + psb, pos + 12 + psb));
            lemma_u32_of_be(d.subrange(pos + 12 + psb, pos + 16 + psb));
            match ps {
                PointerSize::Bits32 => lemma_u32_of_be(d.subrange(pos + 8, pos + 8 + psb)),
                PointerSize::Bits64 => lemma_u64_of_be(d.subrange(pos + 8, pos + 8 + psb)),
            }
        },
    }
    assert(b.spec_bytes(ps, e) =~= d.subrange(pos, pos + plen + size));
}

/// Walks the block sequence of a buffer, handing out one parsed block
/// at a time until the terminator or the end of the stream.
pub struct BlockIterator<'a> {
    pub data: &'a [u8],
    pub header: &'a Header,
    pub pos: usize,
    pub finished: bool,
}

impl<'a> BlockIterator<'a> {
    /// The cursor stays within the buffer.
    pub open spec fn wf(self) -> bool {
        self.pos <= self.data@.len()
    }

    /// Start a walk at byte `pos` of `data`.
    pub fn new(data: &'a [u8], header: &'a Header, pos: usize) -> (it: BlockIterator<'a>)
        requires
            pos <= data@.len(),
        ensures
            it.wf(),
            it.data@ == data@,
            it.header == header,
            it.pos == pos,
            !it.finished,
    {
        BlockIterator { data, header, pos, finished: false }
    }

    /// The next block, `Ok(None)` once the walk has terminated, or the
    /// error that ended it. After a `None` or an error the iterator
    /// stays finished.
    pub fn next_block(&mut self) -> (r: Result<Option<Block>, BlendFileError>)
        requires
            old(self).wf(),
        ensures
            final(self).wf(),
            final(self).data@ == old(self).data@,
            final(self).header == old(self).header,
            old(self).finished ==> (r matches Ok(None) && *final(self) == *old(self)),
            !old(self).finished ==> match r {
                Ok(Some(b)) => {
                    &&& !final(self).finished
                    &&& old(self).pos + 4 <= old(self).data@.len()
                    &&& old(self).data@.subrange(old(self).pos as int, old(self).pos + 4) != spec_terminator()
                    &&& spec_block_fits(old(self).data@, old(self).header.pointer_size, old(self).header.endianness, old(self).pos as int)
                    &&& b@ == spec_parse_block(old(self).data@, old(self).header.pointer_size, old(self).header.endianness, old(self).pos as int)
                    &&& b@.wf(old(self).header.pointer_size)
                    &&& final(self).pos == old(self).pos + spec_block_len(old(self).data@, old(self).header.pointer_size, old(self).header.endianness, old(self).pos as int)
                },
                Ok(None) => {
                    &&& final(self).finished
                    &&& final(self).pos == old(self).pos
                    &&& (old(self).pos + 4 > old(self).data@.len() || old(self).data@.subrange(
                        old(self).pos as int,
                        old(self).pos + 4,
                    ) == spec_terminator())
                },
                Err(e) => {
                    &&& final(self).finished
                    &&& final(self).pos == old(self).pos
                    &&& old(self).pos + 4 <= old(self).data@.len()
                    &&& old(self).data@.subrange(old(self).pos as int, old(self).pos + 4) != spec_terminator()
                    &&& !spec_block_fits(old(self).data@, old(self).header.pointer_size, old(self).header.endianness, old(self).pos as int)
                    &&& (e matches BlendFileError::IoError(m) && m@
                        == "unexpected end of stream in block"@)
                },
            },
    {
        if self.finished {
            return Ok(None);
        }
        let mut p = self.pos;
        let r = Block::from_reader(self.data, &mut p, self.header);
        match r {
            Ok(Some(b)) => {
                self.pos = p;
                Ok(Some(b))
            },
            Ok(None) => {
                self.finished = true;
                Ok(None)
            },
            Err(e) => {
                self.finished = true;
                Err(e)
            },
        }
    }
}

} // verus!
