//! Little- and big-endian encodings of the fixed-width integers that
//! appear in block prologues, together with the facts that make
//! parse/serialize round trips immediate.

use vstd::prelude::*;

verus! {

use vstd::arithmetic::div_mod::lemma_div_denominator;

/// The four bytes of `x` in little-endian order.
pub open spec fn le_bytes_32(x: u32) -> Seq<u8> {
    seq![
        (x % 256) as u8,
        ((x / 256) % 256) as u8,
        ((x / 65536) % 256) as u8,
        ((x / 16777216) % 256) as u8,
    ]
}

/// The four bytes of `x` in big-endian order.
pub open spec fn be_bytes_32(x: u32) -> Seq<u8> {
    seq![
        ((x / 16777216) % 256) as u8,
        ((x / 65536) % 256) as u8,
        ((x / 256) % 256) as u8,
        (x % 256) as u8,
    ]
}

/// The eight bytes of `x` in little-endian order.
pub open spec fn le_bytes_64(x: u64) -> Seq<u8> {
    seq![
        (x % 256) as u8,
        ((x / 256) % 256) as u8,
        ((x / 65536) % 256) as u8,
        ((x / 16777216) % 256) as u8,
        ((x / 4294967296) % 256) as u8,
        ((x / 1099511627776) % 256) as u8,
        ((x / 281474976710656) % 256) as u8,
        ((x / 72057594037927936) % 256) as u8,
    ]
}

/// The eight bytes of `x` in big-endian order.
pub open spec fn be_bytes_64(x: u64) -> Seq<u8> {
    le_bytes_64(x).reverse()
}

/// The value with little-endian digits `b0..b3`.
pub open spec fn le_val_32(b0: u8, b1: u8, b2: u8, b3: u8) -> int {
    b0 + 256 * b1 + 65536 * b2 + 16777216 * b3
}

/// The value with little-endian digits `b0..b7`.
pub open spec fn le_val_64(b0: u8, b1: u8, b2: u8, b3: u8, b4: u8, b5: u8, b6: u8, b7: u8) -> int {
    b0 + 256 * b1 + 65536 * b2 + 16777216 * b3 + 4294967296 * b4 + 1099511627776 * b5
        + 281474976710656 * b6 + 72057594037927936 * b7
}

/// Recombining four base-256 digits and taking them apart again gives
/// the digits back.
pub proof fn lemma_le32_digits(b0: u8, b1: u8, b2: u8, b3: u8)
    ensures
        0 <= le_val_32(b0, b1, b2, b3) <= u32::MAX,
        le_bytes_32(le_val_32(b0, b1, b2, b3) as u32) == seq![b0, b1, b2, b3],
{
    let x = le_val_32(b0, b1, b2, b3) as u32;
    assert(x % 256 == b0) by (nonlinear_arith)
        requires x == b0 + 256 * b1 + 65536 * b2 + 16777216 * b3;
    assert((x / 256) % 256 == b1) by (nonlinear_arith)
        requires x == b0 + 256 * b1 + 65536 * b2 + 16777216 * b3;
    assert((x / 65536) % 256 == b2) by (nonlinear_arith)
        requires x == b0 + 256 * b1 + 65536 * b2 + 16777216 * b3;
    assert((x / 16777216) % 256 == b3) by (nonlinear_arith)
        requires x == b0 + 256 * b1 + 65536 * b2 + 16777216 * b3;
    assert(le_bytes_32(x) =~= seq![b0, b1, b2, b3]);
}

/// The fundamental step: peeling one base-256 digit off a value.
proof fn lemma_digit(x: int, d: u8, q: int)
    requires
        0 <= q,
        x == d + 256 * q,
    ensures
        x % 256 == d,
        x / 256 == q,
{
    assert(x % 256 == d && x / 256 == q) by (nonlinear_arith)
        requires
            0 <= q,
            0 <= d < 256,
            x == d + 256 * q,
    ;
}

/// The same for eight digits, peeled off one at a time.
pub proof fn lemma_le64_digits(b0: u8, b1: u8, b2: u8, b3: u8, b4: u8, b5: u8, b6: u8, b7: u8)
    ensures
        0 <= le_val_64(b0, b1, b2, b3, b4, b5, b6, b7) <= u64::MAX,
        le_bytes_64(le_val_64(b0, b1, b2, b3, b4, b5, b6, b7) as u64) == seq![b0, b1, b2, b3, b4, b5, b6, b7],
{
    let x = le_val_64(b0, b1, b2, b3, b4, b5, b6, b7);
    let q7: int = b7 as int;
    let q6: int = b6 + 256 * q7;
    let q5: int = b5 + 256 * q6;
    let q4: int = b4 + 256 * q5;
    let q3: int = b3 + 256 * q4;
    let q2: int = b2 + 256 * q3;
    let q1: int = b1 + 256 * q2;
    assert(x == b0 + 256 * q1);
    lemma_digit(x, b0, q1);
    lemma_digit(q1, b1, q2);
    lemma_digit(q2, b2, q3);
    lemma_digit(q3, b3, q4);
    lemma_digit(q4, b4, q5);
    lemma_digit(q5, b5, q6);
    lemma_digit(q6, b6, q7);
    lemma_div_denominator(x, 256, 256);
    assert(x / 65536 == q2);
    lemma_div_denominator(x, 65536, 256);
    assert(x / 16777216 == q3);
    lemma_div_denominator(x, 16777216, 256);
    assert(x / 4294967296 == q4);
    lemma_div_denominator(x, 4294967296, 256);
    assert(x / 1099511627776 == q5);
    lemma_div_denominator(x, 1099511627776, 256);
    assert(x / 281474976710656 == q6);
    lemma_div_denominator(x, 281474976710656, 256);
    assert(x / 72057594037927936 == q7);
    let xu = x as u64;
    assert(le_bytes_64(xu) =~= seq![b0, b1, b2, b3, b4, b5, b6, b7]);
}

/// The value of four little-endian bytes.
pub open spec fn u32_of_le(s: Seq<u8>) -> int
    recommends
        s.len() == 4,
{
    le_val_32(s[0], s[1], s[2], s[3])
}

/// The value of four big-endian bytes.
pub open spec fn u32_of_be(s: Seq<u8>) -> int
    recommends
        s.len() == 4,
{
    le_val_32(s[3], s[2], s[1], s[0])
}

/// The value of eight little-endian bytes.
pub open spec fn u64_of_le(s: Seq<u8>) -> int
    recommends
        s.len() == 8,
{
    le_val_64(s[0], s[1], s[2], s[3], s[4], s[5], s[6], s[7])
}

/// The value of eight big-endian bytes.
pub open spec fn u64_of_be(s: Seq<u8>) -> int
    recommends
        s.len() == 8,
{
    le_val_64(s[7], s[6], s[5], s[4], s[3], s[2], s[1], s[0])
}

/// Four bytes encode exactly one value: decoding them gives a `u32`
/// whose encoding is the bytes again.
pub proof fn lemma_u32_of_le(s: Seq<u8>)
    requires
        s.len() == 4,
    ensures
        0 <= u32_of_le(s) <= u32::MAX,
        le_bytes_32(u32_of_le(s) as u32) == s,
{
    lemma_le32_digits(s[0], s[1], s[2], s[3]);
    assert(seq![s[0], s[1], s[2], s[3]] =~= s);
}

/// The big-endian counterpart.
pub proof fn lemma_u32_of_be(s: Seq<u8>)
    requires
        s.len() == 4,
    ensures
        0 <= u32_of_be(s) <= u32::MAX,
        be_bytes_32(u32_of_be(s) as u32) == s,
{
    lemma_le32_digits(s[3], s[2], s[1], s[0]);
    let x = u32_of_be(s) as u32;
    assert(le_bytes_32(x) == seq![s[3], s[2], s[1], s[0]]);
    assert(be_bytes_32(x) =~= s);
}

/// Eight little-endian bytes encode exactly one value.
pub proof fn lemma_u64_of_le(s: Seq<u8>)
    requires
        s.len() == 8,
    ensures
        0 <= u64_of_le(s) <= u64::MAX,
        le_bytes_64(u64_of_le(s) as u64) == s,
{
    lemma_le64_digits(s[0], s[1], s[2], s[3], s[4], s[5], s[6], s[7]);
    assert(seq![s[0], s[1], s[2], s[3], s[4], s[5], s[6], s[7]] =~= s);
}

/// The big-endian counterpart.
pub proof fn lemma_u64_of_be(s: Seq<u8>)
    requires
        s.len() == 8,
    ensures
        0 <= u64_of_be(s) <= u64::MAX,
        be_bytes_64(u64_of_be(s) as u64) == s,
{
    lemma_le64_digits(s[7], s[6], s[5], s[4], s[3], s[2], s[1], s[0]);
    let x = u64_of_be(s) as u64;
    assert(le_bytes_64(x) == seq![s[7], s[6], s[5], s[4], s[3], s[2], s[1], s[0]]);
    assert(be_bytes_64(x) =~= s);
}

/// Taking a value apart into digits and recombining them gives the
/// value back.
pub proof fn lemma_le32_reconstruct(x: u32)
    ensures
        u32_of_le(le_bytes_32(x)) == x,
        u32_of_be(be_bytes_32(x)) == x,
{
    let d0 = x as int % 256;
    let r1 = x as int / 256;
    let d1 = r1 % 256;
    let r2 = r1 / 256;
    let d2 = r2 % 256;
    let r3 = r2 / 256;
    lemma_div_denominator(x as int, 256, 256);
    lemma_div_denominator(x as int, 65536, 256);
    assert(r2 == x as int / 65536);
    assert(r3 == x as int / 16777216);
    assert(r3 < 256);
    assert(x == d0 + 256 * d1 + 65536 * d2 + 16777216 * r3);
}

/// The 64-bit counterpart.
pub proof fn lemma_le64_reconstruct(x: u64)
    ensures
        u64_of_le(le_bytes_64(x)) == x,
        u64_of_be(be_bytes_64(x)) == x,
{
    let d0 = x as int % 256;
    let r1 = x as int / 256;
    let d1 = r1 % 256;
    let r2 = r1 / 256;
    let d2 = r2 % 256;
    let r3 = r2 / 256;
    let d3 = r3 % 256;
    let r4 = r3 / 256;
    let d4 = r4 % 256;
    let r5 = r4 / 256;
    let d5 = r5 % 256;
    let r6 = r5 / 256;
    let d6 = r6 % 256;
    let r7 = r6 / 256;
    lemma_div_denominator(x as int, 256, 256);
    lemma_div_denominator(x as int, 65536, 256);
    lemma_div_denominator(x as int, 16777216, 256);
    lemma_div_denominator(x as int, 4294967296, 256);
    lemma_div_denominator(x as int, 1099511627776, 256);
    lemma_div_denominator(x as int, 281474976710656, 256);
    assert(r2 == x as int / 65536);
    assert(r3 == x as int / 16777216);
    assert(r4 == x as int / 4294967296);
    assert(r5 == x as int / 1099511627776);
    assert(r6 == x as int / 281474976710656);
    assert(r7 == x as int / 72057594037927936);
    assert(r7 < 256);
    assert(x == d0 + 256 * d1 + 65536 * d2 + 16777216 * d3 + 4294967296 * d4
        + 1099511627776 * d5 + 281474976710656 * d6 + 72057594037927936 * r7);
    assert(be_bytes_64(x).len() == 8);
}

/// Read a little-endian `u32` at `pos`.
pub fn read_u32_le(data: &[u8], pos: usize) -> (x: u32)
    requires
        pos + 4 <= data@.len(),
    ensures
        le_bytes_32(x) == data@.subrange(pos as int, pos as int + 4),
{
    let n = data.len();
    let b0 = data[pos];
    let b1 = data[pos + 1];
    let b2 = data[pos + 2];
    let b3 = data[pos + 3];
    proof {
        lemma_le32_digits(b0, b1, b2, b3);
        assert(data@.subrange(pos as int, pos as int + 4) =~= seq![b0, b1, b2, b3]);
    }
    (b0 as u32) + 256 * (b1 as u32) + 65536 * (b2 as u32) + 16777216 * (b3 as u32)
}

/// Read a big-endian `u32` at `pos`.
pub fn read_u32_be(data: &[u8], pos: usize) -> (x: u32)
    requires
        pos + 4 <= data@.len(),
    ensures
        be_bytes_32(x) == data@.subrange(pos as int, pos as int + 4),
{
    let n = data.len();
    let b0 = data[pos + 3];
    let b1 = data[pos + 2];
    let b2 = data[pos + 1];
    let b3 = data[pos];
    proof {
        lemma_le32_digits(b0, b1, b2, b3);
        assert(data@.subrange(pos as int, pos as int + 4) =~= seq![b3, b2, b1, b0]);
    }
    let x = (b0 as u32) + 256 * (b1 as u32) + 65536 * (b2 as u32) + 16777216 * (b3 as u32);
    proof {
        assert(be_bytes_32(x) =~= seq![b3, b2, b1, b0]);
    }
    x
}

/// Read a little-endian `u64` at `pos`.
pub fn read_u64_le(data: &[u8], pos: usize) -> (x: u64)
    requires
        pos + 8 <= data@.len(),
    ensures
        le_bytes_64(x) == data@.subrange(pos as int, pos as int + 8),
{
    let n = data.len();
    let b0 = data[pos];
    let b1 = data[pos + 1];
    let b2 = data[pos + 2];
    let b3 = data[pos + 3];
    let b4 = data[pos + 4];
    let b5 = data[pos + 5];
    let b6 = data[pos + 6];
    let b7 = data[pos + 7];
    proof {
        lemma_le64_digits(b0, b1, b2, b3, b4, b5, b6, b7);
        assert(data@.subrange(pos as int, pos as int + 8) =~= seq![b0, b1, b2, b3, b4, b5, b6, b7]);
    }
    (b0 as u64) + 256 * (b1 as u64) + 65536 * (b2 as u64) + 16777216 * (b3 as u64)
        + 4294967296 * (b4 as u64) + 1099511627776 * (b5 as u64)
        + 281474976710656 * (b6 as u64) + 72057594037927936 * (b7 as u64)
}

/// Read a big-endian `u64` at `pos`.
pub fn read_u64_be(data: &[u8], pos: usize) -> (x: u64)
    requires
        pos + 8 <= data@.len(),
    ensures
        be_bytes_64(x) == data@.subrange(pos as int, pos as int + 8),
{
    let n = data.len();
    let b0 = data[pos + 7];
    let b1 = data[pos + 6];
    let b2 = data[pos + 5];
    let b3 = data[pos + 4];
    let b4 = data[pos + 3];
    let b5 = data[pos + 2];
    let b6 = data[pos + 1];
    let b7 = data[pos];
    proof {
        lemma_le64_digits(b0, b1, b2, b3, b4, b5, b6, b7);
        assert(data@.subrange(pos as int, pos as int + 8) =~= seq![b7, b6, b5, b4, b3, b2, b1, b0]);
    }
    let x = (b0 as u64) + 256 * (b1 as u64) + 65536 * (b2 as u64) + 16777216 * (b3 as u64)
        + 4294967296 * (b4 as u64) + 1099511627776 * (b5 as u64)
        + 281474976710656 * (b6 as u64) + 72057594037927936 * (b7 as u64);
    proof {
        assert(be_bytes_64(x) =~= seq![b7, b6, b5, b4, b3, b2, b1, b0]);
    }
    x
}

/// Append the little-endian bytes of `x`.
pub fn push_u32_le(out: &mut Vec<u8>, x: u32)
    ensures
        final(out)@ == old(out)@ + le_bytes_32(x),
{
    out.push((x % 256) as u8);
    out.push(((x / 256) % 256) as u8);
    out.push(((x / 65536) % 256) as u8);
    out.push(((x / 16777216) % 256) as u8);
    proof {
        assert(out@ =~= old(out)@ + le_bytes_32(x));
    }
}

/// Append the big-endian bytes of `x`.
pub fn push_u32_be(out: &mut Vec<u8>, x: u32)
    ensures
        final(out)@ == old(out)@ + be_bytes_32(x),
{
    out.push(((x / 16777216) % 256) as u8);
    out.push(((x / 65536) % 256) as u8);
    out.push(((x / 256) % 256) as u8);
    out.push((x % 256) as u8);
    proof {
        assert(out@ =~= old(out)@ + be_bytes_32(x));
    }
}

/// Append the little-endian bytes of `x`.
pub fn push_u64_le(out: &mut Vec<u8>, x: u64)
    ensures
        final(out)@ == old(out)@ + le_bytes_64(x),
{
    out.push((x % 256) as u8);
    out.push(((x / 256) % 256) as u8);
    out.push(((x / 65536) % 256) as u8);
    out.push(((x / 16777216) % 256) as u8);
    out.push(((x / 4294967296) % 256) as u8);
    out.push(((x / 1099511627776) % 256) as u8);
    out.push(((x / 281474976710656) % 256) as u8);
    out.push(((x / 72057594037927936) % 256) as u8);
    proof {
        assert(out@ =~= old(out)@ + le_bytes_64(x));
    }
}

/// Append the big-endian bytes of `x`.
pub fn push_u64_be(out: &mut Vec<u8>, x: u64)
    ensures
        final(out)@ == old(out)@ + be_bytes_64(x),
{
    out.push(((x / 72057594037927936) % 256) as u8);
    out.push(((x / 281474976710656) % 256) as u8);
    out.push(((x / 1099511627776) % 256) as u8);
    out.push(((x / 4294967296) % 256) as u8);
    out.push(((x / 16777216) % 256) as u8);
    out.push(((x / 65536) % 256) as u8);
    out.push(((x / 256) % 256) as u8);
    out.push((x % 256) as u8);
    proof {
        assert(out@ =~= old(out)@ + be_bytes_64(x));
    }
}

} // verus!
