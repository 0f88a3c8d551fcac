//! Writing catalog strings: a value is trimmed to whole characters so
//! that its UTF-8 bytes and a NUL terminator fit a fixed-size field.

use vstd::prelude::*;

verus! {

use vstd::string::{StrSliceExecFns, StringExecFns, StringSliceAdditionalSpecFns};
use vstd::utf8::{char_is_scalar, encode_scalar, encode_utf8};

/// Helpers for the big-endian catalog encoding.
#[derive(Debug)]
pub struct BigEndianTypes;

/// How many bytes the UTF-8 encoding of one character takes.
pub open spec fn spec_char_len(c: char) -> int {
    encode_scalar(c as u32).len() as int
}

/// How many whole leading characters fit a byte budget, greedily.
pub open spec fn spec_fit_chars(s: Seq<char>, budget: int) -> int
    decreases s.len(),
{
    if s.len() == 0 {
        0
    } else if spec_char_len(s[0]) > budget {
        0
    } else {
        1 + spec_fit_chars(s.drop_first(), budget - spec_char_len(s[0]))
    }
}

/// The UTF-8 length of one character, computed from its scalar value.
fn char_utf8_len(c: char) -> (r: usize)
    ensures
        r == spec_char_len(c),
        1 <= r <= 4,
{
    proof {
        char_is_scalar(c);
    }
    let u = c as u32;
    if u < 0x80 {
        1
    } else if u < 0x800 {
        2
    } else if u < 0x10000 {
        3
    } else {
        4
    }
}

impl BigEndianTypes {
    /// Append the longest prefix of whole characters of `s` whose
    /// UTF-8 bytes leave room for the NUL terminator within `max_len`
    /// bytes, then the terminator.
    pub fn write_string(buf: &mut Vec<u8>, s: &str, max_len: usize)
        requires
            max_len >= 1,
        ensures
            final(buf)@ == old(buf)@ + encode_utf8(
                s@.take(spec_fit_chars(s@, max_len - 1)),
            ) + seq![0u8],
    {
        let n = s.unicode_len();
        let mut total: usize = 0;
        let mut count: usize = 0;
        let budget = max_len - 1;
        proof {
            assert(s@.skip(0) =~= s@);
        }
        loop
            invariant_except_break
                count <= n,
                n == s@.len(),
                total <= budget,
                budget == max_len - 1,
                spec_fit_chars(s@, budget as int) == count + spec_fit_chars(
                    s@.skip(count as int),
                    budget - total,
                ),
            ensures
                count <= n == s@.len(),
                spec_fit_chars(s@, budget as int) == count,
                budget == max_len - 1,
            decreases n - count,
        {
            if count == n {
                proof {
                    assert(s@.skip(count as int) =~= Seq::<char>::empty());
                }
                break ;
            }
            let c = s.get_char(count);
            let cl = char_utf8_len(c);
            proof {
                assert(s@.skip(count as int)[0] == s@[count as int]);
                assert(s@.skip(count as int).drop_first() =~= s@.skip(count + 1));
            }
            if cl > budget - total {
                break ;
            }
            total = total + cl;
            count = count + 1;
        }
        let trimmed = s.substring_char(0, count);
        let mut encoded = trimmed.as_bytes_vec();
        proof {
            assert(trimmed@ =~= s@.take(spec_fit_chars(s@, max_len - 1)));
        }
        buf.append(&mut encoded);
        buf.push(0);
        proof {
            assert(buf@ =~= old(buf)@ + encode_utf8(s@.take(spec_fit_chars(s@, max_len - 1)))
                + seq![0u8]);
        }
    }
}

} // verus!
