//! Text helpers: building diagnostic strings and decoding payload bytes.

use vstd::prelude::*;

verus! {

use vstd::string::{StringExecFns, StringSliceAdditionalSpecFns};
use vstd::utf8::{decode_utf8, valid_utf8};

/// Relies on `String::push`: appends exactly the given character.
pub assume_specification[ String::push ](s: &mut String, c: char)
    ensures
        final(s)@ == old(s)@ + seq![c],
;

/// What `String::from_utf8_lossy` makes of a byte sequence.
pub uninterp spec fn utf8_lossy(bytes: Seq<u8>) -> Seq<char>;

/// Relies on `String::from_utf8_lossy`: valid UTF-8 input is decoded
/// exactly; invalid sequences are replaced, but the result still
/// depends on the input bytes alone.
#[verifier::external_body]
pub fn lossy_string(bytes: &[u8]) -> (r: String)
    ensures
        r@ == utf8_lossy(bytes@),
        valid_utf8(bytes@) ==> r@ == decode_utf8(bytes@),
{
    String::from_utf8_lossy(bytes).into_owned()
}

/// The character for one decimal digit.
pub open spec fn digit_char(n: int) -> char {
    ((48 + n) as u8) as char
}

/// The decimal text of a non-negative number.
pub open spec fn dec_chars(n: int) -> Seq<char>
    recommends
        n >= 0,
    decreases n,
{
    if n < 10 {
        seq![digit_char(n)]
    } else {
        dec_chars(n / 10) + seq![digit_char(n % 10)]
    }
}

/// Append the decimal text of one byte value.
pub fn push_dec_byte(s: &mut String, b: u8)
    ensures
        final(s)@ == old(s)@ + dec_chars(b as int),
{
    if b < 10 {
        s.push((48 + b) as char);
    } else if b < 100 {
        s.push((48 + b / 10) as char);
        s.push((48 + b % 10) as char);
        proof {
            assert(dec_chars(b as int / 10) =~= seq![digit_char(b as int / 10)]);
            assert(dec_chars(b as int) =~= seq![digit_char(b as int / 10), digit_char(b as int % 10)]);
        }
    } else {
        s.push((48 + b / 100) as char);
        s.push((48 + (b / 10) % 10) as char);
        s.push((48 + b % 10) as char);
        proof {
            vstd::arithmetic::div_mod::lemma_div_denominator(b as int, 10, 10);
            assert(dec_chars(b as int / 100) =~= seq![digit_char(b as int / 100)]);
            assert(dec_chars(b as int / 10) =~= seq![
                digit_char(b as int / 100),
                digit_char((b as int / 10) % 10),
            ]);
            assert(dec_chars(b as int) =~= seq![
                digit_char(b as int / 100),
                digit_char((b as int / 10) % 10),
                digit_char(b as int % 10),
            ]);
        }
    }
    proof {
        assert(s@ =~= old(s)@ + dec_chars(b as int));
    }
}

/// Compare two string slices by value.
pub fn str_eq(a: &str, b: &str) -> (r: bool)
    ensures
        r == (a@ == b@),
{
    let ab = a.as_bytes();
    let bb = b.as_bytes();
    if ab.len() != bb.len() {
        proof {
            lemma_encode_injective(a@, b@);
        }
        return false;
    }
    let n = ab.len();
    let mut i: usize = 0;
    while i < n
        invariant
            i <= n,
            n == ab@.len() == bb@.len(),
            ab@ == a.spec_bytes(),
            bb@ == b.spec_bytes(),
            forall|j: int| 0 <= j < i ==> ab@[j] == bb@[j],
        decreases n - i,
    {
        if ab[i] != bb[i] {
            proof {
                lemma_encode_injective(a@, b@);
            }
            return false;
        }
        i = i + 1;
    }
    proof {
        assert(a.spec_bytes() =~= b.spec_bytes());
        lemma_encode_injective(a@, b@);
    }
    true
}

/// UTF-8 encoding is injective: equal byte encodings mean equal texts.
pub proof fn lemma_encode_injective(a: Seq<char>, b: Seq<char>)
    ensures
        (vstd::utf8::encode_utf8(a) == vstd::utf8::encode_utf8(b)) <==> (a == b),
{
    vstd::utf8::encode_utf8_decode_utf8(a);
    vstd::utf8::encode_utf8_decode_utf8(b);
}

} // verus!
