//! Catalog field-name decoding: a field name like `*mtex[18]` carries
//! pointer markers and array sizes that this type takes apart.

use vstd::prelude::*;

verus! {

use vstd::string::{StrSliceExecFns, StringExecFns};

/// A field name as the catalog spells it, with its markers.
#[derive(Debug, Clone, PartialEq, Eq)]
pub struct DnaName {
    pub name_full: String,
}

/// Index of the first occurrence of `c`, or the length.
pub open spec fn spec_find_char(s: Seq<char>, c: char) -> int
    decreases s.len(),
{
    if s.len() == 0 {
        0
    } else if s[0] == c {
        0
    } else {
        1 + spec_find_char(s.drop_first(), c)
    }
}

/// Nothing before the first occurrence matches, and the character
/// there, if any, does.
pub proof fn lemma_find_char(s: Seq<char>, c: char)
    ensures
        0 <= spec_find_char(s, c) <= s.len(),
        spec_find_char(s, c) < s.len() ==> s[spec_find_char(s, c)] == c,
        forall|j: int| 0 <= j < spec_find_char(s, c) ==> s[j] != c,
    decreases s.len(),
{
    if s.len() != 0 && s[0] != c {
        lemma_find_char(s.drop_first(), c);
        assert forall|j: int| 0 <= j < spec_find_char(s, c) implies s[j] != c by {
            if j > 0 {
                assert(s.drop_first()[j - 1] != c);
            }
        }
    }
}

/// True when the method-pointer closer `)()` starts at `i`.
pub open spec fn spec_mp_close_at(s: Seq<char>, i: int) -> bool {
    i + 3 <= s.len() && s[i] == ')' && s[i + 1] == '(' && s[i + 2] == ')'
}

/// Index of the first `)()`, or the length.
pub open spec fn spec_find_mp_close(s: Seq<char>) -> int
    decreases s.len(),
{
    if s.len() == 0 {
        0
    } else if spec_mp_close_at(s, 0) {
        0
    } else {
        1 + spec_find_mp_close(s.drop_first())
    }
}

/// Nothing before the first `)()` opens one, and one starts exactly
/// there unless the scan ran off the end.
pub proof fn lemma_find_mp_close(s: Seq<char>)
    ensures
        0 <= spec_find_mp_close(s) <= s.len(),
        spec_find_mp_close(s) < s.len() ==> spec_mp_close_at(s, spec_find_mp_close(s)),
        forall|j: int| 0 <= j < spec_find_mp_close(s) ==> !spec_mp_close_at(s, j),
    decreases s.len(),
{
    if s.len() != 0 && !spec_mp_close_at(s, 0) {
        lemma_find_mp_close(s.drop_first());
        assert forall|j: int| 0 <= j < spec_find_mp_close(s) implies !spec_mp_close_at(s, j) by {
            if j > 0 {
                assert(!spec_mp_close_at(s.drop_first(), j - 1));
                if spec_mp_close_at(s, j) {
                    assert(s.drop_first()[j - 1] == s[j]);
                    assert(s.drop_first()[j] == s[j + 1]);
                    assert(s.drop_first()[j + 1] == s[j + 2]);
                }
            }
        }
        if spec_find_mp_close(s) < s.len() {
            let k = spec_find_mp_close(s.drop_first());
            assert(spec_mp_close_at(s.drop_first(), k));
            assert(s[k + 1] == s.drop_first()[k]);
            assert(s[k + 2] == s.drop_first()[k + 1]);
            assert(s[k + 3] == s.drop_first()[k + 2]);
        }
    }
}

/// The bare field name: pointer and method-pointer markers and array
/// brackets stripped.
pub open spec fn spec_name_only(s: Seq<char>) -> Seq<char> {
    let t = if s.len() >= 2 && s[0] == '(' && s[1] == '*' {
        let u = s.skip(2);
        u.take(spec_find_mp_close(u))
    } else if s.len() >= 1 && s[0] == '*' {
        s.skip(1)
    } else {
        s
    };
    t.take(spec_find_char(t, '['))
}

/// The digit text of a number, with an optional leading plus removed.
pub open spec fn spec_plus_stripped(s: Seq<char>) -> Seq<char> {
    if s.len() >= 1 && s[0] == '+' {
        s.drop_first()
    } else {
        s
    }
}

/// The value usize-parsing gives a digit string: an optional leading
/// plus, then at least one decimal digit, rejected when the value
/// overflows the machine word.
pub open spec fn spec_parse_usize(s: Seq<char>) -> Option<int> {
    let t = spec_plus_stripped(s);
    if t.len() >= 1 && (forall|j: int| 0 <= j < t.len() ==> is_dec_digit(#[trigger] t[j]))
        && spec_digits_val(t) <= usize::MAX {
        Option::Some(spec_digits_val(t))
    } else {
        Option::None
    }
}

/// A non-digit anywhere in the stripped text fails the parse.
pub proof fn lemma_parse_none_at(s: Seq<char>, j: int)
    requires
        0 <= j < spec_plus_stripped(s).len(),
        !is_dec_digit(spec_plus_stripped(s)[j]),
    ensures
        spec_parse_usize(s) is None,
{
    if spec_parse_usize(s) is Some {
        assert(is_dec_digit(spec_plus_stripped(s)[j]));
    }
}

/// A digit prefix already past the machine word fails the parse.
pub proof fn lemma_parse_none_overflow(s: Seq<char>, k: int)
    requires
        0 <= k <= spec_plus_stripped(s).len(),
        forall|j: int| 0 <= j < k ==> is_dec_digit(#[trigger] spec_plus_stripped(s)[j]),
        spec_digits_val(spec_plus_stripped(s).take(k)) > usize::MAX,
    ensures
        spec_parse_usize(s) is None,
{
    lemma_digits_prefix_overflow(spec_plus_stripped(s), k);
}

pub open spec fn is_dec_digit(c: char) -> bool {
    '0' <= c <= '9'
}

/// The value of a digit string, read left to right.
pub open spec fn spec_digits_val(s: Seq<char>) -> int
    decreases s.len(),
{
    if s.len() == 0 {
        0
    } else {
        spec_digits_val(s.drop_last()) * 10 + (s.last() as int - '0' as int)
    }
}

/// The declared array element count of a name, accumulated factor by
/// factor: each `[n]` group multiplies the count, a group that does
/// not parse as a number is skipped, and a missing closing bracket
/// ends the scan. `None` when a running product would not fit the
/// machine word.
pub open spec fn spec_array_size_from(s: Seq<char>, acc: int) -> Option<int>
    decreases s.len(),
    via spec_array_size_from_decreases
{
    let a = spec_find_char(s, '[');
    if a >= s.len() {
        Option::Some(acc)
    } else {
        let rest = s.skip(a + 1);
        let b = spec_find_char(rest, ']');
        if b >= rest.len() {
            Option::Some(acc)
        } else {
            let tail = rest.skip(b + 1);
            match spec_parse_usize(rest.take(b)) {
                Option::Some(v) => {
                    if acc * v > usize::MAX {
                        Option::None
                    } else {
                        spec_array_size_from(tail, acc * v)
                    }
                },
                Option::None => spec_array_size_from(tail, acc),
            }
        }
    }
}

#[via_fn]
proof fn spec_array_size_from_decreases(s: Seq<char>, acc: int) {
    lemma_find_char(s, '[');
    let a = spec_find_char(s, '[');
    if a < s.len() {
        lemma_find_char(s.skip(a + 1), ']');
    }
}

impl DnaName {
    /// Wrap a raw catalog field name.
    pub fn new(name: &str) -> (r: DnaName)
        ensures
            r.name_full@ == name@,
    {
        DnaName { name_full: String::from_str(name) }
    }

    /// The bare name: `(*` and `)()` around a method pointer, a
    /// leading `*`, and array brackets are stripped.
    pub fn name_only(&self) -> (r: String)
        ensures
            r@ == spec_name_only(self.name_full@),
    {
        let s = self.name_full.as_str();
        let n = s.unicode_len();
        let t: &str;
        if n >= 2 && s.get_char(0) == '(' && s.get_char(1) == '*' {
            let u = s.substring_char(2, n);
            let un = n - 2;
            let ghost uv = self.name_full@.skip(2);
            proof {
                assert(u@ =~= uv);
            }
            let mut k: usize = 0;
            let mut found = false;
            while k < un && !found
                invariant
                    k <= un,
                    un == uv.len(),
                    u@ == uv,
                    forall|j: int| 0 <= j < k ==> !spec_mp_close_at(uv, j),
                    found ==> spec_mp_close_at(uv, k as int),
                decreases un - k + (if found {
                    0int
                } else {
                    1int
                }),
            {
                if un - k > 2 && u.get_char(k) == ')' && u.get_char(k + 1) == '(' && u.get_char(
                    k + 2,
                ) == ')' {
                    found = true;
                } else {
                    proof {
                        assert(!spec_mp_close_at(uv, k as int));
                    }
                    k = k + 1;
                }
            }
            proof {
                lemma_find_mp_close(uv);
                if found {
                    assert(spec_find_mp_close(uv) == k);
                } else {
                    assert(spec_find_mp_close(uv) == k);
                }
            }
            t = u.substring_char(0, k);
        } else if n >= 1 && s.get_char(0) == '*' {
            t = s.substring_char(1, n);
            proof {
                assert(t@ =~= self.name_full@.skip(1));
            }
        } else {
            t = s;
        }
        let tn = t.unicode_len();
        let mut k2: usize = 0;
        while k2 < tn && t.get_char(k2) != '['
            invariant
                k2 <= tn,
                tn == t@.len(),
                forall|j: int| 0 <= j < k2 ==> t@[j] != '[',
            decreases tn - k2,
        {
            k2 = k2 + 1;
        }
        proof {
            lemma_find_char(t@, '[');
            assert(spec_find_char(t@, '[') == k2);
        }
        String::from_str(t.substring_char(0, k2))
    }

    /// True when the name is a pointer or method pointer.
    pub fn is_pointer(&self) -> (r: bool)
        ensures
            r == {
                let s = self.name_full@;
                (s.len() >= 1 && s[0] == '*') || (s.len() >= 2 && s[0] == '(' && s[1] == '*')
            },
    {
        let s = self.name_full.as_str();
        let n = s.unicode_len();
        (n >= 1 && s.get_char(0) == '*') || (n >= 2 && s.get_char(0) == '(' && s.get_char(1) == '*')
    }

    /// True when the name is a method pointer, spelled `(*name)()`.
    pub fn is_method_pointer(&self) -> (r: bool)
        ensures
            r == {
                let s = self.name_full@;
                s.len() >= 2 && s[0] == '(' && s[1] == '*'
            },
    {
        let s = self.name_full.as_str();
        let n = s.unicode_len();
        n >= 2 && s.get_char(0) == '(' && s.get_char(1) == '*'
    }

    /// The total array element count the bracket groups declare.
    pub fn array_size(&self) -> (r: usize)
        requires
            spec_array_size_from(self.name_full@, 1) is Some,
        ensures
            r == spec_array_size_from(self.name_full@, 1).unwrap(),
    {
        let s = self.name_full.as_str();
        let mut size: usize = 1;
        let mut pos: usize = 0;
        let n = s.unicode_len();
        proof {
            assert(s@.skip(0) =~= s@);
        }
        loop
            invariant_except_break
                pos <= n,
                n == s@.len(),
                spec_array_size_from(self.name_full@, 1) is Some,
                spec_array_size_from(s@.skip(pos as int), size as int) == spec_array_size_from(
                    self.name_full@,
                    1,
                ),
            ensures
                size == spec_array_size_from(self.name_full@, 1).unwrap(),
            decreases n - pos,
        {
            let ghost rem = s@.skip(pos as int);
            let mut a = pos;
            while a < n && s.get_char(a) != '['
                invariant
                    pos <= a <= n,
                    n == s@.len(),
                    rem == s@.skip(pos as int),
                    forall|j: int| pos <= j < a ==> s@[j] != '[',
                decreases n - a,
            {
                a = a + 1;
            }
            proof {
                lemma_find_char(rem, '[');
                assert forall|j: int| 0 <= j < a - pos implies rem[j] != '[' by {
                    assert(rem[j] == s@[pos + j]);
                }
                if spec_find_char(rem, '[') < a - pos {
                    assert(rem[spec_find_char(rem, '[')] == '[');
                }
                if a < n {
                    assert(rem[a - pos] == s@[a as int]);
                }
                assert(spec_find_char(rem, '[') == a - pos);
            }
            if a == n {
                break ;
            }
            let ghost rest = s@.skip(a + 1);
            let mut b = a + 1;
            while b < n && s.get_char(b) != ']'
                invariant
                    a + 1 <= b <= n,
                    n == s@.len(),
                    rest == s@.skip(a + 1),
                    forall|j: int| a + 1 <= j < b ==> s@[j] != ']',
                decreases n - b,
            {
                b = b + 1;
            }
            proof {
                lemma_find_char(rest, ']');
                assert forall|j: int| 0 <= j < b - a - 1 implies rest[j] != ']' by {
                    assert(rest[j] == s@[a + 1 + j]);
                }
                if spec_find_char(rest, ']') < b - a - 1 {
                    assert(rest[spec_find_char(rest, ']')] == ']');
                }
                if b < n {
                    assert(rest[b - a - 1] == s@[b as int]);
                }
                assert(spec_find_char(rest, ']') == b - a - 1);
                assert(rem.skip((a - pos) + 1) =~= s@.skip(a + 1));
            }
            if b == n {
                break ;
            }
            proof {
                assert(rest.take(b - a - 1) =~= s@.subrange(a + 1, b as int));
                assert(rest.skip(b - a - 1 + 1) =~= s@.skip(b + 1));
            }
            let num = s.substring_char(a + 1, b);
            match parse_usize_str(num) {
                Some(v) => {
                    proof {
                        assert(spec_parse_usize(rest.take(b - a - 1)) == Option::Some(v as int));
                        assert(spec_array_size_from(rem, size as int) == (if size as int * v as int
                            > usize::MAX {
                            Option::<int>::None
                        } else {
                            spec_array_size_from(s@.skip(b + 1), size as int * v as int)
                        }));
                    }
                    let prod = match size.checked_mul(v) {
                        Some(p) => p,
                        None => {
                            proof {
                                assert(size as int * v as int > usize::MAX);
                                assert(spec_array_size_from(rem, size as int) is None);
                                assert(false);
                            }
                            0
                        },
                    };
                    size = prod;
                },
                None => {
                    proof {
                        assert(spec_parse_usize(rest.take(b - a - 1)) is None);
                        assert(spec_array_size_from(rem, size as int) == spec_array_size_from(
                            s@.skip(b + 1),
                            size as int,
                        ));
                    }
                },
            }
            pos = b + 1;
        }
        size
    }
}

/// Parse decimal text as the machine-word parser would: an optional
/// leading plus, then digits, `None` on other text or overflow.
fn parse_usize_str(s: &str) -> (r: Option<usize>)
    ensures
        match r {
            Some(v) => spec_parse_usize(s@) == Option::Some(v as int),
            None => spec_parse_usize(s@) is None,
        },
{
    let n = s.unicode_len();
    let start: usize = if n >= 1 && s.get_char(0) == '+' {
        1
    } else {
        0
    };
    let ghost t = spec_plus_stripped(s@);
    proof {
        assert(t =~= s@.skip(start as int));
        assert(s@.skip(start as int).len() == n - start);
    }
    if n == start {
        return None;
    }
    let mut val: u128 = 0;
    let mut i = start;
    proof {
        assert(t.take(0) =~= Seq::<char>::empty());
    }
    while i < n
        invariant
            start <= i <= n,
            n == s@.len(),
            t == s@.skip(start as int),
            t == spec_plus_stripped(s@),
            t.len() == n - start,
            val <= usize::MAX,
            forall|j: int| 0 <= j < i - start ==> is_dec_digit(#[trigger] t[j]),
            val == spec_digits_val(t.take(i - start)),
        decreases n - i,
    {
        let c = s.get_char(i);
        if !('0' <= c && c <= '9') {
            proof {
                assert(spec_plus_stripped(s@)[i - start] == s@[i as int]);
                lemma_parse_none_at(s@, i - start);
            }
            return None;
        }
        let d = (c as u32) - ('0' as u32);
        proof {
            assert(t[i - start] == s@[i as int]);
            assert(is_dec_digit(t[i - start]));
            assert(t.take(i - start + 1).drop_last() =~= t.take(i - start));
            assert(t.take(i - start + 1).last() == s@[i as int]);
        }
        val = val * 10 + (d as u128);
        proof {
            assert(val == spec_digits_val(t.take(i - start + 1)));
        }
        if val > usize::MAX as u128 {
            proof {
                lemma_parse_none_overflow(s@, i - start + 1);
            }
            return None;
        }
        i = i + 1;
    }
    proof {
        assert(t.take(n - start) =~= t);
    }
    Some(val as usize)
}

/// Once a digit prefix overflows the machine word, the whole string
/// does.
proof fn lemma_digits_prefix_overflow(t: Seq<char>, k: int)
    requires
        0 <= k <= t.len(),
        forall|j: int| 0 <= j < k ==> is_dec_digit(#[trigger] t[j]),
        spec_digits_val(t.take(k)) > usize::MAX,
    ensures
        !(t.len() >= 1 && (forall|j: int| 0 <= j < t.len() ==> is_dec_digit(#[trigger] t[j]))
            && spec_digits_val(t) <= usize::MAX),
    decreases t.len() - k,
{
    if k < t.len() {
        if forall|j: int| 0 <= j < t.len() ==> is_dec_digit(#[trigger] t[j]) {
            assert(t.take(k + 1).drop_last() =~= t.take(k));
            assert(spec_digits_val(t.take(k + 1)) == spec_digits_val(t.take(k)) * 10 + (t[k] as int
                - '0' as int));
            assert(spec_digits_val(t.take(k)) * 10 >= spec_digits_val(t.take(k)))
                by (nonlinear_arith)
                requires
                    spec_digits_val(t.take(k)) >= 0,
            ;
            lemma_digits_prefix_overflow(t, k + 1);
        }
    } else {
        assert(t.take(k) =~= t);
    }
}

} // verus!
