//! A plain-text model of slash-separated paths: components, parent,
//! file name, extension, joining and prefix tests. The engine's
//! collaborators reason about paths only through these operations, so
//! their meaning is pinned down here once, over character sequences.

use vstd::prelude::*;

verus! {

use crate::text::str_eq;
use vstd::string::{StrSliceExecFns, StringExecFns};

/// Index of the first separator, or the length when there is none.
pub open spec fn spec_sep_pos(s: Seq<char>) -> int
    decreases s.len(),
{
    if s.len() == 0 {
        0
    } else if s[0] == '/' {
        0
    } else {
        1 + spec_sep_pos(s.drop_first())
    }
}

/// Everything before the first separator is not a separator, and the
/// separator, if any, sits exactly there.
pub proof fn lemma_sep_pos(s: Seq<char>)
    ensures
        0 <= spec_sep_pos(s) <= s.len(),
        spec_sep_pos(s) < s.len() ==> s[spec_sep_pos(s)] == '/',
        forall|j: int| 0 <= j < spec_sep_pos(s) ==> s[j] != '/',
    decreases s.len(),
{
    if s.len() != 0 && s[0] != '/' {
        lemma_sep_pos(s.drop_first());
        assert forall|j: int| 0 <= j < spec_sep_pos(s) implies s[j] != '/' by {
            if j > 0 {
                assert(s.drop_first()[j - 1] != '/');
            }
        }
    }
}

/// The non-empty pieces of `s` between separators, in order.
pub open spec fn spec_split(s: Seq<char>) -> Seq<Seq<char>>
    decreases s.len(),
    via spec_split_decreases
{
    if s.len() == 0 {
        Seq::empty()
    } else if s[0] == '/' {
        spec_split(s.drop_first())
    } else {
        let k = spec_sep_pos(s);
        seq![s.subrange(0, k)] + spec_split(s.subrange(k, s.len() as int))
    }
}

#[via_fn]
proof fn spec_split_decreases(s: Seq<char>) {
    lemma_sep_pos(s);
    if s.len() != 0 && s[0] != '/' {
        assert(spec_sep_pos(s) >= 1);
    }
}

/// The components of a path: a leading separator is the root
/// component, and the non-empty pieces between separators follow.
pub open spec fn spec_components(s: Seq<char>) -> Seq<Seq<char>> {
    if s.len() > 0 && s[0] == '/' {
        seq![seq!['/']] + spec_split(s)
    } else {
        spec_split(s)
    }
}

/// Index of the last occurrence of `c`, or `-1` when there is none.
pub open spec fn spec_rfind(s: Seq<char>, c: char) -> int
    decreases s.len(),
{
    if s.len() == 0 {
        -1
    } else if s.last() == c {
        s.len() - 1
    } else {
        spec_rfind(s.drop_last(), c)
    }
}

/// The last occurrence sits at `spec_rfind` and nothing after it
/// matches.
pub proof fn lemma_rfind(s: Seq<char>, c: char)
    ensures
        -1 <= spec_rfind(s, c) < s.len(),
        spec_rfind(s, c) >= 0 ==> s[spec_rfind(s, c)] == c,
        forall|j: int| spec_rfind(s, c) < j < s.len() ==> s[j] != c,
    decreases s.len(),
{
    if s.len() != 0 && s.last() != c {
        lemma_rfind(s.drop_last(), c);
        assert forall|j: int| spec_rfind(s, c) < j < s.len() implies s[j] != c by {
            if j < s.len() - 1 {
                assert(s.drop_last()[j] != c);
            }
        }
    }
}

/// The path without its trailing separators.
pub open spec fn spec_trim_trailing(s: Seq<char>) -> Seq<char>
    decreases s.len(),
{
    if s.len() > 0 && s.last() == '/' {
        spec_trim_trailing(s.drop_last())
    } else {
        s
    }
}

/// The directory containing the path: everything before the last
/// separator once trailing separators are gone. The root and the empty
/// path have no parent; a bare name's parent is the empty path.
pub open spec fn spec_parent(s: Seq<char>) -> Option<Seq<char>> {
    if s.len() == 0 {
        Option::None
    } else {
        let t = spec_trim_trailing(s);
        if t.len() == 0 {
            Option::None
        } else {
            let k = spec_rfind(t, '/');
            if k == -1 {
                Option::Some(Seq::empty())
            } else if k == 0 {
                Option::Some(seq!['/'])
            } else {
                Option::Some(t.subrange(0, k))
            }
        }
    }
}

/// The final component, unless it is the root or a dot component.
pub open spec fn spec_file_name(s: Seq<char>) -> Option<Seq<char>> {
    let c = spec_components(s);
    if c.len() == 0 {
        Option::None
    } else if c.last() == seq!['/'] || c.last() == seq!['.'] || c.last() == seq!['.', '.'] {
        Option::None
    } else {
        Option::Some(c.last())
    }
}

/// The text after the last dot of the file name, when the dot is
/// neither missing nor leading.
pub open spec fn spec_extension(s: Seq<char>) -> Option<Seq<char>> {
    match spec_file_name(s) {
        Option::None => Option::None,
        Option::Some(n) => {
            let k = spec_rfind(n, '.');
            if k <= 0 {
                Option::None
            } else {
                Option::Some(n.subrange(k + 1, n.len() as int))
            }
        },
    }
}

/// Joining: an absolute right side replaces the left side; otherwise
/// the two are chained with exactly one separator between them.
pub open spec fn spec_join(dir: Seq<char>, p: Seq<char>) -> Seq<char> {
    if p.len() > 0 && p[0] == '/' {
        p
    } else if dir.len() == 0 {
        p
    } else if dir.last() == '/' {
        dir + p
    } else {
        dir + seq!['/'] + p
    }
}

/// Component-wise prefix: the whole of `pre`'s components lead `s`'s.
pub open spec fn spec_starts_with(s: Seq<char>, pre: Seq<char>) -> bool {
    spec_components(pre).is_prefix_of(spec_components(s))
}

/// The components joined back into a relative path.
pub open spec fn spec_join_components(cs: Seq<Seq<char>>) -> Seq<char>
    decreases cs.len(),
{
    if cs.len() == 0 {
        Seq::empty()
    } else if cs.len() == 1 {
        cs[0]
    } else {
        spec_join_components(cs.drop_last()) + seq!['/'] + cs.last()
    }
}

/// The path left after stripping the components of `pre` from `s`.
pub open spec fn spec_relative_after(s: Seq<char>, pre: Seq<char>) -> Seq<char>
    recommends
        spec_starts_with(s, pre),
{
    if spec_components(pre).len() <= spec_components(s).len() {
        spec_join_components(spec_components(s).skip(spec_components(pre).len() as int))
    } else {
        Seq::empty()
    }
}

/// How many leading components two paths share.
pub open spec fn spec_common_components(a: Seq<Seq<char>>, b: Seq<Seq<char>>) -> int
    decreases a.len() + b.len(),
{
    if a.len() == 0 || b.len() == 0 || a[0] != b[0] {
        0
    } else {
        1 + spec_common_components(a.drop_first(), b.drop_first())
    }
}

/// The components of a path, as owned strings.
pub fn path_components(s: &str) -> (r: Vec<String>)
    ensures
        r@.map_values(|x: String| x@) == spec_components(s@),
{
    let n = s.unicode_len();
    let mut out: Vec<String> = Vec::new();
    if n > 0 && s.get_char(0) == '/' {
        out.push(String::from_str("/"));
        proof {
            reveal_strlit("/");
            assert("/"@ =~= seq!['/']);
            assert(out@.map_values(|x: String| x@) =~= seq![seq!['/']]);
        }
    }
    proof {
        assert(s@.skip(0) =~= s@);
        assert(out@.map_values(|x: String| x@) + spec_split(s@) =~= spec_components(s@));
    }
    let mut i: usize = 0;
    while i < n
        invariant
            i <= n,
            n == s@.len(),
            out@.map_values(|x: String| x@) + spec_split(s@.skip(i as int)) == spec_components(
                s@,
            ),
        decreases n - i,
    {
        if s.get_char(i) == '/' {
            proof {
                assert(s@.skip(i as int).drop_first() =~= s@.skip(i + 1));
            }
            i = i + 1;
        } else {
            let mut k = i + 1;
            while k < n && s.get_char(k) != '/'
                invariant
                    i < k <= n,
                    n == s@.len(),
                    forall|j: int| i < j < k ==> s@[j] != '/',
                    s@[i as int] != '/',
                decreases n - k,
            {
                k = k + 1;
            }
            let piece = String::from_str(s.substring_char(i, k));
            let ghost prev = out@.map_values(|x: String| x@);
            out.push(piece);
            proof {
                let rest = s@.skip(i as int);
                lemma_sep_pos(rest);
                assert forall|j: int| 0 <= j < k - i implies rest[j] != '/' by {
                    assert(rest[j] == s@[i + j]);
                }
                assert(spec_sep_pos(rest) == k - i) by {
                    if spec_sep_pos(rest) < k - i {
                        assert(rest[spec_sep_pos(rest)] == '/');
                    }
                    if spec_sep_pos(rest) > k - i && k < n {
                        assert(rest[k - i] == s@[k as int]);
                        assert(s@[k as int] == '/');
                        assert(rest[k - i] != '/');
                    }
                }
                assert(rest.subrange(0, k - i) =~= s@.subrange(i as int, k as int));
                assert(rest.subrange(k - i, rest.len() as int) =~= s@.skip(k as int));
                assert(out@.map_values(|x: String| x@) =~= prev + seq![
                    s@.subrange(i as int, k as int),
                ]);
                assert(out@.map_values(|x: String| x@) + spec_split(s@.skip(k as int)) =~= prev + (
                seq![s@.subrange(i as int, k as int)] + spec_split(s@.skip(k as int))));
            }
            i = k;
        }
    }
    proof {
        assert(s@.skip(n as int) =~= Seq::<char>::empty());
        assert(out@.map_values(|x: String| x@) =~= spec_components(s@));
    }
    out
}

/// The directory containing the path, as `spec_parent` gives it.
pub fn path_parent(s: &str) -> (r: Option<String>)
    ensures
        match r {
            Some(p) => spec_parent(s@) == Option::Some(p@),
            None => spec_parent(s@) is None,
        },
{
    let n = s.unicode_len();
    if n == 0 {
        return None;
    }
    let mut t = n;
    proof {
        assert(s@.take(n as int) =~= s@);
    }
    loop
        invariant_except_break
            0 <= t <= n,
            n == s@.len(),
            spec_trim_trailing(s@) == spec_trim_trailing(s@.take(t as int)),
        ensures
            0 <= t <= n,
            n == s@.len(),
            spec_trim_trailing(s@) == s@.take(t as int),
        decreases t,
    {
        if t == 0 {
            proof {
                assert(s@.take(0) =~= Seq::<char>::empty());
            }
            break ;
        }
        if s.get_char(t - 1) != '/' {
            proof {
                assert(s@.take(t as int).last() == s@[t - 1]);
            }
            break ;
        }
        proof {
            assert(s@.take(t as int).drop_last() =~= s@.take(t - 1));
        }
        t = t - 1;
    }
    if t == 0 {
        return None;
    }
    let ghost trimmed = s@.take(t as int);
    let mut k = t;
    loop
        invariant_except_break
            0 <= k <= t <= n,
            n == s@.len(),
            trimmed == s@.take(t as int),
            forall|j: int| k <= j < t ==> s@[j] != '/',
        ensures
            0 <= k <= t <= n,
            n == s@.len(),
            spec_rfind(trimmed, '/') == k - 1,
        decreases k,
    {
        if k == 0 {
            proof {
                lemma_rfind(trimmed, '/');
                if spec_rfind(trimmed, '/') >= 0 {
                    assert(trimmed[spec_rfind(trimmed, '/')] == s@[spec_rfind(trimmed, '/')]);
                }
            }
            break ;
        }
        if s.get_char(k - 1) == '/' {
            proof {
                lemma_rfind(trimmed, '/');
                let rf = spec_rfind(trimmed, '/');
                if rf > k - 1 {
                    assert(trimmed[rf] == s@[rf]);
                }
                if rf < k - 1 {
                    assert(trimmed[k - 1] == s@[k - 1]);
                }
            }
            break ;
        }
        k = k - 1;
    }
    proof {
        lemma_rfind(trimmed, '/');
    }
    if k == 0 {
        Some(String::new())
    } else if k == 1 {
        let p = String::from_str(s.substring_char(0, 1));
        proof {
            assert(p@ =~= seq!['/']);
        }
        Some(p)
    } else {
        let p = String::from_str(s.substring_char(0, k - 1));
        proof {
            assert(p@ =~= s@.take(t as int).subrange(0, k - 1));
        }
        Some(p)
    }
}

/// The final component, unless it is the root or a dot component.
pub fn path_file_name(s: &str) -> (r: Option<String>)
    ensures
        match r {
            Some(p) => spec_file_name(s@) == Option::Some(p@),
            None => spec_file_name(s@) is None,
        },
{
    let comps = path_components(s);
    proof {
        reveal_strlit("/");
        reveal_strlit(".");
        reveal_strlit("..");
        assert("/"@ =~= seq!['/']);
        assert("."@ =~= seq!['.']);
        assert(".."@ =~= seq!['.', '.']);
    }
    if comps.len() == 0 {
        return None;
    }
    let last = &comps[comps.len() - 1];
    proof {
        assert(last@ == spec_components(s@).last());
    }
    if str_eq(last.as_str(), "/") || str_eq(last.as_str(), ".") || str_eq(last.as_str(), "..") {
        return None;
    }
    Some(last.clone())
}

/// The text after the last dot of the file name.
pub fn path_extension(s: &str) -> (r: Option<String>)
    ensures
        match r {
            Some(p) => spec_extension(s@) == Option::Some(p@),
            None => spec_extension(s@) is None,
        },
{
    let name = match path_file_name(s) {
        Some(v) => v,
        None => {
            return None;
        },
    };
    let m = name.as_str().unicode_len();
    let mut k = m;
    loop
        invariant_except_break
            0 <= k <= m,
            m == name@.len(),
            forall|j: int| k <= j < m ==> name@[j] != '.',
        ensures
            0 <= k <= m,
            m == name@.len(),
            spec_rfind(name@, '.') == k - 1,
        decreases k,
    {
        if k == 0 {
            proof {
                lemma_rfind(name@, '.');
            }
            break ;
        }
        if name.as_str().get_char(k - 1) == '.' {
            proof {
                lemma_rfind(name@, '.');
            }
            break ;
        }
        k = k - 1;
    }
    if k <= 1 {
        return None;
    }
    let ext = String::from_str(name.as_str().substring_char(k, m));
    Some(ext)
}

/// Join two paths as `spec_join` describes.
pub fn path_join(dir: &str, p: &str) -> (r: String)
    ensures
        r@ == spec_join(dir@, p@),
{
    proof {
        reveal_strlit("/");
        assert("/"@ =~= seq!['/']);
    }
    let pn = p.unicode_len();
    if pn > 0 && p.get_char(0) == '/' {
        return String::from_str(p);
    }
    let dn = dir.unicode_len();
    if dn == 0 {
        return String::from_str(p);
    }
    let mut out = String::from_str(dir);
    if dir.get_char(dn - 1) != '/' {
        out.append("/");
    }
    out.append(p);
    out
}

/// Component-wise prefix test, as `spec_starts_with` describes.
pub fn path_starts_with(s: &str, pre: &str) -> (r: bool)
    ensures
        r == spec_starts_with(s@, pre@),
{
    let sc = path_components(s);
    let pc = path_components(pre);
    if pc.len() > sc.len() {
        proof {
            assert(!spec_components(pre@).is_prefix_of(spec_components(s@)));
        }
        return false;
    }
    let m = pc.len();
    let mut i: usize = 0;
    while i < m
        invariant
            i <= m,
            m == pc@.len() <= sc@.len(),
            sc@.map_values(|x: String| x@) == spec_components(s@),
            pc@.map_values(|x: String| x@) == spec_components(pre@),
            forall|j: int| 0 <= j < i ==> spec_components(pre@)[j] == spec_components(s@)[j],
        decreases m - i,
    {
        if !str_eq(pc[i].as_str(), sc[i].as_str()) {
            proof {
                assert(spec_components(pre@)[i as int] != spec_components(s@)[i as int]);
                assert(!spec_components(pre@).is_prefix_of(spec_components(s@)));
            }
            return false;
        }
        i = i + 1;
    }
    proof {
        assert(spec_components(pre@) =~= spec_components(s@).subrange(
            0,
            spec_components(pre@).len() as int,
        ));
    }
    true
}

/// The path left after stripping the components of `pre`.
pub fn path_relative_after(s: &str, pre: &str) -> (r: String)
    ensures
        r@ == spec_relative_after(s@, pre@),
{
    proof {
        reveal_strlit("/");
        assert("/"@ =~= seq!['/']);
    }
    let sc = path_components(s);
    let pc = path_components(pre);
    let k = if pc.len() < sc.len() {
        pc.len()
    } else {
        sc.len()
    };
    let ghost tail = (if spec_components(pre@).len() <= spec_components(s@).len() {
        spec_components(s@).skip(spec_components(pre@).len() as int)
    } else {
        Seq::<Seq<char>>::empty()
    });
    let n = sc.len();
    let mut out = String::new();
    let mut i: usize = k;
    proof {
        assert(tail.take(0) =~= Seq::<Seq<char>>::empty());
    }
    while i < n
        invariant
            k <= i <= n,
            n == sc@.len(),
            sc@.map_values(|x: String| x@) == spec_components(s@),
            k == (if spec_components(pre@).len() < spec_components(s@).len() {
                spec_components(pre@).len() as int
            } else {
                spec_components(s@).len() as int
            }),
            tail == (if spec_components(pre@).len() <= spec_components(s@).len() {
                spec_components(s@).skip(spec_components(pre@).len() as int)
            } else {
                Seq::<Seq<char>>::empty()
            }),
            out@ == spec_join_components(tail.take(i - k)),
        decreases n - i,
    {
        if i > k {
            out.append("/");
        }
        out.append(sc[i].as_str());
        proof {
            reveal_strlit("/");
            assert("/"@ =~= seq!['/']);
            let done = tail.take(i + 1 - k);
            assert(done.last() == spec_components(s@)[i as int]);
            assert(done.drop_last() =~= tail.take(i - k));
            if i > k {
                assert(out@ =~= spec_join_components(done.drop_last()) + seq!['/'] + done.last());
            } else {
                assert(done.len() == 1);
                assert(out@ =~= done[0]);
            }
        }
        i = i + 1;
    }
    proof {
        assert(tail.take(n - k) =~= tail);
    }
    out
}

/// Two paths share exactly the counted leading components.
pub proof fn lemma_common_components(a: Seq<Seq<char>>, b: Seq<Seq<char>>)
    ensures
        0 <= spec_common_components(a, b) <= a.len(),
        spec_common_components(a, b) <= b.len(),
        forall|j: int| 0 <= j < spec_common_components(a, b) ==> a[j] == b[j],
        spec_common_components(a, b) < a.len() && spec_common_components(a, b) < b.len()
            ==> a[spec_common_components(a, b)] != b[spec_common_components(a, b)],
    decreases a.len() + b.len(),
{
    if a.len() > 0 && b.len() > 0 && a[0] == b[0] {
        lemma_common_components(a.drop_first(), b.drop_first());
        let c = spec_common_components(a, b);
        assert forall|j: int| 0 <= j < c implies a[j] == b[j] by {
            if j > 0 {
                assert(a.drop_first()[j - 1] == b.drop_first()[j - 1]);
            }
        }
        if c < a.len() && c < b.len() {
            assert(a.drop_first()[c - 1] != b.drop_first()[c - 1]);
        }
    }
}

} // verus!
