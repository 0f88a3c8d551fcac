//! Best-effort extraction of linked asset paths from library, image,
//! sound and movie-clip blocks, using the fixed payload offsets that
//! those block types carry their name and file path at.

use vstd::prelude::*;

verus! {

use crate::block::{spec_nul_pos, lemma_nul_pos, Block, BlockView};
use crate::blend_file::views_of;
use crate::dna::Dna;
use crate::error::BlendFileError;
use crate::paths::{path_join, path_parent, spec_join, spec_parent};
use crate::text::str_eq;
use vstd::string::{StrSliceExecFns, StringExecFns};

/// One linked asset: the stored path, its resolution against the
/// container's directory, and where it came from.
#[derive(Debug, Clone, PartialEq)]
pub struct LibraryLink {
    pub path: String,
    pub absolute_path: Option<String>,
    pub block_type: String,
    pub block_name: Option<String>,
    pub is_relative: bool,
}

/// The mathematical model of one link.
pub struct LinkView {
    pub path: Seq<char>,
    pub absolute_path: Option<Seq<char>>,
    pub block_type: Seq<char>,
    pub block_name: Option<Seq<char>>,
    pub is_relative: bool,
}

impl View for LibraryLink {
    type V = LinkView;

    open spec fn view(&self) -> LinkView {
        LinkView {
            path: self.path@,
            absolute_path: match self.absolute_path {
                Option::Some(ref s) => Option::Some(s@),
                Option::None => Option::None,
            },
            block_type: self.block_type@,
            block_name: match self.block_name {
                Option::Some(ref s) => Option::Some(s@),
                Option::None => Option::None,
            },
            is_relative: self.is_relative,
        }
    }
}

/// Where a named field sits in the payload of a block of the given
/// type, and how many bytes at most it may span: `filepath` at 144 in
/// library blocks and at 104 in image, sound and movie-clip blocks;
/// `name` at 32 in library blocks and at 0 in the others.
pub open spec fn spec_field_offset(code: Seq<u8>, field: Seq<char>) -> Option<(int, int)> {
    let li = code[0] == 'L' as u8 && code[1] == 'I' as u8;
    let asset = (code[0] == 'I' as u8 && code[1] == 'M' as u8) || (code[0] == 'S' as u8 && code[1]
        == 'O' as u8) || (code[0] == 'M' as u8 && code[1] == 'C' as u8);
    if field == "filepath"@ {
        if li {
            Option::Some((144, 1024))
        } else if asset {
            Option::Some((104, 1024))
        } else {
            Option::None
        }
    } else if field == "name"@ {
        if li {
            Option::Some((32, 64))
        } else if asset {
            Option::Some((0, 64))
        } else {
            Option::None
        }
    } else {
        Option::None
    }
}

pub open spec fn spec_printable_byte(b: u8) -> bool {
    32 <= b <= 126
}

/// The printable bytes of a sequence, in order.
pub open spec fn spec_printable(s: Seq<u8>) -> Seq<u8>
    decreases s.len(),
{
    if s.len() == 0 {
        Seq::empty()
    } else if spec_printable_byte(s.last()) {
        spec_printable(s.drop_last()).push(s.last())
    } else {
        spec_printable(s.drop_last())
    }
}

/// How many leading space bytes a sequence has.
pub open spec fn spec_lead_spaces(s: Seq<u8>) -> int
    decreases s.len(),
{
    if s.len() == 0 {
        0
    } else if s[0] == 32 {
        1 + spec_lead_spaces(s.drop_first())
    } else {
        0
    }
}

/// How many trailing space bytes a sequence has.
pub open spec fn spec_tail_spaces(s: Seq<u8>) -> int
    decreases s.len(),
{
    if s.len() == 0 {
        0
    } else if s.last() == 32 {
        1 + spec_tail_spaces(s.drop_last())
    } else {
        0
    }
}

/// The sequence without its leading and trailing spaces.
pub open spec fn spec_trim_spaces(s: Seq<u8>) -> Seq<u8> {
    if spec_lead_spaces(s) == s.len() {
        Seq::empty()
    } else {
        s.subrange(spec_lead_spaces(s), s.len() - spec_tail_spaces(s))
    }
}

/// Filtering after appending one byte appends it when printable.
pub proof fn lemma_printable_snoc(s: Seq<u8>, b: u8)
    ensures
        spec_printable(s.push(b)) == (if spec_printable_byte(b) {
            spec_printable(s).push(b)
        } else {
            spec_printable(s)
        }),
{
    assert(s.push(b).drop_last() =~= s);
    assert(s.push(b).last() == b);
}

/// Everything before the leading-space count is a space, and the byte
/// there, if any, is not.
pub proof fn lemma_lead_spaces(s: Seq<u8>)
    ensures
        0 <= spec_lead_spaces(s) <= s.len(),
        spec_lead_spaces(s) < s.len() ==> s[spec_lead_spaces(s)] != 32,
        forall|j: int| 0 <= j < spec_lead_spaces(s) ==> s[j] == 32,
    decreases s.len(),
{
    if s.len() != 0 && s[0] == 32 {
        lemma_lead_spaces(s.drop_first());
        assert forall|j: int| 0 <= j < spec_lead_spaces(s) implies s[j] == 32 by {
            if j > 0 {
                assert(s.drop_first()[j - 1] == 32);
            }
        }
        if spec_lead_spaces(s) < s.len() {
            assert(s[spec_lead_spaces(s)] == s.drop_first()[spec_lead_spaces(s.drop_first())]);
        }
    }
}

/// Everything after the trailing-space count is a space, and the byte
/// before it, if any, is not.
pub proof fn lemma_tail_spaces(s: Seq<u8>)
    ensures
        0 <= spec_tail_spaces(s) <= s.len(),
        spec_tail_spaces(s) < s.len() ==> s[s.len() - 1 - spec_tail_spaces(s)] != 32,
        forall|j: int| s.len() - spec_tail_spaces(s) <= j < s.len() ==> s[j] == 32,
    decreases s.len(),
{
    if s.len() != 0 && s.last() == 32 {
        lemma_tail_spaces(s.drop_last());
        assert forall|j: int| s.len() - spec_tail_spaces(s) <= j < s.len() implies s[j] == 32 by {
            if j < s.len() - 1 {
                assert(s.drop_last()[j] == 32);
            }
        }
    }
}

/// The text a best-effort field read yields from a payload: the bytes
/// from the field's fixed offset up to the first NUL or the span limit,
/// filtered to printable characters and trimmed of spaces, kept only
/// when at least three characters remain.
pub open spec fn spec_extract_string_field(data: Seq<u8>, code: Seq<u8>, field: Seq<char>) -> Option<
    Seq<char>,
> {
    if data.len() == 0 {
        Option::None
    } else {
        match spec_field_offset(code, field) {
            Option::None => Option::None,
            Option::Some((off, max_len)) => {
                if off >= data.len() {
                    Option::None
                } else {
                    let send = if off + max_len <= data.len() {
                        off + max_len
                    } else {
                        data.len() as int
                    };
                    let end = off + spec_nul_pos(data.subrange(off, send));
                    if off >= end {
                        Option::None
                    } else {
                        let filtered = spec_printable(data.subrange(off, end));
                        if filtered.len() == 0 {
                            Option::None
                        } else {
                            let trimmed = spec_trim_spaces(filtered);
                            if trimmed.len() < 3 {
                                Option::None
                            } else {
                                Option::Some(trimmed.map_values(|b: u8| b as char))
                            }
                        }
                    }
                }
            },
        }
    }
}

/// The link a block yields, labelled with its category name: the
/// `filepath` field when it reads as text, marked relative unless it is
/// an absolute path without the container-relative `//` prefix, along
/// with the block's `name` field.
pub open spec fn spec_parse_link(bv: BlockView, label: Seq<char>) -> Option<LinkView> {
    match spec_extract_string_field(bv.data, bv.code, "filepath"@) {
        Option::None => Option::None,
        Option::Some(p) => Option::Some(
            LinkView {
                path: p,
                absolute_path: Option::None,
                block_type: label,
                block_name: spec_extract_string_field(bv.data, bv.code, "name"@),
                is_relative: (p.len() >= 2 && p[0] == '/' && p[1] == '/') || p[0] != '/',
            },
        ),
    }
}

/// The links of all blocks of one category, in directory order.
pub open spec fn spec_links_of(bs: Seq<BlockView>, p0: u8, p1: u8, label: Seq<char>) -> Seq<
    LinkView,
>
    decreases bs.len(),
{
    if bs.len() == 0 {
        Seq::empty()
    } else {
        let front = spec_links_of(bs.drop_last(), p0, p1, label);
        if bs.last().code[0] == p0 && bs.last().code[1] == p1 {
            match spec_parse_link(bs.last(), label) {
                Option::Some(l) => front.push(l),
                Option::None => front,
            }
        } else {
            front
        }
    }
}

/// All links of a block sequence: library, then image, then sound,
/// then movie-clip links, each group in directory order.
pub open spec fn spec_extract_links(bs: Seq<BlockView>) -> Seq<LinkView> {
    spec_links_of(bs, 'L' as u8, 'I' as u8, "Library"@) + spec_links_of(
        bs,
        'I' as u8,
        'M' as u8,
        "Image"@,
    ) + spec_links_of(bs, 'S' as u8, 'O' as u8, "Sound"@) + spec_links_of(
        bs,
        'M' as u8,
        'C' as u8,
        "MovieClip"@,
    )
}

/// A link after path resolution against the container's directory:
/// relative links gain an absolute path, others are untouched.
pub open spec fn spec_resolve_link(l: LinkView, dir: Seq<char>) -> LinkView {
    LinkView {
        path: l.path,
        absolute_path: if l.is_relative {
            Option::Some(spec_join(dir, l.path))
        } else {
            l.absolute_path
        },
        block_type: l.block_type,
        block_name: l.block_name,
        is_relative: l.is_relative,
    }
}

/// Extracts linked asset paths from a container's blocks and resolves
/// the relative ones against the container's directory.
#[derive(Debug)]
pub struct LibraryLinkExtractor {
    pub blend_file_path: String,
}

impl LibraryLinkExtractor {
    /// An extractor for the container at the given path.
    pub fn new(blend_file_path: &str) -> (r: LibraryLinkExtractor)
        ensures
            r.blend_file_path@ == blend_file_path@,
    {
        LibraryLinkExtractor { blend_file_path: String::from_str(blend_file_path) }
    }

    /// All links of the given blocks: library, image, sound and
    /// movie-clip categories, each in directory order.
    pub fn extract_links(&self, blocks: &[Block], dna: &Dna) -> (r: Result<
        Vec<LibraryLink>,
        BlendFileError,
    >)
        ensures
            match r {
                Ok(v) => v@.map_values(|l: LibraryLink| l@) == spec_extract_links(
                    views_of(blocks@),
                ),
                Err(_) => false,
            },
    {
        let mut links = self.extract_category(blocks, dna, 'L' as u8, 'I' as u8, "Library");
        let mut im = self.extract_category(blocks, dna, 'I' as u8, 'M' as u8, "Image");
        let mut so = self.extract_category(blocks, dna, 'S' as u8, 'O' as u8, "Sound");
        let mut mc = self.extract_category(blocks, dna, 'M' as u8, 'C' as u8, "MovieClip");
        let ghost gl = links@;
        let ghost gi = im@;
        let ghost gs = so@;
        let ghost gm = mc@;
        links.append(&mut im);
        links.append(&mut so);
        links.append(&mut mc);
        proof {
            assert(links@ =~= gl + gi + gs + gm);
            assert(links@.map_values(|l: LibraryLink| l@) =~= gl.map_values(|l: LibraryLink| l@)
                + gi.map_values(|l: LibraryLink| l@) + gs.map_values(|l: LibraryLink| l@)
                + gm.map_values(|l: LibraryLink| l@));
        }
        Ok(links)
    }

    /// The links of one category of blocks.
    fn extract_category(&self, blocks: &[Block], dna: &Dna, p0: u8, p1: u8, label: &str) -> (r: Vec<
        LibraryLink,
    >)
        ensures
            r@.map_values(|l: LibraryLink| l@) == spec_links_of(views_of(blocks@), p0, p1, label@),
    {
        let n = blocks.len();
        let mut out: Vec<LibraryLink> = Vec::new();
        let mut i: usize = 0;
        while i < n
            invariant
                i <= n,
                n == blocks@.len(),
                out@.map_values(|l: LibraryLink| l@) == spec_links_of(
                    views_of(blocks@.take(i as int)),
                    p0,
                    p1,
                    label@,
                ),
            decreases n - i,
        {
            let ghost prev = views_of(blocks@.take(i as int));
            let ghost cur = views_of(blocks@.take(i + 1));
            proof {
                assert(cur.drop_last() =~= prev);
                assert(cur.last() == blocks@[i as int]@);
            }
            let b = &blocks[i];
            if b.code[0] == p0 && b.code[1] == p1 {
                match self.parse_link_block(b, dna, label) {
                    Some(link) => {
                        let ghost old_out = out@;
                        out.push(link);
                        proof {
                            assert(out@.map_values(|l: LibraryLink| l@) =~= old_out.map_values(
                                |l: LibraryLink| l@,
                            ).push(link@));
                        }
                    },
                    None => {},
                }
            }
            i = i + 1;
        }
        proof {
            assert(blocks@.take(n as int) =~= blocks@);
        }
        out
    }

    /// The link one block yields, per `spec_parse_link`.
    fn parse_link_block(&self, block: &Block, dna: &Dna, label: &str) -> (r: Option<LibraryLink>)
        ensures
            match r {
                Some(l) => spec_parse_link(block@, label@) == Option::Some(l@),
                None => spec_parse_link(block@, label@) is None,
            },
    {
        let path = match self.extract_string_field(block, dna, "filepath") {
            Some(p) => p,
            None => {
                return None;
            },
        };
        let name = self.extract_string_field(block, dna, "name");
        let pn = path.as_str().unicode_len();
        let is_relative = (pn >= 2 && path.as_str().get_char(0) == '/' && path.as_str().get_char(1)
            == '/') || (pn >= 1 && path.as_str().get_char(0) != '/');
        Some(
            LibraryLink {
                path,
                absolute_path: None,
                block_type: String::from_str(label),
                block_name: name,
                is_relative,
            },
        )
    }

    /// The best-effort field read, as `spec_extract_string_field`
    /// describes it. A value it yields always has at least three
    /// characters.
    fn extract_string_field(&self, block: &Block, dna: &Dna, field_name: &str) -> (r: Option<
        String,
    >)
        ensures
            match r {
                Some(s) => spec_extract_string_field(block@.data, block@.code, field_name@)
                    == Option::Some(s@) && s@.len() >= 3,
                None => spec_extract_string_field(block@.data, block@.code, field_name@) is None,
            },
    {
        extract_string_field_impl(block, field_name)
    }

    /// Resolve every relative link against the directory containing the
    /// container; absolute links keep whatever resolution they had. A
    /// path with no containing directory is a format error, and the
    /// links are then untouched.
    pub fn resolve_relative_paths(&self, links: &mut Vec<LibraryLink>) -> (r: Result<
        (),
        BlendFileError,
    >)
        ensures
            match r {
                Ok(()) => {
                    &&& spec_parent(self.blend_file_path@) is Some
                    &&& final(links)@.map_values(|l: LibraryLink| l@) == old(links)@.map_values(
                        |l: LibraryLink| l@,
                    ).map_values(
                        |l: LinkView|
                            spec_resolve_link(l, spec_parent(self.blend_file_path@).unwrap()),
                    )
                },
                Err(e) => {
                    &&& spec_parent(self.blend_file_path@) is None
                    &&& final(links)@ == old(links)@
                    &&& (e matches BlendFileError::InvalidFormat(m) && m@
                        == "Invalid blend file path"@)
                },
            },
    {
        let dir = match path_parent(self.blend_file_path.as_str()) {
            Some(d) => d,
            None => {
                return Err(
                    BlendFileError::InvalidFormat(String::from_str("Invalid blend file path")),
                );
            },
        };
        let n = links.len();
        let mut i: usize = 0;
        while i < n
            invariant
                i <= n,
                n == links@.len(),
                dir@ == spec_parent(self.blend_file_path@).unwrap(),
                spec_parent(self.blend_file_path@) is Some,
                forall|j: int|
                    0 <= j < i ==> #[trigger] links@[j]@ == spec_resolve_link(
                        old(links)@[j]@,
                        dir@,
                    ),
                forall|j: int| i <= j < n ==> #[trigger] links@[j] == old(links)@[j],
            decreases n - i,
        {
            let is_rel = links[i].is_relative;
            if is_rel {
                let joined = path_join(dir.as_str(), links[i].path.as_str());
                let cur = &links[i];
                let updated = LibraryLink {
                    path: cur.path.clone(),
                    absolute_path: Some(joined),
                    block_type: cur.block_type.clone(),
                    block_name: match &cur.block_name {
                        Some(s) => Some(s.clone()),
                        None => None,
                    },
                    is_relative: cur.is_relative,
                };
                links.set(i, updated);
            }
            i = i + 1;
        }
        proof {
            assert(links@.map_values(|l: LibraryLink| l@) =~= old(links)@.map_values(
                |l: LibraryLink| l@,
            ).map_values(|l: LinkView| spec_resolve_link(l, dir@)));
        }
        Ok(())
    }
}

/// The field placement for a block's code, as `spec_field_offset`
/// gives it.
fn field_offsets(code: &[u8; 4], field_name: &str) -> (r: Option<(usize, usize)>)
    ensures
        match r {
            Some(p) => spec_field_offset(code@, field_name@) == Option::Some(
                (p.0 as int, p.1 as int),
            ),
            None => spec_field_offset(code@, field_name@) is None,
        },
{
    let li = code[0] == 'L' as u8 && code[1] == 'I' as u8;
    let asset = (code[0] == 'I' as u8 && code[1] == 'M' as u8) || (code[0] == 'S' as u8 && code[1]
        == 'O' as u8) || (code[0] == 'M' as u8 && code[1] == 'C' as u8);
    if str_eq(field_name, "filepath") {
        if li {
            Some((144, 1024))
        } else if asset {
            Some((104, 1024))
        } else {
            None
        }
    } else if str_eq(field_name, "name") {
        if li {
            Some((32, 64))
        } else if asset {
            Some((0, 64))
        } else {
            None
        }
    } else {
        None
    }
}

/// The shared body of the best-effort field read.
fn extract_string_field_impl(block: &Block, field_name: &str) -> (r: Option<String>)
    ensures
        match r {
            Some(s) => spec_extract_string_field(block@.data, block@.code, field_name@)
                == Option::Some(s@) && s@.len() >= 3,
            None => spec_extract_string_field(block@.data, block@.code, field_name@) is None,
        },
{
    let data_len = block.data.len();
    if data_len == 0 {
        return None;
    }
    let (off, max_len) = match field_offsets(&block.code, field_name) {
        Some(p) => p,
        None => {
            return None;
        },
    };
    if off >= data_len {
        return None;
    }
    let send = if data_len - off >= max_len {
        off + max_len
    } else {
        data_len
    };
    let ghost window = block.data@.subrange(off as int, send as int);
    proof {
        assert(block.data@.subrange(off as int, send as int).len() == send - off);
    }
    let mut end = off;
    let mut found = false;
    while end < send && !found
        invariant
            off <= end <= send <= data_len,
            data_len == block.data@.len(),
            forall|j: int| off <= j < end ==> block.data@[j] != 0,
            found ==> end < send && block.data@[end as int] == 0,
        decreases send - end + (if found {
            0int
        } else {
            1int
        }),
    {
        if block.data[end] == 0 {
            found = true;
        } else {
            end = end + 1;
        }
    }
    proof {
        lemma_nul_pos(window);
        assert forall|j: int| 0 <= j < end - off implies window[j] != 0 by {
            assert(block.data@.subrange(off as int, send as int)[j] == block.data@[off + j]);
        }
        if found {
            let ei = end as int;
            assert(block.data@.subrange(off as int, send as int)[ei - off] == block.data@[ei]);
        }
        assert(spec_nul_pos(window) == end - off);
    }
    if off >= end {
        return None;
    }
    let mut filtered: Vec<u8> = Vec::new();
    let mut i: usize = off;
    proof {
        assert(block.data@.subrange(off as int, off as int) =~= Seq::<u8>::empty());
    }
    while i < end
        invariant
            off <= i <= end <= data_len,
            data_len == block.data@.len(),
            filtered@ == spec_printable(block.data@.subrange(off as int, i as int)),
        decreases end - i,
    {
        let b = block.data[i];
        proof {
            assert(block.data@.subrange(off as int, i + 1) =~= block.data@.subrange(
                off as int,
                i as int,
            ).push(block.data@[i as int]));
            lemma_printable_snoc(block.data@.subrange(off as int, i as int), block.data@[i as int]);
        }
        if 32 <= b && b <= 126 {
            filtered.push(b);
        }
        i = i + 1;
    }
    if filtered.len() == 0 {
        return None;
    }
    let fl = filtered.len();
    let mut a: usize = 0;
    while a < fl && filtered[a] == 32
        invariant
            a <= fl,
            fl == filtered@.len(),
            forall|j: int| 0 <= j < a ==> filtered@[j] == 32,
        decreases fl - a,
    {
        a = a + 1;
    }
    proof {
        lemma_lead_spaces(filtered@);
        assert(spec_lead_spaces(filtered@) == a);
    }
    if a == fl {
        proof {
            assert(spec_trim_spaces(filtered@).len() == 0);
        }
        return None;
    }
    let mut b2: usize = fl;
    while b2 > a && filtered[b2 - 1] == 32
        invariant
            a <= b2 <= fl,
            fl == filtered@.len(),
            a < fl,
            spec_lead_spaces(filtered@) == a,
            forall|j: int| b2 <= j < fl ==> filtered@[j] == 32,
        decreases b2,
    {
        b2 = b2 - 1;
    }
    proof {
        lemma_tail_spaces(filtered@);
        lemma_lead_spaces(filtered@);
        assert(filtered@[a as int] != 32);
        assert(b2 > a);
        assert(spec_tail_spaces(filtered@) == fl - b2);
        assert(spec_trim_spaces(filtered@) =~= filtered@.subrange(a as int, b2 as int));
    }
    if b2 - a < 3 {
        return None;
    }
    let mut s = String::new();
    let mut j: usize = a;
    proof {
        assert(filtered@.subrange(a as int, a as int) =~= Seq::<u8>::empty());
        assert(filtered@.subrange(a as int, a as int).map_values(|x: u8| x as char) =~= Seq::<
            char,
        >::empty());
    }
    while j < b2
        invariant
            a <= j <= b2 <= fl,
            fl == filtered@.len(),
            s@ == filtered@.subrange(a as int, j as int).map_values(|x: u8| x as char),
        decreases b2 - j,
    {
        let c = filtered[j];
        s.push(c as char);
        proof {
            assert(filtered@.subrange(a as int, j + 1) =~= filtered@.subrange(
                a as int,
                j as int,
            ).push(filtered@[j as int]));
            assert(filtered@.subrange(a as int, j + 1).map_values(|x: u8| x as char)
                =~= filtered@.subrange(a as int, j as int).map_values(|x: u8| x as char).push(
                filtered@[j as int] as char,
            ));
        }
        j = j + 1;
    }
    proof {
        assert(spec_trim_spaces(filtered@).map_values(|x: u8| x as char) =~= filtered@.subrange(
            a as int,
            b2 as int,
        ).map_values(|x: u8| x as char));
    }
    Some(s)
}

} // verus!
