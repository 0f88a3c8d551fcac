//! The container: a parsed header, the ordered block directory, and the
//! preserved struct-catalog bytes, with open-from-bytes and the full
//! rewrite that save performs.

use vstd::prelude::*;

verus! {

use crate::block::{
    spec_block_fits, spec_block_len, spec_parse_block, spec_terminator, Block, BlockView,
    lemma_block_round_trip,
};
use crate::compress::{decompress_if_needed, detect_compression, spec_decompressed, spec_detect,
    Compression};
use crate::dna::Dna;
use crate::error::BlendFileError;
use crate::header::{Endianness, Header, PointerSize, spec_header_valid, spec_header_matches,
    spec_header_error_matches, lemma_header_round_trip};
use vstd::string::StringExecFns;

/// The models of a sequence of blocks.
pub open spec fn views_of(bs: Seq<Block>) -> Seq<BlockView> {
    bs.map_values(|b: Block| b@)
}

/// Walk the block sequence of `d` from `pos`: collect parsed blocks
/// until fewer than four bytes remain or the terminator tag starts, and
/// report where the walk stopped. A block that overruns the buffer
/// fails the whole walk.
pub open spec fn spec_walk(d: Seq<u8>, ps: PointerSize, e: Endianness, pos: int) -> Option<
    (Seq<BlockView>, int),
>
    decreases d.len() - pos,
    when 0 <= pos <= d.len()
{
    if pos + 4 > d.len() || d.subrange(pos, pos + 4) == spec_terminator() {
        Option::Some((Seq::empty(), pos))
    } else if spec_block_fits(d, ps, e, pos) {
        match spec_walk(d, ps, e, pos + spec_block_len(d, ps, e, pos)) {
            Option::Some((rest, end)) => Option::Some(
                (seq![spec_parse_block(d, ps, e, pos)] + rest, end),
            ),
            Option::None => Option::None,
        }
    } else {
        Option::None
    }
}

/// The blocks of a successful walk from the byte after the header.
pub open spec fn spec_walk_blocks(d: Seq<u8>, ps: PointerSize, e: Endianness) -> Seq<BlockView> {
    spec_walk(d, ps, e, 12).unwrap().0
}

/// Where a successful walk from the byte after the header stopped: the
/// start of the terminator tag, or the point where the stream ran out.
pub open spec fn spec_walk_end(d: Seq<u8>, ps: PointerSize, e: Endianness) -> int {
    spec_walk(d, ps, e, 12).unwrap().1
}

/// The bytes a sequence of blocks occupies on disk, in order.
pub open spec fn spec_dir_bytes(bs: Seq<BlockView>, ps: PointerSize, e: Endianness) -> Seq<u8>
    decreases bs.len(),
{
    if bs.len() == 0 {
        Seq::empty()
    } else {
        bs[0].spec_bytes(ps, e) + spec_dir_bytes(bs.drop_first(), ps, e)
    }
}

/// Serializing one more block appends its bytes.
pub proof fn lemma_dir_bytes_snoc(bs: Seq<BlockView>, ps: PointerSize, e: Endianness)
    requires
        bs.len() > 0,
    ensures
        spec_dir_bytes(bs, ps, e) == spec_dir_bytes(bs.drop_last(), ps, e) + bs.last().spec_bytes(
            ps,
            e,
        ),
    decreases bs.len(),
{
    if bs.len() == 1 {
        assert(bs.drop_last() =~= Seq::empty());
        assert(bs.drop_first() =~= Seq::empty());
        assert(spec_dir_bytes(bs, ps, e) =~= spec_dir_bytes(bs.drop_last(), ps, e)
            + bs.last().spec_bytes(ps, e));
    } else {
        lemma_dir_bytes_snoc(bs.drop_first(), ps, e);
        assert(bs.drop_first().drop_last() =~= bs.drop_last().drop_first());
        assert(bs.drop_first().last() == bs.last());
        assert(bs.drop_last()[0] == bs[0]);
        assert(spec_dir_bytes(bs, ps, e) =~= spec_dir_bytes(bs.drop_last(), ps, e)
            + bs.last().spec_bytes(ps, e));
    }
}

/// The directory round trip: the blocks a successful walk collects,
/// re-serialized in order, are exactly the bytes the walk consumed.
#[verifier::spinoff_prover]
#[verifier::rlimit(60)]
pub proof fn lemma_directory_round_trip(d: Seq<u8>, ps: PointerSize, e: Endianness, pos: int)
    requires
        0 <= pos <= d.len(),
        spec_walk(d, ps, e, pos) is Some,
    ensures
        pos <= spec_walk(d, ps, e, pos).unwrap().1 <= d.len(),
        spec_dir_bytes(spec_walk(d, ps, e, pos).unwrap().0, ps, e) == d.subrange(
            pos,
            spec_walk(d, ps, e, pos).unwrap().1,
        ),
        forall|i: int|
            0 <= i < spec_walk(d, ps, e, pos).unwrap().0.len()
                ==> (#[trigger] spec_walk(d, ps, e, pos).unwrap().0[i]).wf(ps),
    decreases d.len() - pos,
{
    let (bs, end) = spec_walk(d, ps, e, pos).unwrap();
    if pos + 4 > d.len() || d.subrange(pos, pos + 4) == spec_terminator() {
        assert(spec_dir_bytes(bs, ps, e) =~= d.subrange(pos, end));
    } else {
        let blen = spec_block_len(d, ps, e, pos);
        let next = pos + blen;
        lemma_block_round_trip(d, ps, e, pos);
        lemma_directory_round_trip(d, ps, e, next);
        let rest = spec_walk(d, ps, e, next).unwrap().0;
        assert(end == spec_walk(d, ps, e, next).unwrap().1);
        assert(bs =~= seq![spec_parse_block(d, ps, e, pos)] + rest);
        assert(bs[0] == spec_parse_block(d, ps, e, pos));
        assert(bs.drop_first() =~= rest);
        assert(spec_dir_bytes(bs, ps, e) == bs[0].spec_bytes(ps, e) + spec_dir_bytes(rest, ps, e));
        assert(bs[0].spec_bytes(ps, e) == d.subrange(pos, next));
        assert(spec_dir_bytes(rest, ps, e) == d.subrange(next, end));
        assert(d.subrange(pos, next) + d.subrange(next, end) =~= d.subrange(pos, end));
        assert forall|i: int| 0 <= i < bs.len() implies (#[trigger] bs[i]).wf(ps) by {
            if i > 0 {
                assert(bs[i] == rest[i - 1]);
            }
        }
    }
}

/// True when `code` starts with the whole of `prefix`.
pub open spec fn spec_prefix_matches(code: Seq<u8>, prefix: Seq<u8>) -> bool
    recommends
        prefix.len() <= code.len(),
{
    code.subrange(0, prefix.len() as int) == prefix
}

/// The blocks whose code starts with `prefix`, in directory order.
pub open spec fn spec_filter_by_prefix(bs: Seq<BlockView>, prefix: Seq<u8>) -> Seq<BlockView>
    decreases bs.len(),
{
    if bs.len() == 0 {
        Seq::empty()
    } else if spec_prefix_matches(bs.last().code, prefix) {
        spec_filter_by_prefix(bs.drop_last(), prefix).push(bs.last())
    } else {
        spec_filter_by_prefix(bs.drop_last(), prefix)
    }
}

/// The positions of the blocks whose code starts with `prefix`, in
/// increasing order.
pub open spec fn spec_matching_indices(bs: Seq<BlockView>, prefix: Seq<u8>) -> Seq<int>
    decreases bs.len(),
{
    if bs.len() == 0 {
        Seq::empty()
    } else if spec_prefix_matches(bs.last().code, prefix) {
        spec_matching_indices(bs.drop_last(), prefix).push(bs.len() - 1)
    } else {
        spec_matching_indices(bs.drop_last(), prefix)
    }
}

/// Looking blocks up by prefix and selecting their positions for
/// mutation see the same blocks in the same order: the two query forms
/// agree.
pub proof fn lemma_lookup_forms_agree(bs: Seq<BlockView>, prefix: Seq<u8>)
    ensures
        spec_matching_indices(bs, prefix).len() == spec_filter_by_prefix(bs, prefix).len(),
        forall|i: int|
            0 <= i < spec_matching_indices(bs, prefix).len() ==> {
                &&& 0 <= #[trigger] spec_matching_indices(bs, prefix)[i] < bs.len()
                &&& bs[spec_matching_indices(bs, prefix)[i]] == spec_filter_by_prefix(bs, prefix)[i]
            },
        forall|i: int, j: int|
            0 <= i < j < spec_matching_indices(bs, prefix).len()
                ==> #[trigger] spec_matching_indices(bs, prefix)[i]
                < #[trigger] spec_matching_indices(bs, prefix)[j],
    decreases bs.len(),
{
    if bs.len() > 0 {
        lemma_lookup_forms_agree(bs.drop_last(), prefix);
    }
}

/// An open container: path, header, stub catalog metadata, the ordered
/// block directory, the raw catalog bytes preserved from the original
/// stream, the codec the file arrived under, and whether the session
/// may save.
#[derive(Debug)]
pub struct BlendFile {
    pub path: String,
    pub header: Header,
    pub dna: Dna,
    pub blocks: Vec<Block>,
    pub catalog: Vec<u8>,
    pub compression: Compression,
    pub writable: bool,
}

impl BlendFile {
    /// The header can be re-emitted and every block's payload length is
    /// its declared size.
    pub open spec fn wf(self) -> bool {
        &&& self.header.wf()
        &&& forall|i: int|
            0 <= i < self.blocks@.len() ==> (#[trigger] self.blocks@[i])@.wf(
                self.header.pointer_size,
            )
    }

    /// The full byte stream a save writes: header, every block in
    /// directory order, then the preserved catalog bytes unchanged.
    pub open spec fn spec_serialized(self) -> Seq<u8> {
        self.header.spec_bytes() + spec_dir_bytes(
            views_of(self.blocks@),
            self.header.pointer_size,
            self.header.endianness,
        ) + self.catalog@
    }

    /// Open a container from the raw bytes of a file.
    ///
    /// Decompresses once, parses the header, walks the block directory
    /// to the terminator or the end of the stream, and keeps everything
    /// from the stop point on as the opaque catalog bytes. Fails
    /// exactly when decompression fails, the header is malformed, or a
    /// block overruns the stream; no partial container is returned.
    pub fn from_bytes(path: &str, raw: &[u8], writable: bool) -> (r: Result<
        BlendFile,
        BlendFileError,
    >)
        ensures
            match r {
                Ok(bf) => {
                    &&& spec_decompressed(raw@) is Some
                    &&& {
                        let d = spec_decompressed(raw@).unwrap();
                        &&& spec_header_valid(d)
                        &&& spec_header_matches(bf.header, d)
                        &&& spec_walk(d, bf.header.pointer_size, bf.header.endianness, 12) is Some
                        &&& views_of(bf.blocks@) == spec_walk_blocks(
                            d,
                            bf.header.pointer_size,
                            bf.header.endianness,
                        )
                        &&& bf.catalog@ == d.subrange(
                            spec_walk_end(d, bf.header.pointer_size, bf.header.endianness),
                            d.len() as int,
                        )
                    }
                    &&& bf.compression == spec_detect(raw@)
                    &&& bf.writable == writable
                    &&& bf.path@ == path@
                    &&& bf.dna.structs@.len() == 0 && bf.dna.type_sizes@.len() == 0
                    &&& bf.wf()
                },
                Err(err) => {
                    if spec_decompressed(raw@) is None {
                        err is IoError
                    } else {
                        let d = spec_decompressed(raw@).unwrap();
                        if !spec_header_valid(d) {
                            spec_header_error_matches(err, d)
                        } else {
                            exists|h: Header|
                                spec_header_matches(h, d) && spec_walk(
                                    d,
                                    h.pointer_size,
                                    h.endianness,
                                    12,
                                ) is None && (err matches BlendFileError::IoError(m)
                                    && m@ == "unexpected end of stream in block"@)
                        }
                    }
                },
            },
    {
        let data = match decompress_if_needed(raw) {
            Ok(v) => v,
            Err(e) => {
                return Err(e);
            },
        };
        let compression = detect_compression(raw);
        let header = match Header::from_reader(data.as_slice()) {
            Ok(h) => h,
            Err(e) => {
                return Err(e);
            },
        };
        let ghost d = data@;
        let ghost ps = header.pointer_size;
        let ghost e = header.endianness;
        let mut blocks: Vec<Block> = Vec::new();
        let mut pos: usize = 12;
        loop
            invariant_except_break
                d == data@,
                ps == header.pointer_size,
                e == header.endianness,
                spec_decompressed(raw@) == Option::Some(data@),
                spec_header_valid(d),
                spec_header_matches(header, d),
                header.wf(),
                pos <= data@.len(),
                data@.len() <= usize::MAX,
                match spec_walk(d, ps, e, pos as int) {
                    Option::Some((rest, end)) => spec_walk(d, ps, e, 12) == Option::Some(
                        (views_of(blocks@) + rest, end),
                    ),
                    Option::None => spec_walk(d, ps, e, 12) is None,
                },
                forall|i: int| 0 <= i < blocks@.len() ==> (#[trigger] blocks@[i])@.wf(ps),
            ensures
                pos <= data@.len(),
                spec_walk(d, ps, e, 12) == Option::Some((views_of(blocks@), pos as int)),
                forall|i: int| 0 <= i < blocks@.len() ==> (#[trigger] blocks@[i])@.wf(ps),
            decreases data@.len() - pos,
        {
            match Block::from_reader(data.as_slice(), &mut pos, &header) {
                Ok(Some(b)) => {
                    proof {
                        assert(views_of(blocks@.push(b)) =~= views_of(blocks@) + seq![b@]);
                        if spec_walk(d, ps, e, pos as int) is Some {
                            let (rest, end) = spec_walk(d, ps, e, pos as int).unwrap();
                            assert(views_of(blocks@) + (seq![b@] + rest) =~= (views_of(blocks@)
                                + seq![b@]) + rest);
                        }
                    }
                    blocks.push(b);
                },
                Ok(None) => {
                    proof {
                        assert(views_of(blocks@) + Seq::<BlockView>::empty() =~= views_of(
                            blocks@,
                        ));
                    }
                    break ;
                },
                Err(err) => {
                    return Err(err);
                },
            }
        }
        let catalog = vstd::slice::slice_to_vec(
            vstd::slice::slice_subrange(data.as_slice(), pos, data.len()),
        );
        let dna = match Dna::from_reader(data.as_slice(), &header) {
            Ok(v) => v,
            Err(e2) => {
                return Err(e2);
            },
        };
        Ok(
            BlendFile {
                path: String::from_str(path),
                header,
                dna,
                blocks,
                catalog,
                compression,
                writable,
            },
        )
    }

    /// Serialize the whole container for a save: header, blocks,
    /// catalog bytes. Valid only on a writable session; a read-only
    /// container is refused with a mode error and nothing is produced.
    pub fn save_to_bytes(&self) -> (r: Result<Vec<u8>, BlendFileError>)
        requires
            self.wf(),
        ensures
            match r {
                Ok(v) => self.writable && v@ == self.spec_serialized(),
                Err(err) => !self.writable && (err matches BlendFileError::IoError(m) && m@
                    == "File not opened in write mode"@),
            },
    {
        if !self.writable {
            return Err(BlendFileError::IoError(String::from_str("File not opened in write mode")));
        }
        let mut out: Vec<u8> = Vec::new();
        self.header.write_to_writer(&mut out);
        let n = self.blocks.len();
        let mut i: usize = 0;
        while i < n
            invariant
                i <= n,
                n == self.blocks@.len(),
                self.wf(),
                out@ == self.header.spec_bytes() + spec_dir_bytes(
                    views_of(self.blocks@.take(i as int)),
                    self.header.pointer_size,
                    self.header.endianness,
                ),
            decreases n - i,
        {
            self.blocks[i].write_to_writer(&mut out, &self.header);
            proof {
                let vs = views_of(self.blocks@.take(i + 1));
                assert(vs.drop_last() =~= views_of(self.blocks@.take(i as int)));
                assert(vs.last() == self.blocks@[i as int]@);
                lemma_dir_bytes_snoc(vs, self.header.pointer_size, self.header.endianness);
            }
            i = i + 1;
        }
        proof {
            assert(views_of(self.blocks@.take(n as int)) =~= views_of(self.blocks@));
            assert(out@ =~= self.header.spec_bytes() + spec_dir_bytes(
                views_of(self.blocks@),
                self.header.pointer_size,
                self.header.endianness,
            ) + self.catalog@.subrange(0, 0));
        }
        let mut out2 = out;
        let mut j: usize = 0;
        let m = self.catalog.len();
        while j < m
            invariant
                j <= m,
                m == self.catalog@.len(),
                out2@ == self.header.spec_bytes() + spec_dir_bytes(
                    views_of(self.blocks@),
                    self.header.pointer_size,
                    self.header.endianness,
                ) + self.catalog@.subrange(0, j as int),
            decreases m - j,
        {
            out2.push(self.catalog[j]);
            proof {
                assert(self.catalog@.subrange(0, j + 1) =~= self.catalog@.subrange(0, j as int)
                    + seq![self.catalog@[j as int]]);
            }
            j = j + 1;
        }
        proof {
            assert(self.blocks@.take(n as int) =~= self.blocks@);
            assert(self.catalog@.subrange(0, m as int) =~= self.catalog@);
            assert(out2@ =~= self.spec_serialized());
        }
        Ok(out2)
    }

    /// Blocks whose type code starts with `code`, in directory order.
    pub fn get_blocks_by_type(&self, code: &[u8]) -> (r: Vec<&Block>)
        requires
            code@.len() <= 4,
        ensures
            r@.map_values(|b: &Block| b@) == spec_filter_by_prefix(views_of(self.blocks@), code@),
    {
        let n = self.blocks.len();
        let mut out: Vec<&Block> = Vec::new();
        let mut i: usize = 0;
        while i < n
            invariant
                i <= n,
                n == self.blocks@.len(),
                code@.len() <= 4,
                out@.map_values(|b: &Block| b@) == spec_filter_by_prefix(
                    views_of(self.blocks@.take(i as int)),
                    code@,
                ),
            decreases n - i,
        {
            let ghost prev = views_of(self.blocks@.take(i as int));
            let ghost cur = views_of(self.blocks@.take(i + 1));
            proof {
                assert(cur.drop_last() =~= prev);
                assert(cur.last() == self.blocks@[i as int]@);
            }
            let b = &self.blocks[i];
            if code_matches(&b.code, code) {
                let ghost old_out = out@;
                out.push(b);
                proof {
                    assert(out@.map_values(|x: &Block| x@) =~= old_out.map_values(|x: &Block| x@)
                        + seq![b@]);
                    assert(out@.map_values(|x: &Block| x@) =~= spec_filter_by_prefix(cur, code@));
                }
            } else {
                proof {
                    assert(spec_filter_by_prefix(cur, code@) =~= spec_filter_by_prefix(
                        prev,
                        code@,
                    ));
                }
            }
            i = i + 1;
        }
        proof {
            assert(self.blocks@.take(n as int) =~= self.blocks@);
        }
        out
    }

    /// Positions of the blocks whose type code starts with `code`, in
    /// increasing order: the select-then-mutate form of the lookup. A
    /// caller mutates `blocks[i]` for each returned `i`.
    pub fn get_blocks_by_type_indices(&self, code: &[u8]) -> (r: Vec<usize>)
        requires
            code@.len() <= 4,
        ensures
            r@.map_values(|k: usize| k as int) == spec_matching_indices(
                views_of(self.blocks@),
                code@,
            ),
    {
        let n = self.blocks.len();
        let mut out: Vec<usize> = Vec::new();
        let mut i: usize = 0;
        while i < n
            invariant
                i <= n,
                n == self.blocks@.len(),
                code@.len() <= 4,
                out@.map_values(|k: usize| k as int) == spec_matching_indices(
                    views_of(self.blocks@.take(i as int)),
                    code@,
                ),
            decreases n - i,
        {
            let ghost prev = views_of(self.blocks@.take(i as int));
            let ghost cur = views_of(self.blocks@.take(i + 1));
            proof {
                assert(cur.drop_last() =~= prev);
                assert(cur.last() == self.blocks@[i as int]@);
            }
            let b = &self.blocks[i];
            if code_matches(&b.code, code) {
                let ghost old_out = out@;
                out.push(i);
                proof {
                    assert(out@.map_values(|k: usize| k as int) =~= old_out.map_values(
                        |k: usize| k as int,
                    ) + seq![i as int]);
                    assert(out@.map_values(|k: usize| k as int) =~= spec_matching_indices(
                        cur,
                        code@,
                    ));
                }
            } else {
                proof {
                    assert(spec_matching_indices(cur, code@) =~= spec_matching_indices(
                        prev,
                        code@,
                    ));
                }
            }
            i = i + 1;
        }
        proof {
            assert(self.blocks@.take(n as int) =~= self.blocks@);
        }
        out
    }

    /// Library blocks: type codes starting `LI`.
    pub fn get_library_blocks(&self) -> (r: Vec<&Block>)
        ensures
            r@.map_values(|b: &Block| b@) == spec_filter_by_prefix(
                views_of(self.blocks@),
                seq!['L' as u8, 'I' as u8],
            ),
    {
        let code: [u8; 2] = ['L' as u8, 'I' as u8];
        let r = self.get_blocks_by_type(code.as_slice());
        proof {
            assert(code@ =~= seq!['L' as u8, 'I' as u8]);
        }
        r
    }

    /// Image blocks: type codes starting `IM`.
    pub fn get_image_blocks(&self) -> (r: Vec<&Block>)
        ensures
            r@.map_values(|b: &Block| b@) == spec_filter_by_prefix(
                views_of(self.blocks@),
                seq!['I' as u8, 'M' as u8],
            ),
    {
        let code: [u8; 2] = ['I' as u8, 'M' as u8];
        let r = self.get_blocks_by_type(code.as_slice());
        proof {
            assert(code@ =~= seq!['I' as u8, 'M' as u8]);
        }
        r
    }

    /// Sound blocks: type codes starting `SO`.
    pub fn get_sound_blocks(&self) -> (r: Vec<&Block>)
        ensures
            r@.map_values(|b: &Block| b@) == spec_filter_by_prefix(
                views_of(self.blocks@),
                seq!['S' as u8, 'O' as u8],
            ),
    {
        let code: [u8; 2] = ['S' as u8, 'O' as u8];
        let r = self.get_blocks_by_type(code.as_slice());
        proof {
            assert(code@ =~= seq!['S' as u8, 'O' as u8]);
        }
        r
    }

    /// Movie-clip blocks: type codes starting `MC`.
    pub fn get_movie_clip_blocks(&self) -> (r: Vec<&Block>)
        ensures
            r@.map_values(|b: &Block| b@) == spec_filter_by_prefix(
                views_of(self.blocks@),
                seq!['M' as u8, 'C' as u8],
            ),
    {
        let code: [u8; 2] = ['M' as u8, 'C' as u8];
        let r = self.get_blocks_by_type(code.as_slice());
        proof {
            assert(code@ =~= seq!['M' as u8, 'C' as u8]);
        }
        r
    }

    /// Mesh blocks: type codes starting `ME`.
    pub fn get_mesh_blocks(&self) -> (r: Vec<&Block>)
        ensures
            r@.map_values(|b: &Block| b@) == spec_filter_by_prefix(
                views_of(self.blocks@),
                seq!['M' as u8, 'E' as u8],
            ),
    {
        let code: [u8; 2] = ['M' as u8, 'E' as u8];
        let r = self.get_blocks_by_type(code.as_slice());
        proof {
            assert(code@ =~= seq!['M' as u8, 'E' as u8]);
        }
        r
    }

    /// Material blocks: type codes starting `MA`.
    pub fn get_material_blocks(&self) -> (r: Vec<&Block>)
        ensures
            r@.map_values(|b: &Block| b@) == spec_filter_by_prefix(
                views_of(self.blocks@),
                seq!['M' as u8, 'A' as u8],
            ),
    {
        let code: [u8; 2] = ['M' as u8, 'A' as u8];
        let r = self.get_blocks_by_type(code.as_slice());
        proof {
            assert(code@ =~= seq!['M' as u8, 'A' as u8]);
        }
        r
    }

    /// Texture blocks: type codes starting `TE`.
    pub fn get_texture_blocks(&self) -> (r: Vec<&Block>)
        ensures
            r@.map_values(|b: &Block| b@) == spec_filter_by_prefix(
                views_of(self.blocks@),
                seq!['T' as u8, 'E' as u8],
            ),
    {
        let code: [u8; 2] = ['T' as u8, 'E' as u8];
        let r = self.get_blocks_by_type(code.as_slice());
        proof {
            assert(code@ =~= seq!['T' as u8, 'E' as u8]);
        }
        r
    }

    /// The linked assets of this container, with relative paths
    /// resolved against the directory containing it. Fails exactly
    /// when the container's path has no containing directory.
    pub fn get_library_links(&self) -> (r: Result<
        Vec<crate::library_link::LibraryLink>,
        BlendFileError,
    >)
        ensures
            match r {
                Ok(v) => {
                    &&& crate::paths::spec_parent(self.path@) is Some
                    &&& v@.map_values(|l: crate::library_link::LibraryLink| l@)
                        == crate::library_link::spec_extract_links(
                        views_of(self.blocks@),
                    ).map_values(
                        |l: crate::library_link::LinkView|
                            crate::library_link::spec_resolve_link(
                                l,
                                crate::paths::spec_parent(self.path@).unwrap(),
                            ),
                    )
                },
                Err(e) => {
                    &&& crate::paths::spec_parent(self.path@) is None
                    &&& (e matches BlendFileError::InvalidFormat(m) && m@
                        == "Invalid blend file path"@)
                },
            },
    {
        let extractor = crate::library_link::LibraryLinkExtractor::new(self.path.as_str());
        let mut links = match extractor.extract_links(self.blocks.as_slice(), &self.dna) {
            Ok(v) => v,
            Err(e) => {
                return Err(e);
            },
        };
        match extractor.resolve_relative_paths(&mut links) {
            Ok(()) => Ok(links),
            Err(e) => Err(e),
        }
    }

    /// Whether the stream arrived under a compression codec.
    pub fn is_compressed(&self) -> (r: bool)
        ensures
            r == (self.compression != Compression::Uncompressed),
    {
        match self.compression {
            Compression::Uncompressed => false,
            _ => true,
        }
    }

    /// End the session: the container becomes read-only, so a later
    /// save is refused. Idempotent; the parsed data stays readable.
    pub fn close(&mut self)
        ensures
            final(self).writable == false,
            final(self).path == old(self).path,
            final(self).header == old(self).header,
            final(self).blocks == old(self).blocks,
            final(self).catalog == old(self).catalog,
            final(self).compression == old(self).compression,
    {
        self.writable = false;
    }
}

/// True when the four-byte type code starts with `prefix`.
fn code_matches(code: &[u8; 4], prefix: &[u8]) -> (r: bool)
    requires
        prefix@.len() <= 4,
    ensures
        r == spec_prefix_matches(code@, prefix@),
{
    let k = prefix.len();
    let mut i: usize = 0;
    while i < k
        invariant
            i <= k,
            k == prefix@.len() <= 4,
            forall|j: int| 0 <= j < i ==> code@[j] == prefix@[j],
        decreases k - i,
    {
        if code[i] != prefix[i] {
            proof {
                assert(code@.subrange(0, k as int)[i as int] != prefix@[i as int]);
            }
            return false;
        }
        i = i + 1;
    }
    proof {
        assert(code@.subrange(0, k as int) =~= prefix@);
    }
    true
}

/// The container round trip: a stream whose header parses and whose
/// walk succeeds is reproduced byte for byte by re-serializing the
/// parsed container, given an unchanged header.
pub proof fn lemma_container_round_trip(d: Seq<u8>, h: Header)
    requires
        spec_header_valid(d),
        spec_header_matches(h, d),
        spec_walk(d, h.pointer_size, h.endianness, 12) is Some,
    ensures
        h.spec_bytes() + spec_dir_bytes(
            spec_walk_blocks(d, h.pointer_size, h.endianness),
            h.pointer_size,
            h.endianness,
        ) + d.subrange(spec_walk_end(d, h.pointer_size, h.endianness), d.len() as int) == d,
{
    lemma_header_round_trip(h, d);
    lemma_directory_round_trip(d, h.pointer_size, h.endianness, 12);
    assert(h.spec_bytes() + spec_dir_bytes(
        spec_walk_blocks(d, h.pointer_size, h.endianness),
        h.pointer_size,
        h.endianness,
    ) + d.subrange(spec_walk_end(d, h.pointer_size, h.endianness), d.len() as int) =~= d);
}

} // verus!
