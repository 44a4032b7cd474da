//! Building a virtual texture container from a source image: the mip
//! pyramid is generated, each tiled level is cut into tiles, and the
//! tiles are serialized by the container codec.

use vstd::prelude::*;

use crate::codec::{
    encode_container, spec_parse_container, Container, MipLevelTiles, spec_tile_len,
};
use crate::endian::EEndianType;
use crate::error::CodecError;
use crate::image::{lemma_tile_blob_pixel, spec_tile_blob, Image, SpecImage};
use crate::mipmap_generator::{spec_mip_image, MipmapGenerator};
use crate::misc::spec_max_mips;
use crate::tile::spec_is_pow2;

verus! {

/// The longer side of an image model that came from a `u32`-sized image.
pub open spec fn spec_longest_side(s: SpecImage) -> u32 {
    if s.width >= s.height {
        s.width as u32
    } else {
        s.height as u32
    }
}

/// Number of tiles of one level: zero when a side is smaller than a tile.
pub open spec fn spec_level_tile_grid(s: SpecImage, ts: u32) -> (int, int) {
    if s.width >= ts && s.height >= ts {
        (s.width / (ts as int), s.height / (ts as int))
    } else {
        (0int, 0int)
    }
}

/// An image can be encoded with a tile size when both sides hold at
/// least one tile and every level large enough to be tiled has exact
/// tile multiples as dimensions.
pub open spec fn spec_encodable(s: SpecImage, ts: u32) -> bool {
    &&& s.width >= ts
    &&& s.height >= ts
    &&& forall|l: int|
        0 <= l < spec_max_mips(spec_longest_side(s)) ==> {
            let mi = #[trigger] spec_mip_image(s, l);
            (mi.width >= ts && mi.height >= ts) ==> (mi.width % (ts as int) == 0 && mi.height % (
            ts as int) == 0)
        }
}

/// Number of tiles of all levels before `l` of an image's mip pyramid.
pub open spec fn spec_vt_tiles_before(s: SpecImage, ts: u32, l: int) -> int
    decreases l,
{
    if l <= 0 {
        0
    } else {
        spec_vt_tiles_before(s, ts, l - 1) + {
            let g = spec_level_tile_grid(spec_mip_image(s, l - 1), ts);
            g.0 * g.1
        }
    }
}

/// Byte size of the encoded container of an image's mip pyramid.
pub open spec fn spec_vt_size(s: SpecImage, ts: u32) -> int {
    let mips = spec_max_mips(spec_longest_side(s)) as int;
    let total = spec_vt_tiles_before(s, ts, mips);
    9 + 16 * mips + 16 * total + total * spec_tile_len(ts)
}

/// The canonical container layout of an image's pyramid: where the
/// blob of tile `k` of level `l` stands.
pub open spec fn spec_vt_tile_offset(s: SpecImage, ts: u32, l: int, k: int) -> int {
    let mips = spec_max_mips(spec_longest_side(s)) as int;
    9 + 16 * mips + 16 * spec_vt_tiles_before(s, ts, mips) + (spec_vt_tiles_before(s, ts, l) + k)
        * spec_tile_len(ts)
}

/// The canonical map entries of the first `k` tiles of level `l`.
pub open spec fn spec_vt_entries_upto(s: SpecImage, ts: u32, tag: u8, l: int, k: int) -> Seq<u8>
    decreases k,
{
    if k <= 0 {
        Seq::empty()
    } else {
        spec_vt_entries_upto(s, ts, tag, l, k - 1) + crate::endian::spec_u64_to_bytes(
            tag,
            spec_vt_tile_offset(s, ts, l, k - 1) as u64,
        ) + crate::endian::spec_u64_to_bytes(tag, spec_tile_len(ts) as u64)
    }
}

/// The canonical map record of level `l`.
pub open spec fn spec_vt_level_record(s: SpecImage, ts: u32, tag: u8, l: int) -> Seq<u8> {
    let mi = spec_mip_image(s, l);
    let g = spec_level_tile_grid(mi, ts);
    crate::endian::spec_u32_to_bytes(tag, mi.width as u32) + crate::endian::spec_u32_to_bytes(
        tag,
        mi.height as u32,
    ) + crate::endian::spec_u32_to_bytes(tag, g.0 as u32) + crate::endian::spec_u32_to_bytes(
        tag,
        g.1 as u32,
    ) + spec_vt_entries_upto(s, ts, tag, l, g.0 * g.1)
}

/// The canonical map records of the first `l` levels.
pub open spec fn spec_vt_records_upto(s: SpecImage, ts: u32, tag: u8, l: int) -> Seq<u8>
    decreases l,
{
    if l <= 0 {
        Seq::empty()
    } else {
        spec_vt_records_upto(s, ts, tag, l - 1) + spec_vt_level_record(s, ts, tag, l - 1)
    }
}

/// The canonical blobs of the first `k` tiles of level `l`.
pub open spec fn spec_vt_level_blobs_upto(s: SpecImage, ts: u32, l: int, k: int) -> Seq<u8>
    decreases k,
{
    if k <= 0 {
        Seq::empty()
    } else {
        let mi = spec_mip_image(s, l);
        let g = spec_level_tile_grid(mi, ts);
        spec_vt_level_blobs_upto(s, ts, l, k - 1) + spec_tile_blob(
            mi,
            ts,
            (k - 1) % g.0,
            (k - 1) / g.0,
        )
    }
}

/// The canonical blobs of all tiles of the first `l` levels.
pub open spec fn spec_vt_blobs_upto(s: SpecImage, ts: u32, l: int) -> Seq<u8>
    decreases l,
{
    if l <= 0 {
        Seq::empty()
    } else {
        let mi = spec_mip_image(s, l - 1);
        let g = spec_level_tile_grid(mi, ts);
        spec_vt_blobs_upto(s, ts, l - 1) + spec_vt_level_blobs_upto(s, ts, l - 1, g.0 * g.1)
    }
}

/// The canonical encoding of an image's pyramid: a pure function of the
/// image's pixels, the tile size and the byte order, so encoding the
/// same inputs always yields the same bytes, bit for bit.
pub open spec fn spec_vt_encoding(s: SpecImage, ts: u32, tag: u8) -> Seq<u8> {
    let mips = spec_max_mips(spec_longest_side(s)) as int;
    (seq![tag] + crate::endian::spec_u32_to_bytes(tag, ts) + crate::endian::spec_u32_to_bytes(
        tag,
        mips as u32,
    )) + spec_vt_records_upto(s, ts, tag, mips) + spec_vt_blobs_upto(s, ts, mips)
}

/// The encoded bytes hold the virtual texture of an image: the parsed
/// map mirrors the mip pyramid, and every map entry points at the blob
/// of its tile of its mip level.
pub open spec fn spec_encodes_virtual_texture(
    bytes: Seq<u8>,
    s: SpecImage,
    ts: u32,
    tag: u8,
) -> bool {
    let om = spec_parse_container(bytes);
    &&& om is Some
    &&& ({
        let m = om.unwrap();
        &&& m.tag == tag
        &&& m.tile_size == ts
        &&& m.levels.len() == spec_max_mips(spec_longest_side(s))
        &&& forall|l: int|
            0 <= l < m.levels.len() ==> {
                let mi = spec_mip_image(s, l);
                let g = spec_level_tile_grid(mi, ts);
                &&& (#[trigger] m.levels[l]).width == mi.width
                &&& m.levels[l].height == mi.height
                &&& m.levels[l].tiles_x == g.0
                &&& m.levels[l].tiles_y == g.1
                &&& m.levels[l].entries.len() == g.0 * g.1
            }
        &&& forall|l: int, k: int|
            0 <= l < m.levels.len() && 0 <= k < m.levels[l].entries.len() ==> {
                let mi = spec_mip_image(s, l);
                let e = #[trigger] m.levels[l].entries[k];
                &&& e.0 + e.1 <= bytes.len()
                &&& e.1 == spec_tile_len(ts)
                &&& bytes.subrange(e.0 as int, e.0 + e.1) == spec_tile_blob(
                    mi,
                    ts,
                    k % (m.levels[l].tiles_x as int),
                    k / (m.levels[l].tiles_x as int),
                )
            }
    })
}

/// One built level mirrors one mip image: same dimensions, the grid's
/// tile count, alignment when tiled, and each tile's exact blob.
pub open spec fn spec_level_ok(lvl: MipLevelTiles, mi: SpecImage, ts: u32) -> bool {
    let g = spec_level_tile_grid(mi, ts);
    &&& lvl.width == mi.width
    &&& lvl.height == mi.height
    &&& lvl.tiles@.len() == g.0 * g.1
    &&& ((mi.width >= ts && mi.height >= ts) ==> (mi.width % (ts as int) == 0 && mi.height % (
    ts as int) == 0))
    &&& forall|k: int|
        0 <= k < lvl.tiles@.len() ==> (#[trigger] lvl.tiles@[k])@ == spec_tile_blob(
            mi,
            ts,
            k % g.0,
            k / g.0,
        )
}

/// Cuts one tile out of an image: the tile's rows, concatenated.
pub fn extract_tile(img: &Image, ts: u32, tx: u32, ty: u32) -> (out: Vec<u8>)
    requires
        img.wf(),
        1 <= ts <= 0x4000,
        (tx + 1) * ts <= img.width,
        (ty + 1) * ts <= img.height,
    ensures
        out@ == spec_tile_blob(img@, ts, tx as int, ty as int),
{
    let ghost target = spec_tile_blob(img@, ts, tx as int, ty as int);
    let mut out: Vec<u8> = Vec::new();
    let row_bytes: u32 = ts * 4;
    let mut r: u32 = 0;
    while r < ts
        invariant
            img.wf(),
            1 <= ts <= 0x4000,
            (tx + 1) * ts <= img.width,
            (ty + 1) * ts <= img.height,
            row_bytes == ts * 4,
            target == spec_tile_blob(img@, ts, tx as int, ty as int),
            0 <= r <= ts,
            out@.len() == r * row_bytes,
            forall|i: int| 0 <= i < out@.len() ==> out@[i] == target[i],
        decreases ts - r,
    {
        let mut o: u32 = 0;
        while o < row_bytes
            invariant
                img.wf(),
                1 <= ts <= 0x4000,
                (tx + 1) * ts <= img.width,
                (ty + 1) * ts <= img.height,
                row_bytes == ts * 4,
                target == spec_tile_blob(img@, ts, tx as int, ty as int),
                0 <= r < ts,
                0 <= o <= row_bytes,
                out@.len() == r * row_bytes + o,
                forall|i: int| 0 <= i < out@.len() ==> out@[i] == target[i],
            decreases row_bytes - o,
        {
            proof {
                lemma_tile_source_index(img@, ts, tx as int, ty as int, r as int, o as int);
                vstd::std_specs::vec::axiom_spec_len(&img.data);
                assert((ty as int) * (ts as int) + r < 0x1_0000_0000 && ((ty as int) * (
                ts as int) + r) * (img.width as int) + (tx as int) * (ts as int) < 0x1_0000_0000
                    * 0x1_0000_0000) by (nonlinear_arith)
                    requires
                        1 <= ts,
                        0 <= tx,
                        0 <= ty,
                        0 <= r < ts,
                        (tx + 1) * (ts as int) <= img.width,
                        (ty + 1) * (ts as int) <= img.height,
                        img.width < 0x1_0000_0000,
                        img.height < 0x1_0000_0000,
                ;
            }
            let src_row: u128 = (ty as u128) * (ts as u128) + (r as u128);
            let src_idx: u128 = (src_row * (img.width as u128) + (tx as u128) * (ts as u128)) * 4
                + (o as u128);
            let v = img.data[src_idx as usize];
            proof {
                let i = (r as int) * (row_bytes as int) + o;
                assert(0 <= i < (ts as int) * ((ts as int) * 4) && i / ((ts as int) * 4) == r && i
                    % ((ts as int) * 4) == o) by (nonlinear_arith)
                    requires
                        1 <= ts,
                        0 <= r < ts,
                        0 <= o < ts * 4,
                        i == (r as int) * ((ts as int) * 4) + o,
                ;
                assert((ts as int) * ((ts as int) * 4) == ts * ts * 4) by (nonlinear_arith);
                assert(target[i] == v);
            }
            out.push(v);
            o = o + 1;
        }
        proof {
            assert((r as int) * (row_bytes as int) + row_bytes == (r + 1) * (row_bytes as int))
                by (nonlinear_arith);
        }
        r = r + 1;
    }
    proof {
        assert((ts as int) * ((ts as int) * 4) == (ts as int) * (ts as int) * 4)
            by (nonlinear_arith);
        assert(out@ =~= target);
    }
    out
}

/// The source byte of offset `o` of row `r` of a tile lies inside the
/// image, at the flat index the tile blob reads.
proof fn lemma_tile_source_index(s: SpecImage, ts: u32, tx: int, ty: int, r: int, o: int)
    requires
        s.wf(),
        1 <= ts,
        0 <= tx,
        0 <= ty,
        (tx + 1) * ts <= s.width,
        (ty + 1) * ts <= s.height,
        0 <= r < ts,
        0 <= o < ts * 4,
    ensures
        0 <= ((ty * ts + r) * s.width + tx * ts) * 4 + o < s.data.len(),
{
    assert(0 <= ((ty * ts + r) * s.width + tx * ts) * 4 + o < s.width * s.height * 4)
        by (nonlinear_arith)
        requires
            s.width >= 1,
            s.height >= 1,
            1 <= ts,
            0 <= tx,
            0 <= ty,
            (tx + 1) * ts <= s.width,
            (ty + 1) * ts <= s.height,
            0 <= r < ts,
            0 <= o < ts * 4,
    ;
}

/// Builds the tiled container bytes of one source image: generates the
/// mip pyramid, cuts every large-enough level into tiles, and encodes
/// them with explicit endianness. Fails with `SizeNotTileAligned` exactly
/// when a tiled level's dimensions are not exact multiples of the tile
/// size (or the image holds less than one tile), and with `IOError`
/// exactly when the container would outgrow its 64-bit offsets.
#[verifier::rlimit(100)]
pub fn create_virtual_texture_cache_data(image: Image, endian_type: EEndianType, tile_size: u32) -> (r:
    Result<Vec<u8>, CodecError>)
    requires
        image.wf(),
        spec_is_pow2(tile_size),
        tile_size <= 0x4000,
    ensures
        (r is Ok) == (spec_encodable(image@, tile_size) && spec_vt_size(image@, tile_size)
            <= u64::MAX),
        match r {
            Ok(bytes) => {
                // The output is the canonical encoding: a pure function
                // of the pixels, the tile size and the byte order, so
                // encoding equal inputs gives bit-for-bit equal bytes.
                &&& bytes@ == spec_vt_encoding(image@, tile_size, endian_type.spec_tag())
                &&& spec_encodes_virtual_texture(
                    bytes@,
                    image@,
                    tile_size,
                    endian_type.spec_tag(),
                )
            },
            Err(e) => {
                &&& (e is SizeNotTileAligned <==> !spec_encodable(image@, tile_size))
                &&& (e is IOError <==> (spec_encodable(image@, tile_size) && spec_vt_size(
                    image@,
                    tile_size,
                ) > u64::MAX))
            },
        },
{
    let ghost s0 = image@;
    let ts = tile_size;
    let tag = endian_type.tag();
    proof {
        crate::tile::lemma_pow2_positive(ts);
    }
    if image.width < ts || image.height < ts {
        return Err(CodecError::SizeNotTileAligned);
    }
    let iw = image.width;
    let ih = image.height;
    let mips = MipmapGenerator::generate_from_image_cpu(image);
    proof {
        assert(spec_longest_side(s0) == (if iw >= ih {
            iw
        } else {
            ih
        }));
    }
    proof {
        crate::misc::lemma_max_mips_bound(spec_longest_side(s0));
    }
    let mips_len = mips.len();
    let mut levels: Vec<MipLevelTiles> = Vec::new();
    let mut bad: bool = false;
    let mut l: usize = 0;
    while l < mips_len
        invariant
            bad ==> !spec_encodable(s0, ts),
            s0.wf(),
            1 <= ts <= 0x4000,
            s0.width >= ts,
            s0.height >= ts,
            tag == 0 || tag == 1,
            mips_len == mips@.len(),
            mips_len == spec_max_mips(spec_longest_side(s0)),
            mips_len <= 33,
            forall|i: int|
                0 <= i < mips@.len() ==> (#[trigger] mips@[i])@ == spec_mip_image(s0, i)
                    && mips@[i].wf(),
            0 <= l <= mips_len,
            levels@.len() == l,
            forall|i: int|
                0 <= i < l ==> spec_level_ok(#[trigger] levels@[i], spec_mip_image(s0, i), ts),
        ensures
            bad || l == mips_len,
            bad ==> !spec_encodable(s0, ts),
            levels@.len() == l,
            forall|i: int|
                0 <= i < l ==> spec_level_ok(#[trigger] levels@[i], spec_mip_image(s0, i), ts),
        decreases mips_len - l,
    {
        let m = &mips[l];
        let ghost mi = spec_mip_image(s0, l as int);
        if m.width >= ts && m.height >= ts {
            if m.width % ts != 0 || m.height % ts != 0 {
                proof {
                    assert(spec_mip_image(s0, l as int).width % (ts as int) != 0
                        || spec_mip_image(s0, l as int).height % (ts as int) != 0);
                    assert(!spec_encodable(s0, ts));
                }
                bad = true;
                break;
            }
            let gx: u32 = m.width / ts;
            let gy: u32 = m.height / ts;
            let mut tiles: Vec<Vec<u8>> = Vec::new();
            let mut row: u32 = 0;
            while row < gy
                invariant
                    m.wf(),
                    m@ == mi,
                    1 <= ts <= 0x4000,
                    m.width >= ts,
                    m.height >= ts,
                    m.width % ts == 0,
                    m.height % ts == 0,
                    gx == m.width / ts,
                    gy == m.height / ts,
                    0 <= row <= gy,
                    tiles@.len() == row * gx,
                    forall|k: int|
                        0 <= k < tiles@.len() ==> (#[trigger] tiles@[k])@ == spec_tile_blob(
                            mi,
                            ts,
                            k % (gx as int),
                            k / (gx as int),
                        ),
                decreases gy - row,
            {
                let mut col: u32 = 0;
                while col < gx
                    invariant
                        m.wf(),
                        m@ == mi,
                        1 <= ts <= 0x4000,
                        m.width >= ts,
                        m.height >= ts,
                        m.width % ts == 0,
                        m.height % ts == 0,
                        gx == m.width / ts,
                        gy == m.height / ts,
                        0 <= row < gy,
                        0 <= col <= gx,
                        tiles@.len() == row * gx + col,
                        forall|k: int|
                            0 <= k < tiles@.len() ==> (#[trigger] tiles@[k])@ == spec_tile_blob(
                                mi,
                                ts,
                                k % (gx as int),
                                k / (gx as int),
                            ),
                    decreases gx - col,
                {
                    proof {
                        assert((col + 1) * ts <= m.width && (row + 1) * ts <= m.height)
                            by (nonlinear_arith)
                            requires
                                1 <= ts,
                                0 <= col < gx,
                                0 <= row < gy,
                                gx == m.width / ts,
                                gy == m.height / ts,
                                m.width % ts == 0,
                                m.height % ts == 0,
                                m.width >= 1,
                                m.height >= 1,
                        ;
                    }
                    let t = extract_tile(m, ts, col, row);
                    proof {
                        let k = (row as int) * (gx as int) + col;
                        assert(k % (gx as int) == col && k / (gx as int) == row)
                            by (nonlinear_arith)
                            requires
                                1 <= gx,
                                0 <= col < gx,
                                0 <= row,
                                k == (row as int) * (gx as int) + col,
                        ;
                    }
                    tiles.push(t);
                    col = col + 1;
                }
                proof {
                    assert((row as int) * (gx as int) + gx == (row + 1) * (gx as int))
                        by (nonlinear_arith);
                }
                row = row + 1;
            }
            proof {
                assert((gy as int) * (gx as int) == (gx as int) * (gy as int))
                    by (nonlinear_arith);
            }
            levels.push(MipLevelTiles { width: m.width, height: m.height, tiles });
            proof {
                let g = spec_level_tile_grid(mi, ts);
                assert(g.0 == gx as int && g.1 == gy as int);
                assert(spec_level_ok(levels@[l as int], mi, ts));
            }
        } else {
            levels.push(MipLevelTiles { width: m.width, height: m.height, tiles: Vec::new() });
            proof {
                let g = spec_level_tile_grid(mi, ts);
                assert(g.0 == 0 && g.1 == 0);
                assert(g.0 * g.1 == 0) by (nonlinear_arith)
                    requires
                        g.0 == 0,
                ;
                assert(spec_level_ok(levels@[l as int], mi, ts));
            }
        }
        proof {
            assert forall|i: int|
                0 <= i < l + 1 implies spec_level_ok(
                #[trigger] levels@[i],
                spec_mip_image(s0, i),
                ts,
            ) by {}
        }
        l = l + 1;
    }
    if bad {
        return Err(CodecError::SizeNotTileAligned);
    }
    // Every tiled level was checked, so the pyramid is encodable.
    proof {
        assert forall|j: int|
            0 <= j < spec_max_mips(spec_longest_side(s0)) implies {
            let mi = #[trigger] spec_mip_image(s0, j);
            (mi.width >= ts && mi.height >= ts) ==> (mi.width % (ts as int) == 0 && mi.height % (
            ts as int) == 0)
        } by {
            assert(spec_level_ok(levels@[j], spec_mip_image(s0, j), ts));
        }
        assert(spec_encodable(s0, ts));
    }
    let c = Container { tag, tile_size: ts, levels };
    // The container mirrors the pyramid tile for tile; check that its
    // encoding fits 64-bit offsets before serializing.
    proof {
        lemma_vt_tiles_match(c, s0, ts, c.levels@.len() as int);
    }
    proof {
        assert((ts as int) * (ts as int) * 4 <= 0x4000 * 0x4000 * 4) by (nonlinear_arith)
            requires
                1 <= ts <= 0x4000,
        ;
    }
    let b_len: u128 = (ts as u128) * (ts as u128) * 4;
    let mut total: u128 = 0;
    let mut i: usize = 0;
    while i < c.levels.len()
        invariant
            c.levels@.len() <= 33,
            0 <= i <= c.levels@.len(),
            total == c.spec_tiles_before(i as int),
            total <= (i as int) * 0x1_0000_0000_0000_0000,
        decreases c.levels@.len() - i,
    {
        total = total + (c.levels[i].tiles.len() as u128);
        i = i + 1;
    }
    proof {
        assert(total * b_len <= 33 * 0x1_0000_0000_0000_0000 * 0x4000_0000 && 16 * total <= 16
            * 33 * 0x1_0000_0000_0000_0000) by (nonlinear_arith)
            requires
                0 <= total <= 33 * 0x1_0000_0000_0000_0000,
                0 <= b_len <= 0x4000_0000,
        ;
    }
    let size: u128 = 9 + 16 * (c.levels.len() as u128) + 16 * total + total * b_len;
    proof {
        assert(total * b_len == c.spec_total_tiles() * spec_tile_len(ts)) by (nonlinear_arith)
            requires
                total == c.spec_total_tiles(),
                b_len == spec_tile_len(ts),
        ;
        assert(size == spec_vt_size(s0, ts));
    }
    if size > 0xffff_ffff_ffff_ffff {
        return Err(CodecError::IOError);
    }
    proof {
        assert(c.wf());
        crate::codec::lemma_codec_round_trip(c);
    }
    let bytes = encode_container(&c);
    proof {
        lemma_model_matches(c, s0, ts);
        assert(spec_mirrors(c, s0, ts, tag));
        lemma_vt_encoding_match(c, s0, ts, tag);
    }
    Ok(bytes)
}

/// The container built from a pyramid has the pyramid's tile counts.
proof fn lemma_vt_tiles_match(c: Container, s: SpecImage, ts: u32, l: int)
    requires
        0 <= l <= c.levels@.len(),
        ts >= 1,
        forall|i: int|
            0 <= i < c.levels@.len() ==> spec_level_ok(
                #[trigger] c.levels@[i],
                spec_mip_image(s, i),
                ts,
            ),
    ensures
        c.spec_tiles_before(l) == spec_vt_tiles_before(s, ts, l),
    decreases l,
{
    if l > 0 {
        lemma_vt_tiles_match(c, s, ts, l - 1);
    }
}

/// The built container mirrors the image's pyramid level for level.
pub open spec fn spec_mirrors(c: Container, s: SpecImage, ts: u32, tag: u8) -> bool {
    &&& 1 <= ts
    &&& c.tag == tag
    &&& c.tile_size == ts
    &&& c.levels@.len() == spec_max_mips(spec_longest_side(s))
    &&& forall|l: int|
        0 <= l < c.levels@.len() ==> spec_level_ok(#[trigger] c.levels@[l], spec_mip_image(s, l), ts)
}

/// A mirroring container announces the canonical blob offsets.
proof fn lemma_vt_offset_match(c: Container, s: SpecImage, ts: u32, tag: u8, l: int, k: int)
    requires
        spec_mirrors(c, s, ts, tag),
        0 <= l <= c.levels@.len(),
    ensures
        c.spec_tile_offset(l, k) == spec_vt_tile_offset(s, ts, l, k),
{
    let mips = c.levels@.len() as int;
    lemma_vt_tiles_match(c, s, ts, mips);
    lemma_vt_tiles_match(c, s, ts, l);
}

/// A mirroring container's map entries are the canonical ones.
proof fn lemma_vt_entries_match(c: Container, s: SpecImage, ts: u32, tag: u8, l: int, k: int)
    requires
        spec_mirrors(c, s, ts, tag),
        0 <= l < c.levels@.len(),
        k >= 0,
    ensures
        c.spec_entries_upto(l, k) == spec_vt_entries_upto(s, ts, tag, l, k),
    decreases k,
{
    if k > 0 {
        lemma_vt_entries_match(c, s, ts, tag, l, k - 1);
        lemma_vt_offset_match(c, s, ts, tag, l, k - 1);
    }
}

/// A mirroring container's map records are the canonical ones.
proof fn lemma_vt_records_match(c: Container, s: SpecImage, ts: u32, tag: u8, l: int)
    requires
        spec_mirrors(c, s, ts, tag),
        0 <= l <= c.levels@.len(),
    ensures
        c.spec_records_upto(l) == spec_vt_records_upto(s, ts, tag, l),
    decreases l,
{
    if l > 0 {
        lemma_vt_records_match(c, s, ts, tag, l - 1);
        let mi = spec_mip_image(s, l - 1);
        let g = spec_level_tile_grid(mi, ts);
        assert(spec_level_ok(c.levels@[l - 1], mi, ts));
        lemma_vt_entries_match(c, s, ts, tag, l - 1, g.0 * g.1);
        assert(c.spec_level_record(l - 1) == spec_vt_level_record(s, ts, tag, l - 1));
    }
}

/// A mirroring container's blobs of one level are the canonical ones.
proof fn lemma_vt_level_blobs_match(c: Container, s: SpecImage, ts: u32, tag: u8, l: int, k: int)
    requires
        spec_mirrors(c, s, ts, tag),
        0 <= l < c.levels@.len(),
        0 <= k <= c.levels@[l].tiles@.len(),
    ensures
        c.spec_level_blobs_upto(l, k) == spec_vt_level_blobs_upto(s, ts, l, k),
    decreases k,
{
    if k > 0 {
        lemma_vt_level_blobs_match(c, s, ts, tag, l, k - 1);
        assert(spec_level_ok(c.levels@[l], spec_mip_image(s, l), ts));
        assert(c.levels@[l].tiles@[k - 1]@ == spec_tile_blob(
            spec_mip_image(s, l),
            ts,
            (k - 1) % spec_level_tile_grid(spec_mip_image(s, l), ts).0,
            (k - 1) / spec_level_tile_grid(spec_mip_image(s, l), ts).0,
        ));
    }
}

/// A mirroring container's blob region is the canonical one.
proof fn lemma_vt_blobs_match(c: Container, s: SpecImage, ts: u32, tag: u8, l: int)
    requires
        spec_mirrors(c, s, ts, tag),
        0 <= l <= c.levels@.len(),
    ensures
        c.spec_blobs_upto(l) == spec_vt_blobs_upto(s, ts, l),
    decreases l,
{
    if l > 0 {
        lemma_vt_blobs_match(c, s, ts, tag, l - 1);
        let mi = spec_mip_image(s, l - 1);
        let g = spec_level_tile_grid(mi, ts);
        assert(spec_level_ok(c.levels@[l - 1], mi, ts));
        lemma_vt_level_blobs_match(c, s, ts, tag, l - 1, c.levels@[l - 1].tiles@.len() as int);
    }
}

/// A mirroring container encodes to exactly the canonical bytes: the
/// encoder's output is a pure function of the image, the tile size and
/// the byte order.
proof fn lemma_vt_encoding_match(c: Container, s: SpecImage, ts: u32, tag: u8)
    requires
        spec_mirrors(c, s, ts, tag),
    ensures
        c.spec_encode() == spec_vt_encoding(s, ts, tag),
{
    let mips = c.levels@.len() as int;
    lemma_vt_records_match(c, s, ts, tag, mips);
    lemma_vt_blobs_match(c, s, ts, tag, mips);
    assert(c.spec_header() == (seq![tag] + crate::endian::spec_u32_to_bytes(tag, ts)
        + crate::endian::spec_u32_to_bytes(tag, mips as u32)));
}

/// The parsed model of the built container satisfies the image-level
/// encoding predicate.
#[verifier::rlimit(100)]
proof fn lemma_model_matches(c: Container, s: SpecImage, ts: u32)
    requires
        c.wf(),
        ts == c.tile_size,
        ts >= 1,
        c.levels@.len() == spec_max_mips(spec_longest_side(s)),
        spec_parse_container(c.spec_encode()) == Some(c.spec_model()),
        crate::codec::spec_entries_point_at_blobs(c),
        forall|i: int|
            0 <= i < c.levels@.len() ==> spec_level_ok(
                #[trigger] c.levels@[i],
                spec_mip_image(s, i),
                ts,
            ),
    ensures
        spec_encodes_virtual_texture(c.spec_encode(), s, ts, c.tag),
{
    let bytes = c.spec_encode();
    let m = c.spec_model();
    assert forall|l: int| 0 <= l < m.levels.len() implies {
        let mi = spec_mip_image(s, l);
        let g = spec_level_tile_grid(mi, ts);
        &&& (#[trigger] m.levels[l]).width == mi.width
        &&& m.levels[l].height == mi.height
        &&& m.levels[l].tiles_x == g.0
        &&& m.levels[l].tiles_y == g.1
        &&& m.levels[l].entries.len() == g.0 * g.1
    } by {
        let mi = spec_mip_image(s, l);
        let g = spec_level_tile_grid(mi, ts);
        assert(m.levels[l] == c.spec_level_model(l));
        assert(c.levels@[l].width == mi.width && c.levels@[l].height == mi.height);
        assert(crate::codec::spec_tiles_x(c.levels@[l].width, c.levels@[l].height, ts) == g.0);
        assert(crate::codec::spec_tiles_y(c.levels@[l].width, c.levels@[l].height, ts) == g.1);
    }
    assert forall|l: int, k: int|
        0 <= l < m.levels.len() && 0 <= k < m.levels[l].entries.len() implies {
        let mi = spec_mip_image(s, l);
        let e = #[trigger] m.levels[l].entries[k];
        &&& e.0 + e.1 <= bytes.len()
        &&& e.1 == spec_tile_len(ts)
        &&& bytes.subrange(e.0 as int, e.0 + e.1) == spec_tile_blob(
            mi,
            ts,
            k % (m.levels[l].tiles_x as int),
            k / (m.levels[l].tiles_x as int),
        )
    } by {
        let mi = spec_mip_image(s, l);
        assert(m.levels[l] == c.spec_level_model(l));
        assert(crate::codec::spec_entry_is_blob(c, l, k));
        let g = spec_level_tile_grid(mi, ts);
        assert(m.levels[l].tiles_x == g.0);
        assert(c.levels@[l].tiles@[k]@ == spec_tile_blob(mi, ts, k % g.0, k / g.0));
    }
}

/// Round trip: every pixel of an encodable image is recovered from the
/// decoded container, by reading the byte of the level-zero tile that
/// covers it. Decoding what was encoded gives back the image.
pub proof fn lemma_virtual_texture_round_trip(
    bytes: Seq<u8>,
    s: SpecImage,
    ts: u32,
    tag: u8,
    x: int,
    y: int,
    c: int,
)
    requires
        s.wf(),
        s.width < 0x1_0000_0000,
        s.height < 0x1_0000_0000,
        ts >= 1,
        spec_encodable(s, ts),
        spec_encodes_virtual_texture(bytes, s, ts, tag),
        0 <= x < s.width,
        0 <= y < s.height,
        0 <= c < 4,
    ensures
        ({
            let m = spec_parse_container(bytes).unwrap();
            let tx = m.levels[0].tiles_x as int;
            let e = m.levels[0].entries[(y / (ts as int)) * tx + (x / (ts as int))];
            bytes.subrange(e.0 as int, e.0 + e.1)[((y % (ts as int)) * ts + (x % (ts as int))) * 4
                + c] == s.byte_at(x, y, c)
        }),
{
    let t = ts as int;
    let m = spec_parse_container(bytes).unwrap();
    assert(spec_mip_image(s, 0) == s);
    crate::misc::lemma_max_mips_bound(spec_longest_side(s));
    assert(m.levels.len() >= 1) by {
        assert(spec_max_mips(spec_longest_side(s)) >= 1);
    }
    let tx = m.levels[0].tiles_x as int;
    let g = spec_level_tile_grid(s, ts);
    assert(tx == g.0);
    assert(s.width % t == 0 && s.height % t == 0);
    let kx = x / t;
    let ky = y / t;
    vstd::arithmetic::div_mod::lemma_div_pos_is_pos(x, t);
    vstd::arithmetic::div_mod::lemma_div_pos_is_pos(y, t);
    assert(kx < g.0 && ky < g.1) by (nonlinear_arith)
        requires
            t >= 1,
            0 <= x < s.width,
            0 <= y < s.height,
            s.width % t == 0,
            s.height % t == 0,
            g.0 == s.width / t,
            g.1 == s.height / t,
            kx == x / t,
            ky == y / t,
    ;
    let k = ky * tx + kx;
    assert(0 <= k < g.0 * g.1 && k % tx == kx && k / tx == ky) by (nonlinear_arith)
        requires
            1 <= tx,
            tx == g.0,
            0 <= kx < g.0,
            0 <= ky < g.1,
            k == ky * tx + kx,
    ;
    assert(bytes.subrange(
        m.levels[0].entries[k].0 as int,
        m.levels[0].entries[k].0 + m.levels[0].entries[k].1,
    ) == spec_tile_blob(s, ts, kx, ky));
    lemma_tile_blob_pixel(s, ts, x, y, c);
}

} // verus!
