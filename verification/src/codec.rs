//! The virtual texture container codec: a binary format that stores a mip
//! pyramid as independently addressable tiles.
//!
//! Layout of an encoded container, in order:
//! - one endianness tag byte;
//! - `tile_size` and the mip record count, as `u32`;
//! - per mip record: width, height, tile columns, tile rows as `u32`,
//!   then one `(offset, length)` pair of `u64` per tile, row-major;
//! - the tile blobs, in the same order as their map entries.
//!
//! All offsets are absolute within the encoded bytes, so per-tile data can
//! be read on demand without holding a decoded copy of every tile.

use vstd::prelude::*;

use crate::error::{CodecError, FetchError};
use crate::endian::{
    lemma_u32_bytes_round_trip, lemma_u64_bytes_round_trip, spec_u32_to_bytes, spec_u64_to_bytes,
    write_u32, write_u64, ENDIAN_TAG_BIG, ENDIAN_TAG_LITTLE,
};

verus! {

/// One mip level of a container: the level's pixel dimensions and its
/// tile blobs, row-major (`k = y * tiles_x + x`). Levels smaller than the
/// tile size hold no tiles.
pub struct MipLevelTiles {
    pub width: u32,
    pub height: u32,
    pub tiles: Vec<Vec<u8>>,
}

/// A decoded-side and encode-side container value: endianness tag, tile
/// edge length, and one record per mip level.
pub struct Container {
    pub tag: u8,
    pub tile_size: u32,
    pub levels: Vec<MipLevelTiles>,
}

/// Byte length of one tile blob: four bytes per pixel.
pub open spec fn spec_tile_len(tile_size: u32) -> nat {
    (tile_size * tile_size * 4) as nat
}

/// Tile columns of a level: zero when the level is smaller than one tile.
pub open spec fn spec_tiles_x(width: u32, height: u32, tile_size: u32) -> nat {
    if width >= tile_size && height >= tile_size {
        (width / tile_size) as nat
    } else {
        0
    }
}

/// Tile rows of a level: zero when the level is smaller than one tile.
pub open spec fn spec_tiles_y(width: u32, height: u32, tile_size: u32) -> nat {
    if width >= tile_size && height >= tile_size {
        (height / tile_size) as nat
    } else {
        0
    }
}

impl Container {
    /// Number of tiles in all levels before `l`.
    pub open spec fn spec_tiles_before(self, l: int) -> nat
        decreases l,
    {
        if l <= 0 {
            0
        } else {
            self.spec_tiles_before(l - 1) + self.levels@[l - 1].tiles@.len()
        }
    }

    /// Number of tiles in the whole container.
    pub open spec fn spec_total_tiles(self) -> nat {
        self.spec_tiles_before(self.levels@.len() as int)
    }

    /// Byte position where the blob region starts: tag, two `u32`, then
    /// 16 bytes per level record and 16 per map entry.
    pub open spec fn spec_blob_base(self) -> nat {
        9 + 16 * self.levels@.len() + 16 * self.spec_total_tiles()
    }

    /// Byte length of the whole encoding.
    pub open spec fn spec_encoded_len(self) -> nat {
        self.spec_blob_base() + self.spec_total_tiles() * spec_tile_len(self.tile_size)
    }

    /// Absolute byte offset of the blob of tile `k` of level `l`.
    pub open spec fn spec_tile_offset(self, l: int, k: int) -> int {
        self.spec_blob_base() + (self.spec_tiles_before(l) + k) * spec_tile_len(self.tile_size)
    }

    /// A container is well formed when its tag is one of the two defined
    /// tag bytes, its tile size is positive and small enough for a blob
    /// length to fit comfortably, every level holds exactly its grid's
    /// tiles, every blob has the exact tile byte length, and the whole
    /// encoding is addressable by `u64` offsets.
    pub open spec fn wf(self) -> bool {
        &&& (self.tag == ENDIAN_TAG_BIG || self.tag == ENDIAN_TAG_LITTLE)
        &&& 1 <= self.tile_size <= 0x4000
        &&& self.levels@.len() <= u32::MAX
        &&& forall|l: int|
            0 <= l < self.levels@.len() ==> (#[trigger] self.levels@[l]).tiles@.len()
                == spec_tiles_x(self.levels@[l].width, self.levels@[l].height, self.tile_size)
                * spec_tiles_y(self.levels@[l].width, self.levels@[l].height, self.tile_size)
        &&& forall|l: int, k: int|
            0 <= l < self.levels@.len() && 0 <= k < self.levels@[l].tiles@.len() ==> (
            #[trigger] self.levels@[l].tiles@[k])@.len() == spec_tile_len(self.tile_size)
        &&& self.spec_encoded_len() <= u64::MAX
    }

    /// The bytes of the map entries of the first `k` tiles of level `l`.
    pub open spec fn spec_entries_upto(self, l: int, k: int) -> Seq<u8>
        decreases k,
    {
        if k <= 0 {
            Seq::empty()
        } else {
            self.spec_entries_upto(l, k - 1) + spec_u64_to_bytes(
                self.tag,
                self.spec_tile_offset(l, k - 1) as u64,
            ) + spec_u64_to_bytes(self.tag, spec_tile_len(self.tile_size) as u64)
        }
    }

    /// The bytes of the map record of level `l`: dimensions, grid shape,
    /// and all of its entries.
    pub open spec fn spec_level_record(self, l: int) -> Seq<u8> {
        let lvl = self.levels@[l];
        spec_u32_to_bytes(self.tag, lvl.width) + spec_u32_to_bytes(self.tag, lvl.height)
            + spec_u32_to_bytes(
            self.tag,
            spec_tiles_x(lvl.width, lvl.height, self.tile_size) as u32,
        ) + spec_u32_to_bytes(self.tag, spec_tiles_y(lvl.width, lvl.height, self.tile_size) as u32)
            + self.spec_entries_upto(l, lvl.tiles@.len() as int)
    }

    /// The bytes of the map records of the first `l` levels.
    pub open spec fn spec_records_upto(self, l: int) -> Seq<u8>
        decreases l,
    {
        if l <= 0 {
            Seq::empty()
        } else {
            self.spec_records_upto(l - 1) + self.spec_level_record(l - 1)
        }
    }

    /// The blob bytes of the first `k` tiles of level `l`.
    pub open spec fn spec_level_blobs_upto(self, l: int, k: int) -> Seq<u8>
        decreases k,
    {
        if k <= 0 {
            Seq::empty()
        } else {
            self.spec_level_blobs_upto(l, k - 1) + self.levels@[l].tiles@[k - 1]@
        }
    }

    /// The blob bytes of all tiles of the first `l` levels.
    pub open spec fn spec_blobs_upto(self, l: int) -> Seq<u8>
        decreases l,
    {
        if l <= 0 {
            Seq::empty()
        } else {
            self.spec_blobs_upto(l - 1) + self.spec_level_blobs_upto(
                l - 1,
                self.levels@[l - 1].tiles@.len() as int,
            )
        }
    }

    /// The header bytes: tag, tile size, and mip record count.
    pub open spec fn spec_header(self) -> Seq<u8> {
        seq![self.tag] + spec_u32_to_bytes(self.tag, self.tile_size) + spec_u32_to_bytes(
            self.tag,
            self.levels@.len() as u32,
        )
    }

    /// The full encoding of this container.
    pub open spec fn spec_encode(self) -> Seq<u8> {
        self.spec_header() + self.spec_records_upto(self.levels@.len() as int) + self.spec_blobs_upto(
            self.levels@.len() as int,
        )
    }
}

/// Tile counts never decrease as more levels are counted.
pub proof fn lemma_tiles_before_monotonic(c: Container, a: int, b: int)
    requires
        0 <= a <= b,
    ensures
        c.spec_tiles_before(a) <= c.spec_tiles_before(b),
    decreases b,
{
    if a < b {
        lemma_tiles_before_monotonic(c, a, b - 1);
    }
}

/// Length of the map entries of the first `k` tiles of a level.
pub proof fn lemma_entries_upto_len(c: Container, l: int, k: int)
    requires
        k >= 0,
    ensures
        c.spec_entries_upto(l, k).len() == 16 * k,
    decreases k,
{
    if k > 0 {
        lemma_entries_upto_len(c, l, k - 1);
    }
}

/// Length of the map records of the first `l` levels.
pub proof fn lemma_records_upto_len(c: Container, l: int)
    requires
        0 <= l <= c.levels@.len(),
    ensures
        c.spec_records_upto(l).len() == 16 * l + 16 * c.spec_tiles_before(l),
    decreases l,
{
    if l > 0 {
        lemma_records_upto_len(c, l - 1);
        lemma_entries_upto_len(c, l - 1, c.levels@[l - 1].tiles@.len() as int);
    }
}

/// Length of the blobs of the first `k` tiles of level `l`, when every
/// blob has the exact tile byte length.
pub proof fn lemma_level_blobs_upto_len(c: Container, l: int, k: int)
    requires
        c.wf(),
        0 <= l < c.levels@.len(),
        0 <= k <= c.levels@[l].tiles@.len(),
    ensures
        c.spec_level_blobs_upto(l, k).len() == k * spec_tile_len(c.tile_size),
    decreases k,
{
    if k > 0 {
        lemma_level_blobs_upto_len(c, l, k - 1);
        assert(c.spec_level_blobs_upto(l, k) == c.spec_level_blobs_upto(l, k - 1)
            + c.levels@[l].tiles@[k - 1]@);
        assert(c.levels@[l].tiles@[k - 1]@.len() == spec_tile_len(c.tile_size));
        assert((k - 1) * spec_tile_len(c.tile_size) + spec_tile_len(c.tile_size) == k
            * spec_tile_len(c.tile_size)) by (nonlinear_arith);
    } else {
        assert(k * spec_tile_len(c.tile_size) == 0) by (nonlinear_arith)
            requires
                k == 0,
        ;
    }
}

/// Length of the blobs of all tiles of the first `l` levels.
pub proof fn lemma_blobs_upto_len(c: Container, l: int)
    requires
        c.wf(),
        0 <= l <= c.levels@.len(),
    ensures
        c.spec_blobs_upto(l).len() == c.spec_tiles_before(l) * spec_tile_len(c.tile_size),
    decreases l,
{
    if l > 0 {
        lemma_blobs_upto_len(c, l - 1);
        lemma_level_blobs_upto_len(c, l - 1, c.levels@[l - 1].tiles@.len() as int);
        assert((c.spec_tiles_before(l - 1) + c.levels@[l - 1].tiles@.len()) * spec_tile_len(
            c.tile_size,
        ) == c.spec_tiles_before(l - 1) * spec_tile_len(c.tile_size) + c.levels@[l
            - 1].tiles@.len() * spec_tile_len(c.tile_size)) by (nonlinear_arith);
    } else {
        assert(c.spec_tiles_before(0) * spec_tile_len(c.tile_size) == 0) by (nonlinear_arith)
            requires
                c.spec_tiles_before(0) == 0,
        ;
    }
}

/// Appends all bytes of `bytes` to `buf`.
pub fn push_bytes(buf: &mut Vec<u8>, bytes: &Vec<u8>)
    ensures
        final(buf)@ == old(buf)@ + bytes@,
{
    buf.extend_from_slice(bytes.as_slice());
    proof {
        assert forall|i: int| 0 <= i < buf@.len() implies buf@[i] == (old(buf)@ + bytes@)[i] by {
            if i >= old(buf)@.len() {
                assert(cloned::<u8>(bytes@[i - old(buf)@.len()], buf@[i]));
            }
        }
        assert(buf@ =~= old(buf)@ + bytes@);
    }
}

/// Encodes a container into one byte vector, per the layout above.
pub fn encode_container(c: &Container) -> (r: Vec<u8>)
    requires
        c.wf(),
    ensures
        r@ == c.spec_encode(),
{
    let tag = c.tag;
    let ts = c.tile_size;
    let levels_len: usize = c.levels.len();
    proof {
        assert((ts as int) * (ts as int) * 4 <= 0x4000 * 0x4000 * 4) by (nonlinear_arith)
            requires
                0 <= ts <= 0x4000,
        ;
    }
    let b_len: u64 = (ts as u64) * (ts as u64) * 4;
    assert(b_len == spec_tile_len(ts));

    // Count the tiles, so that absolute blob offsets can be written.
    let mut total: u64 = 0;
    let mut i: usize = 0;
    while i < levels_len
        invariant
            c.wf(),
            levels_len == c.levels@.len(),
            0 <= i <= levels_len,
            total == c.spec_tiles_before(i as int),
        decreases levels_len - i,
    {
        proof {
            lemma_tiles_before_monotonic(*c, i + 1, levels_len as int);
        }
        total = total + (c.levels[i].tiles.len() as u64);
        i = i + 1;
    }
    assert(total == c.spec_total_tiles());
    let blob_base: u64 = 9 + 16 * (levels_len as u64) + 16 * total;
    assert(blob_base == c.spec_blob_base());

    let mut buf: Vec<u8> = Vec::new();
    buf.push(tag);
    write_u32(&mut buf, tag, ts);
    write_u32(&mut buf, tag, levels_len as u32);
    proof {
        assert(buf@ =~= c.spec_header());
    }

    // The tile map: one record per level, one entry per tile.
    let mut g: u64 = 0;
    let mut l: usize = 0;
    while l < levels_len
        invariant
            c.wf(),
            levels_len == c.levels@.len(),
            0 <= l <= levels_len,
            tag == c.tag,
            ts == c.tile_size,
            b_len == spec_tile_len(ts),
            blob_base == c.spec_blob_base(),
            g == c.spec_tiles_before(l as int),
            buf@ == c.spec_header() + c.spec_records_upto(l as int),
        decreases levels_len - l,
    {
        let lvl_width = c.levels[l].width;
        let lvl_height = c.levels[l].height;
        let tx: u32 = if lvl_width >= ts && lvl_height >= ts {
            lvl_width / ts
        } else {
            0
        };
        let ty: u32 = if lvl_width >= ts && lvl_height >= ts {
            lvl_height / ts
        } else {
            0
        };
        write_u32(&mut buf, tag, lvl_width);
        write_u32(&mut buf, tag, lvl_height);
        write_u32(&mut buf, tag, tx);
        write_u32(&mut buf, tag, ty);
        let ghost rec_head = c.spec_header() + c.spec_records_upto(l as int) + spec_u32_to_bytes(
            tag,
            lvl_width,
        ) + spec_u32_to_bytes(tag, lvl_height) + spec_u32_to_bytes(tag, tx) + spec_u32_to_bytes(
            tag,
            ty,
        );
        proof {
            assert(buf@ =~= rec_head + c.spec_entries_upto(l as int, 0));
        }
        let tile_count: usize = c.levels[l].tiles.len();
        let mut k: usize = 0;
        while k < tile_count
            invariant
                c.wf(),
                levels_len == c.levels@.len(),
                0 <= l < levels_len,
                tag == c.tag,
                ts == c.tile_size,
                b_len == spec_tile_len(ts),
                blob_base == c.spec_blob_base(),
                g == c.spec_tiles_before(l as int),
                tile_count == c.levels@[l as int].tiles@.len(),
                0 <= k <= tile_count,
                rec_head == c.spec_header() + c.spec_records_upto(l as int) + spec_u32_to_bytes(
                    tag,
                    c.levels@[l as int].width,
                ) + spec_u32_to_bytes(tag, c.levels@[l as int].height) + spec_u32_to_bytes(
                    tag,
                    spec_tiles_x(
                        c.levels@[l as int].width,
                        c.levels@[l as int].height,
                        ts,
                    ) as u32,
                ) + spec_u32_to_bytes(
                    tag,
                    spec_tiles_y(
                        c.levels@[l as int].width,
                        c.levels@[l as int].height,
                        ts,
                    ) as u32,
                ),
                buf@ == rec_head + c.spec_entries_upto(l as int, k as int),
            decreases tile_count - k,
        {
            proof {
                lemma_tiles_before_monotonic(*c, l as int + 1, levels_len as int);
                assert(g + k < c.spec_total_tiles());
                vstd::arithmetic::mul::lemma_mul_inequality(
                    g + k as int + 1,
                    c.spec_total_tiles() as int,
                    spec_tile_len(ts) as int,
                );
                vstd::arithmetic::mul::lemma_mul_inequality(
                    g + k as int,
                    g + k as int + 1,
                    spec_tile_len(ts) as int,
                );
            }
            let off: u64 = blob_base + (g + (k as u64)) * b_len;
            assert(off == c.spec_tile_offset(l as int, k as int));
            write_u64(&mut buf, tag, off);
            write_u64(&mut buf, tag, b_len);
            proof {
                assert(buf@ =~= rec_head + c.spec_entries_upto(l as int, k as int + 1));
            }
            k = k + 1;
        }
        proof {
            assert(buf@ =~= c.spec_header() + c.spec_records_upto(l as int + 1));
        }
        proof {
            lemma_tiles_before_monotonic(*c, l as int + 1, levels_len as int);
        }
        g = g + (tile_count as u64);
        l = l + 1;
    }
    let ghost map_done = c.spec_header() + c.spec_records_upto(levels_len as int);

    // The blob region, in map order.
    let mut l: usize = 0;
    while l < levels_len
        invariant
            c.wf(),
            levels_len == c.levels@.len(),
            0 <= l <= levels_len,
            map_done == c.spec_header() + c.spec_records_upto(levels_len as int),
            buf@ == map_done + c.spec_blobs_upto(l as int),
        decreases levels_len - l,
    {
        let tile_count: usize = c.levels[l].tiles.len();
        let mut k: usize = 0;
        while k < tile_count
            invariant
                c.wf(),
                levels_len == c.levels@.len(),
                0 <= l < levels_len,
                tile_count == c.levels@[l as int].tiles@.len(),
                0 <= k <= tile_count,
                map_done == c.spec_header() + c.spec_records_upto(levels_len as int),
                buf@ == map_done + c.spec_blobs_upto(l as int) + c.spec_level_blobs_upto(
                    l as int,
                    k as int,
                ),
            decreases tile_count - k,
        {
            push_bytes(&mut buf, &c.levels[l].tiles[k]);
            proof {
                assert(buf@ =~= map_done + c.spec_blobs_upto(l as int) + c.spec_level_blobs_upto(
                    l as int,
                    k as int + 1,
                ));
            }
            k = k + 1;
        }
        proof {
            assert(buf@ =~= map_done + c.spec_blobs_upto(l as int + 1));
        }
        l = l + 1;
    }
    proof {
        assert(buf@ =~= c.spec_encode());
    }
    buf
}

/// One parsed mip record: dimensions, grid shape, and the map entries,
/// each an absolute `(offset, length)` pair.
pub struct ParsedLevel {
    pub width: u32,
    pub height: u32,
    pub tiles_x: u32,
    pub tiles_y: u32,
    pub entries: Seq<(u64, u64)>,
}

/// The eagerly parsed part of a container: everything but the blobs.
pub struct ParsedMap {
    pub tag: u8,
    pub tile_size: u32,
    pub levels: Seq<ParsedLevel>,
}

/// The `u32` at `pos` of `bytes` under the byte order of `tag`.
pub open spec fn spec_parse_u32(bytes: Seq<u8>, pos: int, tag: u8) -> u32 {
    crate::endian::spec_u32_of4(tag, bytes[pos], bytes[pos + 1], bytes[pos + 2], bytes[pos + 3])
}

/// The `u64` at `pos` of `bytes` under the byte order of `tag`.
pub open spec fn spec_parse_u64(bytes: Seq<u8>, pos: int, tag: u8) -> u64 {
    crate::endian::spec_u64_of8(
        tag,
        bytes[pos],
        bytes[pos + 1],
        bytes[pos + 2],
        bytes[pos + 3],
        bytes[pos + 4],
        bytes[pos + 5],
        bytes[pos + 6],
        bytes[pos + 7],
    )
}

/// Parses `n` map entries at `pos`; `None` when the bytes run short.
pub open spec fn spec_parse_entries(bytes: Seq<u8>, pos: int, tag: u8, n: int) -> Option<
    (Seq<(u64, u64)>, int),
>
    decreases n,
{
    if n <= 0 {
        Some((Seq::empty(), pos))
    } else if pos + 16 <= bytes.len() {
        let off = spec_parse_u64(bytes, pos, tag);
        let ln = spec_parse_u64(bytes, pos + 8, tag);
        match spec_parse_entries(bytes, pos + 16, tag, n - 1) {
            Some((es, p)) => Some((seq![(off, ln)] + es, p)),
            None => None,
        }
    } else {
        None
    }
}

/// Parses `n` mip records at `pos`; `None` when the bytes run short.
pub open spec fn spec_parse_levels(bytes: Seq<u8>, pos: int, tag: u8, n: int) -> Option<
    (Seq<ParsedLevel>, int),
>
    decreases n,
{
    if n <= 0 {
        Some((Seq::empty(), pos))
    } else if pos + 16 <= bytes.len() {
        let width = spec_parse_u32(bytes, pos, tag);
        let height = spec_parse_u32(bytes, pos + 4, tag);
        let tiles_x = spec_parse_u32(bytes, pos + 8, tag);
        let tiles_y = spec_parse_u32(bytes, pos + 12, tag);
        match spec_parse_entries(bytes, pos + 16, tag, tiles_x * tiles_y) {
            Some((es, p2)) => match spec_parse_levels(bytes, p2, tag, n - 1) {
                Some((ls, p3)) => Some(
                    (seq![ParsedLevel { width, height, tiles_x, tiles_y, entries: es }] + ls, p3),
                ),
                None => None,
            },
            None => None,
        }
    } else {
        None
    }
}

/// Parses the header and the whole tile map of an encoded container.
pub open spec fn spec_parse_container(bytes: Seq<u8>) -> Option<ParsedMap> {
    if bytes.len() < 9 {
        None
    } else {
        let tag = bytes[0];
        if tag != ENDIAN_TAG_BIG && tag != ENDIAN_TAG_LITTLE {
            None
        } else {
            let tile_size = spec_parse_u32(bytes, 1, tag);
            let mip_count = spec_parse_u32(bytes, 5, tag);
            match spec_parse_levels(bytes, 9, tag, mip_count as int) {
                Some((levels, _)) => Some(ParsedMap { tag, tile_size, levels }),
                None => None,
            }
        }
    }
}

impl Container {
    /// The parsed form of the map entry of tile `k` of level `l`.
    pub open spec fn spec_entry_model(self, l: int, k: int) -> (u64, u64) {
        (self.spec_tile_offset(l, k) as u64, spec_tile_len(self.tile_size) as u64)
    }

    /// The parsed form of the map record of level `l`.
    pub open spec fn spec_level_model(self, l: int) -> ParsedLevel {
        let lvl = self.levels@[l];
        ParsedLevel {
            width: lvl.width,
            height: lvl.height,
            tiles_x: spec_tiles_x(lvl.width, lvl.height, self.tile_size) as u32,
            tiles_y: spec_tiles_y(lvl.width, lvl.height, self.tile_size) as u32,
            entries: Seq::new(lvl.tiles@.len(), |k: int| self.spec_entry_model(l, k)),
        }
    }

    /// The parsed form of this whole container's map.
    pub open spec fn spec_model(self) -> ParsedMap {
        ParsedMap {
            tag: self.tag,
            tile_size: self.tile_size,
            levels: Seq::new(self.levels@.len(), |l: int| self.spec_level_model(l)),
        }
    }

    /// The map records of levels `l` and later.
    pub open spec fn spec_records_from(self, l: int) -> Seq<u8>
        decreases self.levels@.len() - l,
    {
        if l < 0 || l >= self.levels@.len() {
            Seq::empty()
        } else {
            self.spec_level_record(l) + self.spec_records_from(l + 1)
        }
    }

    /// The blob bytes of tiles `k` and later of level `l`.
    pub open spec fn spec_level_blobs_from(self, l: int, k: int) -> Seq<u8>
        decreases self.levels@[l].tiles@.len() - k,
    {
        if k < 0 || k >= self.levels@[l].tiles@.len() {
            Seq::empty()
        } else {
            self.levels@[l].tiles@[k]@ + self.spec_level_blobs_from(l, k + 1)
        }
    }

    /// The blob bytes of all tiles of levels `l` and later.
    pub open spec fn spec_blobs_from(self, l: int) -> Seq<u8>
        decreases self.levels@.len() - l,
    {
        if l < 0 || l >= self.levels@.len() {
            Seq::empty()
        } else {
            self.spec_level_blobs_from(l, 0) + self.spec_blobs_from(l + 1)
        }
    }
}

/// The records split at any level into a prefix and a suffix.
pub proof fn lemma_records_split(c: Container, l: int)
    requires
        0 <= l <= c.levels@.len(),
    ensures
        c.spec_records_upto(c.levels@.len() as int) == c.spec_records_upto(l)
            + c.spec_records_from(l),
    decreases c.levels@.len() - l,
{
    let ll = c.levels@.len() as int;
    if l == ll {
        assert(c.spec_records_upto(ll) =~= c.spec_records_upto(l) + c.spec_records_from(l));
    } else {
        lemma_records_split(c, l + 1);
        assert(c.spec_records_upto(l + 1) == c.spec_records_upto(l) + c.spec_level_record(l));
        assert(c.spec_records_upto(ll) =~= c.spec_records_upto(l) + c.spec_records_from(l));
    }
}

/// A level's blobs split at any tile into a prefix and a suffix.
pub proof fn lemma_level_blobs_split(c: Container, l: int, k: int)
    requires
        0 <= l < c.levels@.len(),
        0 <= k <= c.levels@[l].tiles@.len(),
    ensures
        c.spec_level_blobs_upto(l, c.levels@[l].tiles@.len() as int) == c.spec_level_blobs_upto(
            l,
            k,
        ) + c.spec_level_blobs_from(l, k),
    decreases c.levels@[l].tiles@.len() - k,
{
    let n = c.levels@[l].tiles@.len() as int;
    if k == n {
        assert(c.spec_level_blobs_upto(l, n) =~= c.spec_level_blobs_upto(l, k)
            + c.spec_level_blobs_from(l, k));
    } else {
        lemma_level_blobs_split(c, l, k + 1);
        assert(c.spec_level_blobs_upto(l, n) =~= c.spec_level_blobs_upto(l, k)
            + c.spec_level_blobs_from(l, k));
    }
}

/// The blob region splits at any level into a prefix and a suffix.
pub proof fn lemma_blobs_split(c: Container, l: int)
    requires
        0 <= l <= c.levels@.len(),
    ensures
        c.spec_blobs_upto(c.levels@.len() as int) == c.spec_blobs_upto(l) + c.spec_blobs_from(l),
    decreases c.levels@.len() - l,
{
    let ll = c.levels@.len() as int;
    if l == ll {
        assert(c.spec_blobs_upto(ll) =~= c.spec_blobs_upto(l) + c.spec_blobs_from(l));
    } else {
        lemma_blobs_split(c, l + 1);
        lemma_level_blobs_split(c, l, 0);
        assert(c.spec_blobs_upto(ll) =~= c.spec_blobs_upto(l) + c.spec_blobs_from(l));
    }
}

impl Container {
    /// The map entry bytes of tiles `k` and later of level `l`.
    pub open spec fn spec_entries_from(self, l: int, k: int) -> Seq<u8>
        decreases self.levels@[l].tiles@.len() - k,
    {
        if k < 0 || k >= self.levels@[l].tiles@.len() {
            Seq::empty()
        } else {
            spec_u64_to_bytes(self.tag, self.spec_tile_offset(l, k) as u64) + spec_u64_to_bytes(
                self.tag,
                spec_tile_len(self.tile_size) as u64,
            ) + self.spec_entries_from(l, k + 1)
        }
    }

    /// Byte position of the map record of level `l`.
    pub open spec fn spec_record_pos(self, l: int) -> int {
        9 + 16 * l + 16 * self.spec_tiles_before(l)
    }
}

/// A level's map entries split at any tile into a prefix and a suffix.
pub proof fn lemma_entries_split(c: Container, l: int, k: int)
    requires
        0 <= l < c.levels@.len(),
        0 <= k <= c.levels@[l].tiles@.len(),
    ensures
        c.spec_entries_upto(l, c.levels@[l].tiles@.len() as int) == c.spec_entries_upto(l, k)
            + c.spec_entries_from(l, k),
    decreases c.levels@[l].tiles@.len() - k,
{
    let n = c.levels@[l].tiles@.len() as int;
    if k == n {
        assert(c.spec_entries_upto(l, n) =~= c.spec_entries_upto(l, k) + c.spec_entries_from(
            l,
            k,
        ));
    } else {
        lemma_entries_split(c, l, k + 1);
        assert(c.spec_entries_upto(l, n) =~= c.spec_entries_upto(l, k) + c.spec_entries_from(
            l,
            k,
        ));
    }
}

/// The whole encoding has the announced length.
pub proof fn lemma_encoded_len(c: Container)
    requires
        c.wf(),
    ensures
        c.spec_encode().len() == c.spec_encoded_len(),
{
    let ll = c.levels@.len() as int;
    lemma_records_upto_len(c, ll);
    lemma_blobs_upto_len(c, ll);
}

/// The bytes of the map record head of level `l`, read inside the whole
/// encoding at the record's position.
#[verifier::rlimit(100)]
pub proof fn lemma_level_head_bytes_at(c: Container, l: int)
    requires
        c.wf(),
        0 <= l < c.levels@.len(),
    ensures
        forall|i: int|
            0 <= i < 16 ==> #[trigger] c.spec_encode()[c.spec_record_pos(l) + i] == (spec_u32_to_bytes(
                c.tag,
                c.levels@[l].width,
            ) + spec_u32_to_bytes(c.tag, c.levels@[l].height) + spec_u32_to_bytes(
                c.tag,
                spec_tiles_x(c.levels@[l].width, c.levels@[l].height, c.tile_size) as u32,
            ) + spec_u32_to_bytes(
                c.tag,
                spec_tiles_y(c.levels@[l].width, c.levels@[l].height, c.tile_size) as u32,
            ))[i],
{
    let ll = c.levels@.len() as int;
    let bytes = c.spec_encode();
    let head = spec_u32_to_bytes(c.tag, c.levels@[l].width) + spec_u32_to_bytes(
        c.tag,
        c.levels@[l].height,
    ) + spec_u32_to_bytes(
        c.tag,
        spec_tiles_x(c.levels@[l].width, c.levels@[l].height, c.tile_size) as u32,
    ) + spec_u32_to_bytes(
        c.tag,
        spec_tiles_y(c.levels@[l].width, c.levels@[l].height, c.tile_size) as u32,
    );
    let count = c.levels@[l].tiles@.len() as int;
    lemma_records_split(c, l);
    lemma_records_upto_len(c, l);
    let a = c.spec_header() + c.spec_records_upto(l);
    let rest = c.spec_entries_upto(l, count) + c.spec_records_from(l + 1) + c.spec_blobs_upto(ll);
    assert(c.spec_records_from(l) == c.spec_level_record(l) + c.spec_records_from(l + 1));
    assert(bytes =~= a + head + rest);
    assert(a.len() == c.spec_record_pos(l));
    assert forall|i: int| 0 <= i < 16 implies bytes[c.spec_record_pos(l) + i] == head[i] by {
        assert(bytes[a.len() + i] == (a + head + rest)[a.len() + i]);
    }
}

/// Concatenation of sequences is associative.
proof fn lemma_seq_assoc<A>(a: Seq<A>, b: Seq<A>, c: Seq<A>)
    ensures
        (a + b) + c == a + (b + c),
{
    assert((a + b) + c =~= a + (b + c));
}

/// Indexing into the middle part of a three-way concatenation.
proof fn lemma_index_of_mid<A>(s: Seq<A>, a: Seq<A>, m: Seq<A>, r: Seq<A>)
    requires
        s == (a + m) + r,
    ensures
        forall|i: int| 0 <= i < m.len() ==> #[trigger] s[a.len() + i] == m[i],
{
}

/// The bytes of map entry `k` of level `l`, read inside the whole
/// encoding at the entry's position.
#[verifier::rlimit(100)]
pub proof fn lemma_entry_bytes_at(c: Container, l: int, k: int)
    requires
        c.wf(),
        0 <= l < c.levels@.len(),
        0 <= k < c.levels@[l].tiles@.len(),
    ensures
        forall|i: int|
            0 <= i < 16 ==> #[trigger] c.spec_encode()[c.spec_record_pos(l) + 16 + 16 * k + i] == (
            spec_u64_to_bytes(c.tag, c.spec_tile_offset(l, k) as u64) + spec_u64_to_bytes(
                c.tag,
                spec_tile_len(c.tile_size) as u64,
            ))[i],
{
    let ll = c.levels@.len() as int;
    let bytes = c.spec_encode();
    let eb = spec_u64_to_bytes(c.tag, c.spec_tile_offset(l, k) as u64) + spec_u64_to_bytes(
        c.tag,
        spec_tile_len(c.tile_size) as u64,
    );
    let count = c.levels@[l].tiles@.len() as int;
    lemma_records_split(c, l);
    lemma_records_upto_len(c, l);
    lemma_entries_split(c, l, k);
    lemma_entries_upto_len(c, l, k);
    let hd = c.spec_header();
    let u = c.spec_records_upto(l);
    let bl = c.spec_blobs_upto(ll);
    let head = spec_u32_to_bytes(c.tag, c.levels@[l].width) + spec_u32_to_bytes(
        c.tag,
        c.levels@[l].height,
    ) + spec_u32_to_bytes(
        c.tag,
        spec_tiles_x(c.levels@[l].width, c.levels@[l].height, c.tile_size) as u32,
    ) + spec_u32_to_bytes(
        c.tag,
        spec_tiles_y(c.levels@[l].width, c.levels@[l].height, c.tile_size) as u32,
    );
    let ek = c.spec_entries_upto(l, k);
    let fk1 = c.spec_entries_from(l, k + 1);
    let f1 = c.spec_records_from(l + 1);
    // The record of level `l` regrouped around entry `k`.
    assert(c.spec_entries_from(l, k) == eb + fk1);
    assert(c.spec_entries_upto(l, count) == ek + (eb + fk1));
    lemma_seq_assoc(ek, eb, fk1);
    assert(c.spec_level_record(l) == head + ((ek + eb) + fk1));
    lemma_seq_assoc(head, ek + eb, fk1);
    lemma_seq_assoc(head, ek, eb);
    assert(c.spec_level_record(l) == ((head + ek) + eb) + fk1);
    // The full record region regrouped the same way.
    assert(c.spec_records_from(l) == (((head + ek) + eb) + fk1) + f1);
    lemma_seq_assoc((head + ek) + eb, fk1, f1);
    assert(c.spec_records_from(l) == ((head + ek) + eb) + (fk1 + f1));
    assert(c.spec_records_upto(ll) == u + (((head + ek) + eb) + (fk1 + f1)));
    lemma_seq_assoc(u, (head + ek) + eb, fk1 + f1);
    lemma_seq_assoc(u, head + ek, eb);
    assert(c.spec_records_upto(ll) == ((u + (head + ek)) + eb) + (fk1 + f1));
    // The whole encoding around the entry bytes.
    assert(bytes == (hd + c.spec_records_upto(ll)) + bl);
    lemma_seq_assoc(hd, ((u + (head + ek)) + eb) + (fk1 + f1), bl);
    lemma_seq_assoc((u + (head + ek)) + eb, fk1 + f1, bl);
    assert(bytes == hd + (((u + (head + ek)) + eb) + ((fk1 + f1) + bl)));
    lemma_seq_assoc(hd, (u + (head + ek)) + eb, (fk1 + f1) + bl);
    lemma_seq_assoc(hd, u + (head + ek), eb);
    let a = hd + (u + (head + ek));
    assert(bytes == (a + eb) + ((fk1 + f1) + bl));
    lemma_index_of_mid(bytes, a, eb, (fk1 + f1) + bl);
    assert(a.len() == c.spec_record_pos(l) + 16 + 16 * k);
    assert forall|i: int|
        0 <= i < 16 implies bytes[c.spec_record_pos(l) + 16 + 16 * k + i] == eb[i] by {
        assert(bytes[a.len() + i] == eb[i]);
    }
}

/// Parsing the map entries of level `l` from tile `k` on, inside an
/// encoded container, yields exactly the entry models of those tiles.
#[verifier::rlimit(100)]
pub proof fn lemma_parse_entries_of_encode(c: Container, l: int, k: int)
    requires
        c.wf(),
        0 <= l < c.levels@.len(),
        0 <= k <= c.levels@[l].tiles@.len(),
    ensures
        spec_parse_entries(
            c.spec_encode(),
            c.spec_record_pos(l) + 16 + 16 * k,
            c.tag,
            c.levels@[l].tiles@.len() - k,
        ) == Some(
            (
                Seq::new(
                    (c.levels@[l].tiles@.len() - k) as nat,
                    |j: int| c.spec_entry_model(l, k + j),
                ),
                c.spec_record_pos(l) + 16 + 16 * c.levels@[l].tiles@.len(),
            ),
        ),
    decreases c.levels@[l].tiles@.len() - k,
{
    let bytes = c.spec_encode();
    let count = c.levels@[l].tiles@.len() as int;
    let pos = c.spec_record_pos(l) + 16 + 16 * k;
    let pos_end = c.spec_record_pos(l) + 16 + 16 * count;
    lemma_encoded_len(c);
    if k == count {
        assert(Seq::new(0nat, |j: int| c.spec_entry_model(l, k + j)) =~= Seq::<
            (u64, u64),
        >::empty());
    } else {
        lemma_tiles_before_monotonic(c, l + 1, c.levels@.len() as int);
        assert(pos + 16 <= bytes.len());
        lemma_entry_bytes_at(c, l, k);
        let eb = spec_u64_to_bytes(c.tag, c.spec_tile_offset(l, k) as u64) + spec_u64_to_bytes(
            c.tag,
            spec_tile_len(c.tile_size) as u64,
        );
        let ob = spec_u64_to_bytes(c.tag, c.spec_tile_offset(l, k) as u64);
        let lb = spec_u64_to_bytes(c.tag, spec_tile_len(c.tile_size) as u64);
        assert(bytes[pos + 0] == eb[0int]);
        assert(eb[0int] == ob[0int]);
        assert(bytes[pos + 1] == eb[1int]);
        assert(eb[1int] == ob[1int]);
        assert(bytes[pos + 2] == eb[2int]);
        assert(eb[2int] == ob[2int]);
        assert(bytes[pos + 3] == eb[3int]);
        assert(eb[3int] == ob[3int]);
        assert(bytes[pos + 4] == eb[4int]);
        assert(eb[4int] == ob[4int]);
        assert(bytes[pos + 5] == eb[5int]);
        assert(eb[5int] == ob[5int]);
        assert(bytes[pos + 6] == eb[6int]);
        assert(eb[6int] == ob[6int]);
        assert(bytes[pos + 7] == eb[7int]);
        assert(eb[7int] == ob[7int]);
        assert(bytes[pos + 8] == eb[8int]);
        assert(eb[8int] == lb[0int]);
        assert(bytes[pos + 9] == eb[9int]);
        assert(eb[9int] == lb[1int]);
        assert(bytes[pos + 10] == eb[10int]);
        assert(eb[10int] == lb[2int]);
        assert(bytes[pos + 11] == eb[11int]);
        assert(eb[11int] == lb[3int]);
        assert(bytes[pos + 12] == eb[12int]);
        assert(eb[12int] == lb[4int]);
        assert(bytes[pos + 13] == eb[13int]);
        assert(eb[13int] == lb[5int]);
        assert(bytes[pos + 14] == eb[14int]);
        assert(eb[14int] == lb[6int]);
        assert(bytes[pos + 15] == eb[15int]);
        assert(eb[15int] == lb[7int]);
        lemma_u64_bytes_round_trip(c.tag, c.spec_tile_offset(l, k) as u64);
        lemma_u64_bytes_round_trip(c.tag, spec_tile_len(c.tile_size) as u64);
        assert(spec_parse_u64(bytes, pos, c.tag) == c.spec_tile_offset(l, k) as u64);
        assert(spec_parse_u64(bytes, pos + 8, c.tag) == spec_tile_len(c.tile_size) as u64);
        lemma_parse_entries_of_encode(c, l, k + 1);
        assert(seq![c.spec_entry_model(l, k)] + Seq::new(
            (count - k - 1) as nat,
            |j: int| c.spec_entry_model(l, k + 1 + j),
        ) =~= Seq::new((count - k) as nat, |j: int| c.spec_entry_model(l, k + j)));
    }
}

/// Parsing the mip records from level `l` on, inside an encoded
/// container, yields exactly the level models of those levels, and ends
/// at the blob region.
#[verifier::rlimit(100)]
pub proof fn lemma_parse_levels_of_encode(c: Container, l: int)
    requires
        c.wf(),
        0 <= l <= c.levels@.len(),
    ensures
        spec_parse_levels(
            c.spec_encode(),
            c.spec_record_pos(l),
            c.tag,
            c.levels@.len() - l,
        ) == Some(
            (
                Seq::new((c.levels@.len() - l) as nat, |j: int| c.spec_level_model(l + j)),
                c.spec_blob_base() as int,
            ),
        ),
    decreases c.levels@.len() - l,
{
    let bytes = c.spec_encode();
    let ll = c.levels@.len() as int;
    let pos = c.spec_record_pos(l);
    lemma_encoded_len(c);
    if l == ll {
        assert(Seq::new(0nat, |j: int| c.spec_level_model(l + j)) =~= Seq::<ParsedLevel>::empty());
        assert(pos == c.spec_blob_base());
    } else {
        let lvl = c.levels@[l];
        let count = lvl.tiles@.len() as int;
        lemma_tiles_before_monotonic(c, l + 1, ll);
        assert(pos + 16 <= bytes.len());
        lemma_level_head_bytes_at(c, l);
        let w32 = spec_u32_to_bytes(c.tag, lvl.width);
        let h32 = spec_u32_to_bytes(c.tag, lvl.height);
        let tx32 = spec_u32_to_bytes(
            c.tag,
            spec_tiles_x(lvl.width, lvl.height, c.tile_size) as u32,
        );
        let ty32 = spec_u32_to_bytes(
            c.tag,
            spec_tiles_y(lvl.width, lvl.height, c.tile_size) as u32,
        );
        let head = w32 + h32 + tx32 + ty32;
        assert(bytes[pos + 0] == head[0int]);
        assert(bytes[pos + 1] == head[1int]);
        assert(bytes[pos + 2] == head[2int]);
        assert(bytes[pos + 3] == head[3int]);
        assert(bytes[pos + 4] == head[4int]);
        assert(bytes[pos + 5] == head[5int]);
        assert(bytes[pos + 6] == head[6int]);
        assert(bytes[pos + 7] == head[7int]);
        assert(bytes[pos + 8] == head[8int]);
        assert(bytes[pos + 9] == head[9int]);
        assert(bytes[pos + 10] == head[10int]);
        assert(bytes[pos + 11] == head[11int]);
        assert(bytes[pos + 12] == head[12int]);
        assert(bytes[pos + 13] == head[13int]);
        assert(bytes[pos + 14] == head[14int]);
        assert(bytes[pos + 15] == head[15int]);
        assert(head[0int] == w32[0int]);
        assert(head[1int] == w32[1int]);
        assert(head[2int] == w32[2int]);
        assert(head[3int] == w32[3int]);
        assert(head[4int] == h32[0int]);
        assert(head[5int] == h32[1int]);
        assert(head[6int] == h32[2int]);
        assert(head[7int] == h32[3int]);
        assert(head[8int] == tx32[0int]);
        assert(head[9int] == tx32[1int]);
        assert(head[10int] == tx32[2int]);
        assert(head[11int] == tx32[3int]);
        assert(head[12int] == ty32[0int]);
        assert(head[13int] == ty32[1int]);
        assert(head[14int] == ty32[2int]);
        assert(head[15int] == ty32[3int]);
        lemma_u32_bytes_round_trip(c.tag, lvl.width);
        lemma_u32_bytes_round_trip(c.tag, lvl.height);
        lemma_u32_bytes_round_trip(c.tag, spec_tiles_x(lvl.width, lvl.height, c.tile_size) as u32);
        lemma_u32_bytes_round_trip(c.tag, spec_tiles_y(lvl.width, lvl.height, c.tile_size) as u32);
        let tx = spec_parse_u32(bytes, pos + 8, c.tag);
        let ty = spec_parse_u32(bytes, pos + 12, c.tag);
        assert(tx == spec_tiles_x(lvl.width, lvl.height, c.tile_size));
        assert(ty == spec_tiles_y(lvl.width, lvl.height, c.tile_size));
        assert(tx * ty == count) by {
            assert(lvl.tiles@.len() == spec_tiles_x(lvl.width, lvl.height, c.tile_size)
                * spec_tiles_y(lvl.width, lvl.height, c.tile_size));
        }
        lemma_parse_entries_of_encode(c, l, 0);
        assert(Seq::new(count as nat, |j: int| c.spec_entry_model(l, 0 + j)) =~= Seq::new(
            lvl.tiles@.len(),
            |j: int| c.spec_entry_model(l, j),
        ));
        assert(c.spec_record_pos(l) + 16 + 16 * count == c.spec_record_pos(l + 1));
        lemma_parse_levels_of_encode(c, l + 1);
        assert(seq![c.spec_level_model(l)] + Seq::new(
            (ll - l - 1) as nat,
            |j: int| c.spec_level_model(l + 1 + j),
        ) =~= Seq::new((ll - l) as nat, |j: int| c.spec_level_model(l + j)));
    }
}

/// Parsing an encoded container's header and tile map gives back exactly
/// the container's parsed model: the codec's map-level round trip.
#[verifier::rlimit(100)]
pub proof fn lemma_parse_of_encode(c: Container)
    requires
        c.wf(),
    ensures
        spec_parse_container(c.spec_encode()) == Some(c.spec_model()),
{
    let bytes = c.spec_encode();
    let ll = c.levels@.len() as int;
    lemma_encoded_len(c);
    let hd = c.spec_header();
    let t32 = spec_u32_to_bytes(c.tag, c.tile_size);
    let m32 = spec_u32_to_bytes(c.tag, c.levels@.len() as u32);
    assert(hd == (seq![c.tag] + t32) + m32);
    let rb = c.spec_records_upto(ll) + c.spec_blobs_upto(ll);
    lemma_seq_assoc(hd, c.spec_records_upto(ll), c.spec_blobs_upto(ll));
    assert(bytes == hd + rb);
    assert(bytes[0] == c.tag);
    assert forall|i: int| 0 <= i < 4 implies #[trigger] bytes[1 + i] == t32[i] by {
        assert(bytes[1 + i] == hd[1 + i]);
        assert(hd[1 + i] == (seq![c.tag] + t32)[1 + i]);
    }
    assert forall|i: int| 0 <= i < 4 implies #[trigger] bytes[5 + i] == m32[i] by {
        assert(bytes[5 + i] == hd[5 + i]);
    }
    lemma_u32_bytes_round_trip(c.tag, c.tile_size);
    lemma_u32_bytes_round_trip(c.tag, c.levels@.len() as u32);
    assert(spec_parse_u32(bytes, 1, c.tag) == c.tile_size);
    assert(spec_parse_u32(bytes, 5, c.tag) == c.levels@.len() as u32);
    assert(c.spec_record_pos(0) == 9);
    lemma_parse_levels_of_encode(c, 0);
    assert(Seq::new(ll as nat, |j: int| c.spec_level_model(0 + j)) =~= Seq::new(
        c.levels@.len(),
        |j: int| c.spec_level_model(j),
    ));
}

/// The blob bytes of tile `k` of level `l` stand in the whole encoding
/// exactly at the entry's announced offset, with the announced length.
#[verifier::rlimit(100)]
pub proof fn lemma_blob_bytes_at(c: Container, l: int, k: int)
    requires
        c.wf(),
        0 <= l < c.levels@.len(),
        0 <= k < c.levels@[l].tiles@.len(),
    ensures
        c.spec_tile_offset(l, k) + spec_tile_len(c.tile_size) <= c.spec_encode().len(),
        c.spec_encode().subrange(
            c.spec_tile_offset(l, k),
            c.spec_tile_offset(l, k) + spec_tile_len(c.tile_size),
        ) == c.levels@[l].tiles@[k]@,
{
    let bytes = c.spec_encode();
    let ll = c.levels@.len() as int;
    let count = c.levels@[l].tiles@.len() as int;
    let tile = c.levels@[l].tiles@[k]@;
    let bsz = spec_tile_len(c.tile_size) as int;
    let off = c.spec_tile_offset(l, k);
    lemma_encoded_len(c);
    lemma_records_upto_len(c, ll);
    lemma_blobs_split(c, l + 1);
    lemma_blobs_upto_len(c, l);
    lemma_level_blobs_split(c, l, k);
    lemma_level_blobs_upto_len(c, l, k);
    let hd = c.spec_header();
    let recs = c.spec_records_upto(ll);
    let bu = c.spec_blobs_upto(l);
    let lu = c.spec_level_blobs_upto(l, k);
    let lf1 = c.spec_level_blobs_from(l, k + 1);
    let bf1 = c.spec_blobs_from(l + 1);
    assert(c.spec_level_blobs_from(l, k) == tile + lf1);
    // Regroup the blob region around this tile's blob.
    assert(c.spec_blobs_upto(l + 1) == (bu + lu) + (tile + lf1)) by {
        assert(c.spec_level_blobs_upto(l, count) == lu + (tile + lf1));
        assert(c.spec_blobs_upto(l + 1) == bu + (lu + (tile + lf1)));
        lemma_seq_assoc(bu, lu, tile + lf1);
    }
    assert(c.spec_blobs_upto(ll) == (((bu + lu) + tile) + lf1) + bf1) by {
        lemma_seq_assoc(bu + lu, tile, lf1);
        lemma_seq_assoc(((bu + lu) + tile) + lf1, bf1, Seq::empty());
        assert((((bu + lu) + tile) + lf1) + bf1 + Seq::<u8>::empty() =~= (((bu + lu) + tile)
            + lf1) + bf1);
    }
    // Regroup the whole encoding the same way.
    let a = (hd + recs) + (bu + lu);
    assert(bytes == (a + tile) + (lf1 + bf1)) by {
        assert(bytes == (hd + recs) + ((((bu + lu) + tile) + lf1) + bf1));
        lemma_seq_assoc(((bu + lu) + tile) + lf1, bf1, Seq::empty());
        lemma_seq_assoc((bu + lu) + tile, lf1, bf1);
        assert(bytes == (hd + recs) + (((bu + lu) + tile) + (lf1 + bf1)));
        lemma_seq_assoc(hd + recs, ((bu + lu) + tile), lf1 + bf1);
        assert(bytes == ((hd + recs) + ((bu + lu) + tile)) + (lf1 + bf1));
        lemma_seq_assoc(hd + recs, bu + lu, tile);
    }
    // The prefix before this blob has exactly the offset's length.
    assert(a.len() == off) by {
        assert((c.spec_tiles_before(l) + k) * spec_tile_len(c.tile_size) == c.spec_tiles_before(l)
            * spec_tile_len(c.tile_size) + k * spec_tile_len(c.tile_size)) by (nonlinear_arith);
    }
    lemma_index_of_mid(bytes, a, tile, lf1 + bf1);
    assert(bytes.subrange(off, off + bsz) =~= tile);
}

/// One eagerly parsed mip record of a decoded container.
pub struct MipLevelMap {
    pub width: u32,
    pub height: u32,
    pub tiles_x: u32,
    pub tiles_y: u32,
    pub entries: Vec<(u64, u64)>,
}

/// A decoded container: the parsed header and tile map, plus the raw
/// bytes, from which tile blobs are read on demand.
pub struct ImageFile {
    pub tag: u8,
    pub tile_size: u32,
    pub levels: Vec<MipLevelMap>,
    pub data: Vec<u8>,
}

impl ImageFile {
    /// The parsed map this decoded container represents.
    pub open spec fn model(&self) -> ParsedMap {
        ParsedMap {
            tag: self.tag,
            tile_size: self.tile_size,
            levels: Seq::new(
                self.levels@.len(),
                |l: int|
                    ParsedLevel {
                        width: self.levels@[l].width,
                        height: self.levels@[l].height,
                        tiles_x: self.levels@[l].tiles_x,
                        tiles_y: self.levels@[l].tiles_y,
                        entries: self.levels@[l].entries@,
                    },
            ),
        }
    }
}

/// Parses the map entries of one level. On success the entries and the
/// position after them continue exactly the spec-level parse.
fn parse_entries(data: &Vec<u8>, pos0: usize, tag: u8, n: u64) -> (r: Result<
    (Vec<(u64, u64)>, usize),
    CodecError,
>)
    requires
        pos0 <= data@.len(),
    ensures
        match r {
            Ok((es, p)) => spec_parse_entries(data@, pos0 as int, tag, n as int) == Some(
                (es@, p as int),
            ) && pos0 <= p <= data@.len(),
            Err(e) => e is CorruptHeader && spec_parse_entries(data@, pos0 as int, tag, n as int)
                is None,
        },
{
    let mut acc: Vec<(u64, u64)> = Vec::new();
    let mut pos: usize = pos0;
    let mut k: u64 = 0;
    proof {
        if let Some((es, p)) = spec_parse_entries(data@, pos0 as int, tag, n as int) {
            assert(Seq::<(u64, u64)>::empty() + es =~= es);
        }
    }
    while k < n
        invariant
            0 <= k <= n,
            pos0 <= pos <= data@.len(),
            acc@.len() == k,
            ({
                let rest = spec_parse_entries(data@, pos as int, tag, n - k);
                let full = spec_parse_entries(data@, pos0 as int, tag, n as int);
                match rest {
                    Some((es, p)) => full == Some::<(Seq<(u64, u64)>, int)>((acc@ + es, p)),
                    None => full is None,
                }
            }),
        decreases n - k,
    {
        if pos >= data.len() || data.len() - pos < 16 {
            assert(spec_parse_entries(data@, pos as int, tag, n - k) is None);
            return Err(CodecError::CorruptHeader);
        }
        let off = crate::endian::read_u64(data, pos, tag);
        let ln = crate::endian::read_u64(data, pos + 8, tag);
        assert(off == spec_parse_u64(data@, pos as int, tag));
        assert(ln == spec_parse_u64(data@, pos as int + 8, tag));
        let ghost old_acc = acc@;
        let ghost old_pos = pos as int;
        acc.push((off, ln));
        pos = pos + 16;
        k = k + 1;
        proof {
            assert(old_acc.push((off, ln)) =~= old_acc + seq![(off, ln)]);
            let rest = spec_parse_entries(data@, pos as int, tag, n - k);
            match rest {
                Some((es, p)) => {
                    assert(spec_parse_entries(data@, old_pos, tag, n - (k - 1)) == Some::<
                        (Seq<(u64, u64)>, int),
                    >((seq![(off, ln)] + es, p)));
                    assert(old_acc + (seq![(off, ln)] + es) =~= acc@ + es);
                },
                None => {
                    assert(spec_parse_entries(data@, old_pos, tag, n - (k - 1)) is None);
                },
            }
        }
    }
    proof {
        assert(spec_parse_entries(data@, pos as int, tag, 0) == Some::<(Seq<(u64, u64)>, int)>(
            (Seq::empty(), pos as int),
        ));
        assert(acc@ + Seq::<(u64, u64)>::empty() =~= acc@);
    }
    Ok((acc, pos))
}

/// Decodes the header and tile map of an encoded container eagerly; the
/// tile blobs stay in `data` and are read on demand.
pub fn decode_container(data: Vec<u8>) -> (r: Result<ImageFile, CodecError>)
    ensures
        match r {
            Ok(f) => {
                &&& spec_parse_container(data@) == Some(f.model())
                &&& f.data@ == data@
            },
            Err(e) => {
                &&& e is CorruptHeader
                &&& spec_parse_container(data@) is None
            },
        },
{
    if data.len() < 9 {
        return Err(CodecError::CorruptHeader);
    }
    let tag = data[0];
    if tag != ENDIAN_TAG_BIG && tag != ENDIAN_TAG_LITTLE {
        return Err(CodecError::CorruptHeader);
    }
    let tile_size = crate::endian::read_u32(&data, 1, tag);
    let mip_count = crate::endian::read_u32(&data, 5, tag);
    assert(tile_size == spec_parse_u32(data@, 1, tag));
    assert(mip_count == spec_parse_u32(data@, 5, tag));

    let mut levels: Vec<MipLevelMap> = Vec::new();
    let mut pos: usize = 9;
    let mut l: u32 = 0;
    proof {
        if let Some((ls, p)) = spec_parse_levels(data@, 9, tag, mip_count as int) {
            assert(Seq::<ParsedLevel>::empty() + ls =~= ls);
            assert(Seq::new(0nat, |j: int| ParsedLevel {
                width: levels@[j].width,
                height: levels@[j].height,
                tiles_x: levels@[j].tiles_x,
                tiles_y: levels@[j].tiles_y,
                entries: levels@[j].entries@,
            }) =~= Seq::<ParsedLevel>::empty());
        }
    }
    while l < mip_count
        invariant
            0 <= l <= mip_count,
            9 <= pos <= data@.len(),
            data@.len() >= 9,
            tag == data@[0],
            tag == ENDIAN_TAG_BIG || tag == ENDIAN_TAG_LITTLE,
            tile_size == spec_parse_u32(data@, 1, tag),
            mip_count == spec_parse_u32(data@, 5, tag),
            levels@.len() == l,
            ({
                let rest = spec_parse_levels(data@, pos as int, tag, mip_count - l);
                let full = spec_parse_levels(data@, 9, tag, mip_count as int);
                let done = Seq::new(
                    levels@.len(),
                    |j: int|
                        ParsedLevel {
                            width: levels@[j].width,
                            height: levels@[j].height,
                            tiles_x: levels@[j].tiles_x,
                            tiles_y: levels@[j].tiles_y,
                            entries: levels@[j].entries@,
                        },
                );
                match rest {
                    Some((ls, p)) => full == Some::<(Seq<ParsedLevel>, int)>((done + ls, p)),
                    None => full is None,
                }
            }),
        decreases mip_count - l,
    {
        let ghost old_models = Seq::new(
            levels@.len(),
            |j: int|
                ParsedLevel {
                    width: levels@[j].width,
                    height: levels@[j].height,
                    tiles_x: levels@[j].tiles_x,
                    tiles_y: levels@[j].tiles_y,
                    entries: levels@[j].entries@,
                },
        );
        let ghost old_pos = pos as int;
        if pos >= data.len() || data.len() - pos < 16 {
            proof {
                assert(spec_parse_levels(data@, pos as int, tag, mip_count - l) is None);
                assert(data@[0] == tag);
                assert(spec_parse_u32(data@, 5, data@[0]) == mip_count);
                assert(spec_parse_levels(data@, 9, data@[0], mip_count as int) is None);
                assert(spec_parse_container(data@) is None);
            }
            return Err(CodecError::CorruptHeader);
        }
        let width = crate::endian::read_u32(&data, pos, tag);
        let height = crate::endian::read_u32(&data, pos + 4, tag);
        let tiles_x = crate::endian::read_u32(&data, pos + 8, tag);
        let tiles_y = crate::endian::read_u32(&data, pos + 12, tag);
        assert(width == spec_parse_u32(data@, pos as int, tag));
        assert(height == spec_parse_u32(data@, pos as int + 4, tag));
        assert(tiles_x == spec_parse_u32(data@, pos as int + 8, tag));
        assert(tiles_y == spec_parse_u32(data@, pos as int + 12, tag));
        proof {
            assert((tiles_x as int) * (tiles_y as int) < 0x1_0000_0000 * 0x1_0000_0000)
                by (nonlinear_arith)
                requires
                    0 <= tiles_x < 0x1_0000_0000,
                    0 <= tiles_y < 0x1_0000_0000,
            ;
        }
        let count: u64 = (tiles_x as u64) * (tiles_y as u64);
        assert(count == tiles_x * tiles_y);
        let parsed = parse_entries(&data, pos + 16, tag, count);
        match parsed {
            Err(e) => {
                proof {
                    assert(spec_parse_levels(data@, old_pos, tag, mip_count - l) is None);
                    assert(data@[0] == tag);
                    assert(spec_parse_u32(data@, 5, data@[0]) == mip_count);
                    assert(spec_parse_levels(data@, 9, data@[0], mip_count as int) is None);
                    assert(spec_parse_container(data@) is None);
                }
                return Err(CodecError::CorruptHeader);
            },
            Ok((entries, p2)) => {
                let lvl = MipLevelMap { width, height, tiles_x, tiles_y, entries };
                let ghost lvl_model = ParsedLevel {
                    width,
                    height,
                    tiles_x,
                    tiles_y,
                    entries: lvl.entries@,
                };
                levels.push(lvl);
                pos = p2;
                l = l + 1;
                proof {
                    let new_models = Seq::new(
                        levels@.len(),
                        |j: int|
                            ParsedLevel {
                                width: levels@[j].width,
                                height: levels@[j].height,
                                tiles_x: levels@[j].tiles_x,
                                tiles_y: levels@[j].tiles_y,
                                entries: levels@[j].entries@,
                            },
                    );
                    assert(new_models =~= old_models + seq![lvl_model]);
                    let rest = spec_parse_levels(data@, pos as int, tag, mip_count - l);
                    match rest {
                        Some((ls, p)) => {
                            assert(spec_parse_levels(data@, old_pos, tag, mip_count - (l - 1))
                                == Some::<(Seq<ParsedLevel>, int)>((seq![lvl_model] + ls, p)));
                            assert(old_models + (seq![lvl_model] + ls) =~= new_models + ls);
                        },
                        None => {
                            assert(spec_parse_levels(data@, old_pos, tag, mip_count - (l - 1))
                                is None);
                        },
                    }
                }
            },
        }
    }
    let ghost done = Seq::new(
        levels@.len(),
        |j: int|
            ParsedLevel {
                width: levels@[j].width,
                height: levels@[j].height,
                tiles_x: levels@[j].tiles_x,
                tiles_y: levels@[j].tiles_y,
                entries: levels@[j].entries@,
            },
    );
    let ghost m = ParsedMap { tag, tile_size, levels: done };
    proof {
        assert(spec_parse_levels(data@, pos as int, tag, 0) == Some::<(Seq<ParsedLevel>, int)>(
            (Seq::empty(), pos as int),
        ));
        assert(done + Seq::<ParsedLevel>::empty() =~= done);
        assert(spec_parse_container(data@) == Some(m));
    }
    let f = ImageFile { tag, tile_size, levels, data };
    proof {
        assert(f.model().levels =~= m.levels);
        assert(f.model() == m);
        assert(spec_parse_container(data@) == Some(f.model()));
    }
    Ok(f)
}

impl ImageFile {
    /// Whether a tile index addresses a cell of this decoded map's grid.
    pub open spec fn spec_in_grid(&self, idx: crate::tile::TileIndex) -> bool {
        &&& idx.mip_level < self.levels@.len()
        &&& idx.x < self.levels@[idx.mip_level as int].tiles_x
        &&& idx.y < self.levels@[idx.mip_level as int].tiles_y
    }

    /// The map entry a tile index addresses: row-major in its level.
    pub open spec fn spec_entry_index(&self, idx: crate::tile::TileIndex) -> int {
        idx.y * self.levels@[idx.mip_level as int].tiles_x + idx.x
    }

    /// Whether the entry for an in-grid index exists and addresses bytes
    /// that lie inside the container.
    pub open spec fn spec_entry_ok(&self, idx: crate::tile::TileIndex) -> bool {
        &&& self.spec_entry_index(idx) < self.levels@[idx.mip_level as int].entries@.len()
        &&& ({
            let e = self.levels@[idx.mip_level as int].entries@[self.spec_entry_index(idx)];
            e.0 + e.1 <= self.data@.len()
        })
    }

    /// The bytes of one tile, read on demand from the container at the
    /// offset its map entry announces. Fails with `OutOfRange` exactly on
    /// indexes outside the tile grid, and with `DecodeError` exactly when
    /// the map entry does not fit the container's bytes.
    pub fn get_tile_bytes(&self, idx: &crate::tile::TileIndex) -> (r: Result<Vec<u8>, FetchError>)
        ensures
            match r {
                Ok(b) => {
                    &&& self.spec_in_grid(*idx)
                    &&& self.spec_entry_ok(*idx)
                    &&& ({
                        let e =
                        self.levels@[idx.mip_level as int].entries@[self.spec_entry_index(*idx)];
                        b@ == self.data@.subrange(e.0 as int, e.0 + e.1)
                    })
                },
                Err(e) => {
                    &&& (e is OutOfRange <==> !self.spec_in_grid(*idx))
                    &&& (e is DecodeError <==> (self.spec_in_grid(*idx) && !self.spec_entry_ok(
                        *idx,
                    )))
                },
            },
            (r is Ok) == (self.spec_in_grid(*idx) && self.spec_entry_ok(*idx)),
    {
        if (idx.mip_level as usize) >= self.levels.len() {
            return Err(FetchError::OutOfRange);
        }
        let lvl = &self.levels[idx.mip_level as usize];
        if idx.x >= lvl.tiles_x || idx.y >= lvl.tiles_y {
            return Err(FetchError::OutOfRange);
        }
        proof {
            assert((idx.y as int) * (lvl.tiles_x as int) + (idx.x as int) < 0x1_0000_0000
                * 0x1_0000_0000) by (nonlinear_arith)
                requires
                    0 <= idx.y < 0x1_0000_0000,
                    0 <= idx.x < 0x1_0000_0000,
                    0 <= lvl.tiles_x < 0x1_0000_0000,
            ;
        }
        let k: u64 = (idx.y as u64) * (lvl.tiles_x as u64) + (idx.x as u64);
        if k >= (lvl.entries.len() as u64) {
            return Err(FetchError::DecodeError);
        }
        let entry = lvl.entries[k as usize];
        let off = entry.0;
        let ln = entry.1;
        let data_len: u64 = self.data.len() as u64;
        if off > data_len || ln > data_len - off {
            return Err(FetchError::DecodeError);
        }
        let mut out: Vec<u8> = Vec::new();
        let mut i: u64 = 0;
        while i < ln
            invariant
                0 <= i <= ln,
                off + ln <= self.data.len(),
                out@ == self.data@.subrange(off as int, off + i),
            decreases ln - i,
        {
            out.push(self.data[(off + i) as usize]);
            i = i + 1;
            proof {
                assert(out@ =~= self.data@.subrange(off as int, off + i));
            }
        }
        proof {
            assert(out@ == self.data@.subrange(off as int, off + ln));
        }
        Ok(out)
    }
}

/// One map entry of an encoded container points at exactly the tile
/// blob that was encoded for it.
#[verifier::rlimit(100)]
pub proof fn lemma_entry_points_at_blob(c: Container, l: int, k: int)
    requires
        c.wf(),
        0 <= l < c.levels@.len(),
        0 <= k < c.levels@[l].tiles@.len(),
    ensures
        ({
            let e = c.spec_model().levels[l].entries[k];
            &&& e.0 + e.1 <= c.spec_encode().len()
            &&& c.spec_encode().subrange(e.0 as int, e.0 + e.1) == c.levels@[l].tiles@[k]@
        }),
{
    lemma_blob_bytes_at(c, l, k);
    lemma_encoded_len(c);
    let e = c.spec_model().levels[l].entries[k];
    assert(e == c.spec_entry_model(l, k));
    assert(e.0 == c.spec_tile_offset(l, k));
    assert(e.1 == spec_tile_len(c.tile_size));
}

/// The map entry of tile `k` of level `l` points at exactly its blob.
pub open spec fn spec_entry_is_blob(c: Container, l: int, k: int) -> bool {
    let e = c.spec_model().levels[l].entries[k];
    &&& e.0 + e.1 <= c.spec_encode().len()
    &&& c.spec_encode().subrange(e.0 as int, e.0 + e.1) == c.levels@[l].tiles@[k]@
}

/// Every map entry of an encoded container points at exactly the tile
/// blob that was encoded for it.
pub open spec fn spec_entries_point_at_blobs(c: Container) -> bool {
    forall|l: int, k: int|
        0 <= l < c.levels@.len() && 0 <= k < c.levels@[l].tiles@.len()
            ==> #[trigger] spec_entry_is_blob(c, l, k)
}

/// Proof that every map entry of a well-formed encoded container points
/// at exactly its tile blob.
pub proof fn lemma_entries_point_at_blobs(c: Container)
    requires
        c.wf(),
    ensures
        spec_entries_point_at_blobs(c),
{
    assert forall|l: int, k: int|
        0 <= l < c.levels@.len() && 0 <= k < c.levels@[l].tiles@.len() implies #[trigger]
    spec_entry_is_blob(c, l, k) by {
        lemma_entry_points_at_blob(c, l, k);
    }
}

/// The codec's round trip: decoding an encoded container's map gives
/// back exactly the container's model, and the bytes each map entry
/// points at are exactly the tile blob that was encoded there.
pub proof fn lemma_codec_round_trip(c: Container)
    requires
        c.wf(),
    ensures
        spec_parse_container(c.spec_encode()) == Some(c.spec_model()),
        spec_entries_point_at_blobs(c),
{
    lemma_parse_of_encode(c);
    lemma_entries_point_at_blobs(c);
}

} // verus!
