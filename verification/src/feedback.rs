//! The feedback decoder: reduces one frame's feedback-target pixels to a
//! deduplicated set of tile requests, each completed with its mip chain
//! up to the coarsest paged level, so a fallback is always on its way.

use vstd::prelude::*;

use crate::tile::TileIndex;

verus! {

broadcast use vstd::seq_lib::group_seq_properties;


/// One decoded tile request of one frame.
#[derive(Clone, Copy, PartialEq, Eq, Structural, Hash, Debug)]
pub struct FeedbackRequest {
    pub virtual_tex_id: u64,
    pub tile: TileIndex,
}

/// The cleared value of a feedback pixel: no request at this pixel.
pub const FEEDBACK_SENTINEL: u64 = 0xffff_ffff_ffff_ffff;

/// One feedback pixel packs a request as
/// `[texture:16][x:16][y:16][level:8][zero:8]`; the all-ones value is
/// the sentinel.
pub open spec fn spec_pixel_of(tex: u16, x: u16, y: u16, level: u8) -> u64 {
    ((tex as u64) << 48) | ((x as u64) << 32) | ((y as u64) << 16) | ((level as u64) << 8)
}

/// The request one non-sentinel pixel decodes to.
pub open spec fn spec_decode_pixel(p: u64) -> FeedbackRequest {
    FeedbackRequest {
        virtual_tex_id: (p >> 48) & 0xffff,
        tile: TileIndex {
            x: (((p >> 32) & 0xffff) as u32),
            y: (((p >> 16) & 0xffff) as u32),
            mip_level: (((p >> 8) & 0xff) as u32),
        },
    }
}

/// Packing a request and decoding the pixel gives the request back, and
/// a packed pixel is never the sentinel.
pub proof fn lemma_pixel_round_trip(tex: u16, x: u16, y: u16, level: u8)
    ensures
        spec_pixel_of(tex, x, y, level) != FEEDBACK_SENTINEL,
        spec_decode_pixel(spec_pixel_of(tex, x, y, level)) == (FeedbackRequest {
            virtual_tex_id: tex as u64,
            tile: TileIndex { x: x as u32, y: y as u32, mip_level: level as u32 },
        }),
{
    let p = spec_pixel_of(tex, x, y, level);
    assert(((tex as u64) << 48) | ((x as u64) << 32) | ((y as u64) << 16) | ((level as u64) << 8)
        != 0xffff_ffff_ffff_ffffu64 && ((((tex as u64) << 48) | ((x as u64) << 32) | ((
    y as u64) << 16) | ((level as u64) << 8)) >> 48) & 0xffff == tex && ((((tex as u64) << 48) | ((
    x as u64) << 32) | ((y as u64) << 16) | ((level as u64) << 8)) >> 32) & 0xffff == x && ((((
    tex as u64) << 48) | ((x as u64) << 32) | ((y as u64) << 16) | ((level as u64) << 8)) >> 16)
        & 0xffff == y && ((((tex as u64) << 48) | ((x as u64) << 32) | ((y as u64) << 16) | ((
    level as u64) << 8)) >> 8) & 0xff == level) by (bit_vector);
}

/// Packs one feedback pixel, as the capture pass writes it.
pub fn encode_feedback_pixel(tex: u16, x: u16, y: u16, level: u8) -> (r: u64)
    ensures
        r == spec_pixel_of(tex, x, y, level),
        r != FEEDBACK_SENTINEL,
{
    proof {
        lemma_pixel_round_trip(tex, x, y, level);
    }
    ((tex as u64) << 48) | ((x as u64) << 32) | ((y as u64) << 16) | ((level as u64) << 8)
}

/// The ancestor of a request `d` levels coarser: tile coordinates halve
/// per level.
pub open spec fn spec_ancestor(r: FeedbackRequest, d: nat) -> FeedbackRequest
    decreases d,
{
    if d == 0 {
        r
    } else {
        spec_ancestor(
            FeedbackRequest {
                virtual_tex_id: r.virtual_tex_id,
                tile: TileIndex {
                    x: r.tile.x / 2,
                    y: r.tile.y / 2,
                    mip_level: ((r.tile.mip_level + 1) as u32),
                },
            },
            (d - 1) as nat,
        )
    }
}

/// Whether `a` is `b` or an ancestor of `b` in its mip chain.
pub open spec fn spec_is_ancestor_of(a: FeedbackRequest, b: FeedbackRequest) -> bool {
    exists|d: nat| a == spec_ancestor(b, d)
}

/// No request is listed twice.
pub open spec fn spec_no_duplicates(out: Seq<FeedbackRequest>) -> bool {
    forall|i: int, j: int| 0 <= i < j < out.len() ==> out[i] != out[j]
}

/// Every request in the set descends from some valid pixel.
pub open spec fn spec_requests_sound(
    out: Seq<FeedbackRequest>,
    pixels: Seq<u64>,
    max_lod: u32,
) -> bool {
    forall|i: int|
        0 <= i < out.len() ==> exists|q: int|
            0 <= q < pixels.len() && pixels[q] != FEEDBACK_SENTINEL && spec_decode_pixel(
                pixels[q],
            ).tile.mip_level <= max_lod && spec_is_ancestor_of(
                #[trigger] out[i],
                spec_decode_pixel(pixels[q]),
            )
}

/// The first `p` pixels' requests are all in the set, each with its
/// whole mip chain up to `max_lod`.
pub open spec fn spec_requests_complete(
    out: Seq<FeedbackRequest>,
    pixels: Seq<u64>,
    p: int,
    max_lod: u32,
) -> bool {
    forall|q: int|
        0 <= q < p && pixels[q] != FEEDBACK_SENTINEL && spec_decode_pixel(
            #[trigger] pixels[q],
        ).tile.mip_level <= max_lod ==> (forall|d: nat|
            spec_decode_pixel(pixels[q]).tile.mip_level + d <= max_lod ==> out.contains(
                spec_ancestor(spec_decode_pixel(pixels[q]), d),
            ))
}

/// Whether a request list already holds a request, by linear scan.
fn contains_request(out: &Vec<FeedbackRequest>, r: &FeedbackRequest) -> (found: bool)
    ensures
        found == out@.contains(*r),
{
    let m = out.len();
    let mut i: usize = 0;
    while i < m
        invariant
            m == out@.len(),
            0 <= i <= m,
            forall|j: int| 0 <= j < i ==> out@[j] != *r,
        decreases m - i,
    {
        if out[i].virtual_tex_id == r.virtual_tex_id && out[i].tile == r.tile {
            assert(out@[i as int] == *r);
            return true;
        }
        i = i + 1;
    }
    assert(!out@.contains(*r));
    false
}

/// Reduces one frame's feedback pixels to a deduplicated request set.
/// Every non-sentinel pixel whose level does not exceed `max_lod` is in
/// the set, together with its whole mip chain up to `max_lod`; nothing
/// else is, and nothing is listed twice.
pub fn decode_feedback(pixels: &Vec<u64>, max_lod: u32) -> (r: Vec<FeedbackRequest>)
    requires
        max_lod < u32::MAX,
    ensures
        spec_no_duplicates(r@),
        spec_requests_complete(r@, pixels@, pixels@.len() as int, max_lod),
        spec_requests_sound(r@, pixels@, max_lod),
{
    let mut out: Vec<FeedbackRequest> = Vec::new();
    let n = pixels.len();
    let mut p: usize = 0;
    while p < n
        invariant
            max_lod < u32::MAX,
            n == pixels@.len(),
            0 <= p <= n,
            spec_no_duplicates(out@),
            spec_requests_complete(out@, pixels@, p as int, max_lod),
            spec_requests_sound(out@, pixels@, max_lod),
        decreases n - p,
    {
        let px = pixels[p];
        if px != FEEDBACK_SENTINEL {
            let tex: u64 = (px >> 48) & 0xffff;
            let tx: u32 = ((px >> 32) & 0xffff) as u32;
            let ty: u32 = ((px >> 16) & 0xffff) as u32;
            let lvl: u32 = ((px >> 8) & 0xff) as u32;
            let base = FeedbackRequest {
                virtual_tex_id: tex,
                tile: TileIndex { x: tx, y: ty, mip_level: lvl },
            };
            assert(base == spec_decode_pixel(pixels@[p as int]));
            if lvl <= max_lod {
                let mut cur = base;
                let mut guard: u32 = lvl;
                while guard <= max_lod
                    invariant
                        max_lod < u32::MAX,
                        0 <= p < n,
                        n == pixels@.len(),
                        pixels@[p as int] != FEEDBACK_SENTINEL,
                        base == spec_decode_pixel(pixels@[p as int]),
                        base.tile.mip_level <= max_lod,
                        guard == cur.tile.mip_level,
                        base.tile.mip_level <= guard <= max_lod + 1,
                        cur == spec_ancestor(base, (guard - base.tile.mip_level) as nat),
                        spec_no_duplicates(out@),
                        forall|d: nat|
                            base.tile.mip_level + d < guard ==> out@.contains(
                                spec_ancestor(base, d),
                            ),
                        spec_requests_complete(out@, pixels@, p as int, max_lod),
                        spec_requests_sound(out@, pixels@, max_lod),
                    decreases max_lod + 1 - guard,
                {
                    let found = contains_request(&out, &cur);
                    if !found {
                        proof {
                            let d = (guard - base.tile.mip_level) as nat;
                            assert(spec_is_ancestor_of(cur, base)) by {
                                assert(cur == spec_ancestor(base, d));
                            }
                        }
                        out.push(cur);
                    }
                    proof {
                        assert(out@.contains(cur));
                        lemma_ancestor_step(base, (guard - base.tile.mip_level) as nat);
                    }
                    cur = FeedbackRequest {
                        virtual_tex_id: cur.virtual_tex_id,
                        tile: TileIndex {
                            x: cur.tile.x / 2,
                            y: cur.tile.y / 2,
                            mip_level: cur.tile.mip_level + 1,
                        },
                    };
                    guard = guard + 1;
                }
            }
        }
        p = p + 1;
    }
    out
}

/// The `d+1`-level ancestor is the one-step ancestor of the `d`-level
/// ancestor.
proof fn lemma_ancestor_step(r: FeedbackRequest, d: nat)
    requires
        r.tile.mip_level + d < u32::MAX,
    ensures
        spec_ancestor(r, d + 1) == (FeedbackRequest {
            virtual_tex_id: spec_ancestor(r, d).virtual_tex_id,
            tile: TileIndex {
                x: spec_ancestor(r, d).tile.x / 2,
                y: spec_ancestor(r, d).tile.y / 2,
                mip_level: (spec_ancestor(r, d).tile.mip_level + 1) as u32,
            },
        }),
        spec_ancestor(r, d).tile.mip_level == r.tile.mip_level + d,
    decreases d,
{
    let step = FeedbackRequest {
        virtual_tex_id: r.virtual_tex_id,
        tile: TileIndex {
            x: r.tile.x / 2,
            y: r.tile.y / 2,
            mip_level: (r.tile.mip_level + 1) as u32,
        },
    };
    if d == 0 {
        assert(spec_ancestor(r, 1) == spec_ancestor(step, 0));
        assert(spec_ancestor(step, 0) == step);
        assert(spec_ancestor(r, 0) == r);
    } else {
        lemma_ancestor_step(step, (d - 1) as nat);
        assert(spec_ancestor(r, d + 1) == spec_ancestor(step, d));
        assert(spec_ancestor(r, d) == spec_ancestor(step, (d - 1) as nat));
    }
}

} // verus!
