//! CPU-side mipmap generation: an iterative box-filter downsample that
//! halves an image until it reaches one pixel.

use vstd::prelude::*;

use crate::image::{Image, SpecImage};
use crate::misc::{spec_max_mips, spec_mip_level_size};

verus! {

/// The box-filtered average of four channel bytes.
pub open spec fn spec_avg4(a: u8, b: u8, c: u8, d: u8) -> u8 {
    ((a + b + c + d) / 4) as u8
}

/// One box-filter downsample step: each side halves (never below one),
/// and each pixel averages the up-to-four source pixels under it. A
/// clamped source edge repeats its last row or column.
pub open spec fn spec_downsample(s: SpecImage) -> SpecImage {
    let dw = if s.width / 2 >= 1 {
        s.width / 2
    } else {
        1
    };
    let dh = if s.height / 2 >= 1 {
        s.height / 2
    } else {
        1
    };
    SpecImage {
        width: dw,
        height: dh,
        data: Seq::new(
            (dw * dh * 4) as nat,
            |i: int|
                {
                    let c = i % 4;
                    let x = (i / 4) % dw;
                    let y = (i / 4) / dw;
                    let x0 = 2 * x;
                    let x1 = if 2 * x + 1 < s.width {
                        2 * x + 1
                    } else {
                        s.width - 1
                    };
                    let y0 = 2 * y;
                    let y1 = if 2 * y + 1 < s.height {
                        2 * y + 1
                    } else {
                        s.height - 1
                    };
                    spec_avg4(
                        s.byte_at(x0, y0, c),
                        s.byte_at(x1, y0, c),
                        s.byte_at(x0, y1, c),
                        s.byte_at(x1, y1, c),
                    )
                },
        ),
    }
}

/// The mip pyramid of an image model: level 0 is the image itself, and
/// each further level is the box-filtered half of its predecessor.
pub open spec fn spec_mip_image(s: SpecImage, level: int) -> SpecImage
    decreases level,
{
    if level <= 0 {
        s
    } else {
        spec_downsample(spec_mip_image(s, level - 1))
    }
}

/// A flat pixel index decomposes into its channel, column and row.
proof fn lemma_flat_index(dw: int, dh: int, x: int, y: int, c: int)
    requires
        1 <= dw,
        1 <= dh,
        0 <= x < dw,
        0 <= y < dh,
        0 <= c < 4,
    ensures
        ({
            let i = (y * dw + x) * 4 + c;
            &&& 0 <= i < dw * dh * 4
            &&& i % 4 == c
            &&& (i / 4) % dw == x
            &&& (i / 4) / dw == y
        }),
{
    let i = (y * dw + x) * 4 + c;
    assert(0 <= i < dw * dh * 4 && i % 4 == c && i / 4 == y * dw + x) by (nonlinear_arith)
        requires
            1 <= dw,
            1 <= dh,
            0 <= x < dw,
            0 <= y < dh,
            0 <= c < 4,
            i == (y * dw + x) * 4 + c,
    ;
    assert((y * dw + x) % dw == x && (y * dw + x) / dw == y) by (nonlinear_arith)
        requires
            1 <= dw,
            0 <= x < dw,
            0 <= y,
    ;
}

/// The box-filtered average of four channel bytes, computed exactly.
fn avg4(a: u8, b: u8, c: u8, d: u8) -> (r: u8)
    ensures
        r == spec_avg4(a, b, c, d),
{
    (((a as u32) + (b as u32) + (c as u32) + (d as u32)) / 4) as u8
}

/// One box-filter downsample step of an image.
pub fn downsample(src: &Image) -> (dst: Image)
    requires
        src.wf(),
    ensures
        dst@ == spec_downsample(src@),
        dst.wf(),
        dst.width == spec_mip_level_size(src.width, 1),
        dst.height == spec_mip_level_size(src.height, 1),
{
    let dw: u32 = if src.width / 2 >= 1 {
        src.width / 2
    } else {
        1
    };
    let dh: u32 = if src.height / 2 >= 1 {
        src.height / 2
    } else {
        1
    };
    let ghost target = spec_downsample(src@);
    assert(target.width == dw && target.height == dh);
    let mut data: Vec<u8> = Vec::new();
    let mut y: u32 = 0;
    while y < dh
        invariant
            src.wf(),
            1 <= dw,
            1 <= dh,
            target == spec_downsample(src@),
            target.width == dw && target.height == dh,
            dw == (if src.width / 2 >= 1 {
                src.width / 2
            } else {
                1u32
            }),
            dh == (if src.height / 2 >= 1 {
                src.height / 2
            } else {
                1u32
            }),
            0 <= y <= dh,
            data@.len() == y * dw * 4,
            forall|i: int| 0 <= i < data@.len() ==> data@[i] == target.data[i],
        decreases dh - y,
    {
        let mut x: u32 = 0;
        while x < dw
            invariant
                src.wf(),
                1 <= dw,
                1 <= dh,
                target == spec_downsample(src@),
                target.width == dw && target.height == dh,
                dw == (if src.width / 2 >= 1 {
                    src.width / 2
                } else {
                    1u32
                }),
                dh == (if src.height / 2 >= 1 {
                    src.height / 2
                } else {
                    1u32
                }),
                0 <= y < dh,
                0 <= x <= dw,
                data@.len() == (y * dw + x) * 4,
                forall|i: int| 0 <= i < data@.len() ==> data@[i] == target.data[i],
            decreases dw - x,
        {
            let x0: u32 = 2 * x;
            let x1: u32 = if 2 * x + 1 < src.width {
                2 * x + 1
            } else {
                src.width - 1
            };
            let y0: u32 = 2 * y;
            let y1: u32 = if 2 * y + 1 < src.height {
                2 * y + 1
            } else {
                src.height - 1
            };
            proof {
                assert(2 * x < src.width && 2 * y < src.height) by (nonlinear_arith)
                    requires
                        0 <= x,
                        0 <= y,
                        x < dw,
                        y < dh,
                        src.width >= 1,
                        src.height >= 1,
                        dw == (if src.width / 2 >= 1 {
                            (src.width / 2) as int
                        } else {
                            1int
                        }),
                        dh == (if src.height / 2 >= 1 {
                            (src.height / 2) as int
                        } else {
                            1int
                        }),
                ;
            }
            let mut c: u32 = 0;
            while c < 4
                invariant
                    src.wf(),
                    1 <= dw,
                    1 <= dh,
                    target == spec_downsample(src@),
                    target.width == dw && target.height == dh,
                    0 <= y < dh,
                    0 <= x < dw,
                    0 <= c <= 4,
                    x0 == 2 * x,
                    y0 == 2 * y,
                    x0 < src.width,
                    y0 < src.height,
                    x1 == (if 2 * x + 1 < src.width {
                        2 * x + 1
                    } else {
                        src.width - 1
                    }),
                    y1 == (if 2 * y + 1 < src.height {
                        2 * y + 1
                    } else {
                        src.height - 1
                    }),
                    data@.len() == (y * dw + x) * 4 + c,
                    forall|i: int| 0 <= i < data@.len() ==> data@[i] == target.data[i],
                decreases 4 - c,
            {
                let a = src.byte_at(x0, y0, c);
                let b = src.byte_at(x1, y0, c);
                let e = src.byte_at(x0, y1, c);
                let d = src.byte_at(x1, y1, c);
                let v = avg4(a, b, e, d);
                proof {
                    lemma_flat_index(dw as int, dh as int, x as int, y as int, c as int);
                    assert(v == target.data[(y * dw + x) * 4 + c]);
                }
                data.push(v);
                c = c + 1;
            }
            x = x + 1;
        }
        proof {
            assert((y * dw + dw) * 4 == (y + 1) * dw * 4) by (nonlinear_arith);
        }
        y = y + 1;
    }
    proof {
        assert(data@.len() == dh * dw * 4) by (nonlinear_arith)
            requires
                data@.len() == dh * dw * 4,
        ;
        assert(data@ =~= target.data) by {
            assert(target.data.len() == dw * dh * 4);
            assert(data@.len() == dh * dw * 4 && dh * dw * 4 == dw * dh * 4) by (nonlinear_arith)
                requires
                    data@.len() == dh * dw * 4,
            ;
        }
    }
    let dst = Image { width: dw, height: dh, data };
    proof {
        assert(dst@ == spec_downsample(src@));
        lemma_downsample_dims(src.width, src.height);
    }
    dst
}

/// Halving once gives the size of mip level one.
proof fn lemma_downsample_dims(w: u32, h: u32)
    requires
        w >= 1,
        h >= 1,
    ensures
        spec_mip_level_size(w, 1) == (if w / 2 >= 1 {
            w / 2
        } else {
            1u32
        }),
        spec_mip_level_size(h, 1) == (if h / 2 >= 1 {
            h / 2
        } else {
            1u32
        }),
{
    assert(spec_mip_level_size(w, 1) == spec_mip_level_size(w / 2, 0));
    assert(spec_mip_level_size(h, 1) == spec_mip_level_size(h / 2, 0));
    assert(spec_mip_level_size(w / 2, 0) == (if w / 2 >= 1 {
        w / 2
    } else {
        1u32
    }));
    assert(spec_mip_level_size(h / 2, 0) == (if h / 2 >= 1 {
        h / 2
    } else {
        1u32
    }));
}

/// A mip level's size is one exactly when the level is at least the last
/// level of the chain.
pub proof fn lemma_mip_size_one(length: u32, level: u32)
    requires
        length >= 1,
    ensures
        (spec_mip_level_size(length, level) == 1) <==> (spec_max_mips(length) <= level + 1),
    decreases level,
{
    if length == 1 {
        if level > 0 {
            assert(spec_mip_level_size(1, level) == spec_mip_level_size(0, (level - 1) as u32));
            assert(spec_mip_level_size(0, (level - 1) as u32) == 1);
        }
        assert(spec_max_mips(1) == 1 + spec_max_mips(0));
    } else if level == 0 {
        assert(spec_max_mips(length) == 1 + spec_max_mips(length / 2));
        assert(spec_max_mips(length / 2) == 1 + spec_max_mips(length / 4)) by {
            assert(length / 2 >= 1);
        }
    } else {
        lemma_mip_size_one(length / 2, (level - 1) as u32);
    }
}

/// The CPU mipmap generator.
pub struct MipmapGenerator {}

impl MipmapGenerator {
    /// Builds the full mip pyramid of an image: level 0 is the image, each
    /// level halves its predecessor with a box filter, and the chain ends
    /// at one-by-one.
    pub fn generate_from_image_cpu(image: Image) -> (r: Vec<Image>)
        requires
            image.wf(),
        ensures
            r@.len() == spec_max_mips(
                if image.width >= image.height {
                    image.width
                } else {
                    image.height
                },
            ),
            forall|i: int| 0 <= i < r@.len() ==> (#[trigger] r@[i])@ == spec_mip_image(image@, i),
            forall|i: int|
                0 <= i < r@.len() ==> (#[trigger] r@[i]).wf() && r@[i].width
                    == spec_mip_level_size(image.width, i as u32) && r@[i].height
                    == spec_mip_level_size(image.height, i as u32),
    {
        let w = image.width;
        let h = image.height;
        let ghost s0 = image@;
        let longest: u32 = if w >= h {
            w
        } else {
            h
        };
        proof {
            crate::misc::lemma_max_mips_bound(longest);
            crate::tile::lemma_max_mips_monotonic(w, longest);
            crate::tile::lemma_max_mips_monotonic(h, longest);
        }
        let mut out: Vec<Image> = Vec::new();
        let mut last_w = w;
        let mut last_h = h;
        out.push(image);
        proof {
            lemma_mip_size_one(w, 0);
            lemma_mip_size_one(h, 0);
            lemma_mip_size_one(longest, 0);
            assert(spec_mip_level_size(w, 0) == w);
            assert(spec_mip_level_size(h, 0) == h);
            assert(spec_mip_level_size(longest, 0) == longest);
            assert(spec_mip_image(s0, 0) == s0);
        }
        while last_w > 1 || last_h > 1
            invariant
                s0.wf(),
                w == s0.width,
                h == s0.height,
                longest == (if w >= h {
                    w
                } else {
                    h
                }),
                out@.len() >= 1,
                out@.len() <= 33,
                forall|i: int|
                    0 <= i < out@.len() ==> (#[trigger] out@[i])@ == spec_mip_image(s0, i),
                forall|i: int|
                    0 <= i < out@.len() ==> (#[trigger] out@[i]).wf() && out@[i].width
                        == spec_mip_level_size(w, i as u32) && out@[i].height
                        == spec_mip_level_size(h, i as u32),
                last_w == spec_mip_level_size(w, (out@.len() - 1) as u32),
                last_h == spec_mip_level_size(h, (out@.len() - 1) as u32),
                last_w == 1 && last_h == 1 ==> out@.len() == spec_max_mips(longest),
                spec_max_mips(longest) >= out@.len(),
            decreases last_w + last_h,
        {
            let ghost n = out@.len() as int;
            let next = downsample(&out[out.len() - 1]);
            last_w = next.width;
            last_h = next.height;
            out.push(next);
            proof {
                crate::misc::lemma_max_mips_bound(longest);
                crate::tile::lemma_max_mips_monotonic(w, longest);
                crate::tile::lemma_max_mips_monotonic(h, longest);
                lemma_mip_step(w, (n - 1) as u32);
                lemma_mip_step(h, (n - 1) as u32);
                lemma_mip_size_one(w, (n - 1) as u32);
                lemma_mip_size_one(h, (n - 1) as u32);
                lemma_mip_size_one(longest, (n - 1) as u32);
                lemma_mip_size_one(w, n as u32);
                lemma_mip_size_one(h, n as u32);
                lemma_mip_size_one(longest, n as u32);
                crate::misc::lemma_mip_size_basics(w, n as u32);
                crate::misc::lemma_mip_size_basics(h, n as u32);
                assert(out@[n]@ == spec_downsample(spec_mip_image(s0, n - 1)));
                assert(spec_mip_image(s0, n) == spec_downsample(spec_mip_image(s0, n - 1)));
                assert forall|i: int|
                    0 <= i < out@.len() implies (#[trigger] out@[i])@ == spec_mip_image(
                    s0,
                    i,
                ) by {}
            }
        }
        proof {
            crate::misc::lemma_mip_size_basics(w, (out@.len() - 1) as u32);
            crate::misc::lemma_mip_size_basics(h, (out@.len() - 1) as u32);
            lemma_mip_size_one(w, (out@.len() - 1) as u32);
            lemma_mip_size_one(h, (out@.len() - 1) as u32);
        }
        out
    }
}

/// Halving a mip level's size gives the next level's size.
proof fn lemma_mip_step(length: u32, level: u32)
    requires
        length >= 1,
        level < u32::MAX,
    ensures
        spec_mip_level_size(length, (level + 1) as u32) == (if spec_mip_level_size(length, level)
            / 2 >= 1 {
            spec_mip_level_size(length, level) / 2
        } else {
            1u32
        }),
    decreases level,
{
    if level == 0 {
        assert(spec_mip_level_size(length, 1) == spec_mip_level_size(length / 2, 0));
        assert(spec_mip_level_size(length / 2, 0) == (if length / 2 >= 1 {
            length / 2
        } else {
            1u32
        }));
    } else if length == 1 {
        assert(spec_mip_level_size(1, level) == spec_mip_level_size(0, (level - 1) as u32));
        assert(spec_mip_level_size(0, (level - 1) as u32) == 1);
        assert(spec_mip_level_size(1, (level + 1) as u32) == spec_mip_level_size(0, level));
        assert(spec_mip_level_size(0, level) == 1);
    } else {
        lemma_mip_step(length / 2, (level - 1) as u32);
    }
}

} // verus!
