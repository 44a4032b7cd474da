//! A CPU-side RGBA image: the pixel model that the mipmap generator and
//! the container codec work on.

use vstd::prelude::*;

verus! {

/// The mathematical model of an image: dimensions and a flat row-major
/// byte sequence, four bytes per pixel.
pub struct SpecImage {
    pub width: int,
    pub height: int,
    pub data: Seq<u8>,
}

impl SpecImage {
    /// A model is well formed when both sides are positive and the byte
    /// sequence covers exactly the pixel grid.
    pub open spec fn wf(self) -> bool {
        &&& self.width >= 1
        &&& self.height >= 1
        &&& self.data.len() == self.width * self.height * 4
    }

    /// Channel `c` of the pixel at `(x, y)`.
    pub open spec fn byte_at(self, x: int, y: int, c: int) -> u8 {
        self.data[(y * self.width + x) * 4 + c]
    }
}

/// An RGBA image, row-major, four bytes per pixel.
pub struct Image {
    pub width: u32,
    pub height: u32,
    pub data: Vec<u8>,
}

impl View for Image {
    type V = SpecImage;

    open spec fn view(&self) -> SpecImage {
        SpecImage { width: self.width as int, height: self.height as int, data: self.data@ }
    }
}

impl Image {
    /// A well-formed image: positive sides, bytes covering the grid.
    pub open spec fn wf(self) -> bool {
        self@.wf()
    }

    /// Builds an image after checking that the bytes cover the grid.
    pub fn new(width: u32, height: u32, data: Vec<u8>) -> (r: Option<Image>)
        ensures
            match r {
                Some(img) => {
                    &&& img.wf()
                    &&& img.width == width
                    &&& img.height == height
                    &&& img@.data == data@
                },
                None => !(SpecImage {
                    width: width as int,
                    height: height as int,
                    data: data@,
                }).wf(),
            },
    {
        if width == 0 || height == 0 {
            return None;
        }
        proof {
            assert((width as int) * (height as int) * 4 < 0x1_0000_0000 * 0x1_0000_0000 * 4)
                by (nonlinear_arith)
                requires
                    0 <= width < 0x1_0000_0000,
                    0 <= height < 0x1_0000_0000,
            ;
        }
        let expected: u128 = (width as u128) * (height as u128) * 4;
        if (data.len() as u128) != expected {
            return None;
        }
        Some(Image { width, height, data })
    }

    /// Channel `c` of the pixel at `(x, y)`.
    pub fn byte_at(&self, x: u32, y: u32, c: u32) -> (r: u8)
        requires
            self.wf(),
            x < self.width,
            y < self.height,
            c < 4,
        ensures
            r == self@.byte_at(x as int, y as int, c as int),
    {
        proof {
            vstd::std_specs::vec::axiom_spec_len(&self.data);
            lemma_pixel_index_bound(self@, x as int, y as int, c as int);
        }
        let idx: usize = ((y as usize) * (self.width as usize) + (x as usize)) * 4 + (c as usize);
        self.data[idx]
    }
}

/// A pixel's flat byte index lies inside the image's byte sequence.
pub proof fn lemma_pixel_index_bound(s: SpecImage, x: int, y: int, c: int)
    requires
        s.wf(),
        0 <= x < s.width,
        0 <= y < s.height,
        0 <= c < 4,
    ensures
        0 <= (y * s.width + x) * 4 + c < s.data.len(),
{
    assert((y * s.width + x) * 4 + c < s.width * s.height * 4) by (nonlinear_arith)
        requires
            0 <= x < s.width,
            0 <= y < s.height,
            0 <= c < 4,
    ;
    assert((y * s.width + x) * 4 + c >= 0) by (nonlinear_arith)
        requires
            0 <= x,
            0 <= y,
            0 <= c,
            s.width >= 1,
    ;
}

/// The blob of one tile: the tile's rows, concatenated. Byte `i` of the
/// blob is byte `i % (ts * 4)` of row `i / (ts * 4)` of the tile.
pub open spec fn spec_tile_blob(s: SpecImage, ts: u32, tx: int, ty: int) -> Seq<u8> {
    Seq::new(
        (ts * ts * 4) as nat,
        |i: int|
            s.data[((ty * ts + i / (ts * 4)) * s.width + tx * ts) * 4 + i % (ts * 4)],
    )
}

/// Byte `(x, y, c)` of an image is byte
/// `((y % ts) * ts + (x % ts)) * 4 + c` of the blob of the tile
/// `(x / ts, y / ts)`: each pixel is recovered from its tile.
pub proof fn lemma_tile_blob_pixel(s: SpecImage, ts: u32, x: int, y: int, c: int)
    requires
        s.wf(),
        ts >= 1,
        0 <= x < s.width,
        0 <= y < s.height,
        0 <= c < 4,
        s.width % (ts as int) == 0,
        s.height % (ts as int) == 0,
    ensures
        spec_tile_blob(s, ts, x / (ts as int), y / (ts as int))[((y % (ts as int)) * ts + (x % (
        ts as int))) * 4 + c] == s.byte_at(x, y, c),
{
    let t = ts as int;
    let i = ((y % t) * t + (x % t)) * 4 + c;
    assert(0 <= y % t < t && 0 <= x % t < t) by {
        vstd::arithmetic::div_mod::lemma_mod_bound(y, t);
        vstd::arithmetic::div_mod::lemma_mod_bound(x, t);
    }
    assert(0 <= i < ts * ts * 4) by (nonlinear_arith)
        requires
            t == ts,
            ts >= 1,
            i == ((y % t) * t + (x % t)) * 4 + c,
            0 <= y % t < t,
            0 <= x % t < t,
            0 <= c < 4,
    ;
    // Recover the blob row and the offset inside it from the flat index.
    assert(i / (t * 4) == y % t && i % (t * 4) == (x % t) * 4 + c) by (nonlinear_arith)
        requires
            t >= 1,
            i == ((y % t) * t + (x % t)) * 4 + c,
            0 <= y % t < t,
            0 <= x % t < t,
            0 <= c < 4,
    ;
    // The source byte index is the pixel's own flat index.
    assert(t * (y / t) + y % t == y && t * (x / t) + x % t == x) by {
        vstd::arithmetic::div_mod::lemma_fundamental_div_mod(y, t);
        vstd::arithmetic::div_mod::lemma_fundamental_div_mod(x, t);
    }
    assert((((y / t) * t + i / (t * 4)) * s.width + (x / t) * t) * 4 + i % (t * 4) == (y * s.width
        + x) * 4 + c) by (nonlinear_arith)
        requires
            t >= 1,
            i / (t * 4) == y % t,
            i % (t * 4) == (x % t) * 4 + c,
            t * (y / t) + y % t == y,
            t * (x / t) + x % t == x,
    ;
}

} // verus!
