//! Small shared utilities: a plain range pair, alignment rounding, and
//! power-of-two rounding.

use vstd::prelude::*;

verus! {

/// A start/end pair, convertible to `std::ops::Range`.
#[derive(Clone, Default, PartialEq, Eq, Hash, Debug)]
pub struct Range<T: Copy> {
    pub start: T,
    pub end: T,
}

impl<T> Range<T> where T: Copy {
    pub fn to_std_range(&self) -> (r: std::ops::Range<T>)
        ensures
            r.start == self.start,
            r.end == self.end,
    {
        std::ops::Range::<T> { start: self.start, end: self.end }
    }
}

/// Masking with the complement of a power-of-two mask keeps the value in
/// `[n, n + align)`.
proof fn lemma_align_range(n: isize, align: isize, m: isize, s: isize, r: isize)
    by (bit_vector)
    requires
        1 <= align,
        m == align - 1,
        align & m == 0,
        0 <= n,
        s == n + m,
        r == s & !m,
    ensures
        n <= r,
        r < n + align,
        r & m == 0,
        0 <= r,
{
}

/// A power of two divides every value whose low mask bits are clear.
proof fn lemma_masked_divisible(r: u64, align: u64, m: u64)
    requires
        1 <= align,
        m == align - 1,
        align & m == 0,
        r & m == 0,
    ensures
        r % align == 0,
    decreases align,
{
    if align == 1 {
        assert(r % 1 == 0) by {
            vstd::arithmetic::div_mod::lemma_mod_multiples_basic(r as int, 1);
        }
    } else {
        let h = (align / 2) as u64;
        let hm = (align / 2 - 1) as u64;
        let r2 = (r / 2) as u64;
        assert(h == align / 2 && 1 <= h && hm == h - 1 && h & hm == 0 && r2 == r / 2 && r2 & hm
            == 0 && align == 2 * h && r == 2 * r2) by (bit_vector)
            requires
                2 <= align,
                m == align - 1,
                align & m == 0,
                r & m == 0,
                h == align / 2,
                hm == align / 2 - 1,
                r2 == r / 2,
        ;
        lemma_masked_divisible(r2, h, hm);
        let q = (r2 as int) / (h as int);
        vstd::arithmetic::div_mod::lemma_fundamental_div_mod(r2 as int, h as int);
        assert(r2 as int == (h as int) * q);
        assert(r as int == q * (align as int)) by (nonlinear_arith)
            requires
                r == 2 * r2,
                align == 2 * h,
                r2 as int == (h as int) * q,
        ;
        vstd::arithmetic::div_mod::lemma_mod_multiples_basic(q, align as int);
    }
}

/// The smallest multiple of `align` (a power of two) that is at least `n`.
pub fn alignment(n: isize, align: isize) -> (r: isize)
    requires
        1 <= align,
        align & ((align - 1) as isize) == 0,
        0 <= n,
        n + align - 1 <= isize::MAX,
    ensures
        r % align == 0,
        n <= r < n + align,
{
    let m: isize = align - 1;
    let s: isize = n + m;
    let r: isize = s & !m;
    proof {
        lemma_align_range(n, align, m, s, r);
        assert((r as u64) & (m as u64) == 0);
        lemma_masked_divisible(r as u64, align as u64, m as u64);
        assert(r as u64 == r as int);
        assert(align as u64 == align as int);
    }
    r
}

/// Doubling a power of two below the cap keeps it a power of two.
proof fn lemma_pow2_double(r: isize, m: isize, r2: isize, m2: isize)
    by (bit_vector)
    requires
        1 <= r,
        m == r - 1,
        r & m == 0,
        r <= 0x3fff_ffff,
        r2 == 2 * r,
        m2 == r2 - 1,
    ensures
        r2 & m2 == 0,
{
}

/// The smallest power of two that is at least `v`; 0 when `v` is not
/// positive.
pub fn next_highest_power_of_two(v: isize) -> (r: isize)
    requires
        v <= 0x4000_0000,
    ensures
        v <= 0 ==> r == 0,
        v > 0 ==> {
            &&& 1 <= r
            &&& r & ((r - 1) as isize) == 0
            &&& v <= r
            &&& r < 2 * v
        },
{
    if v <= 0 {
        return 0;
    }
    let mut r: isize = 1;
    proof {
        assert(1isize & 0isize == 0isize) by (bit_vector);
    }
    while r < v
        invariant
            1 <= r,
            r & ((r - 1) as isize) == 0,
            r < 2 * v,
            v <= 0x4000_0000,
        decreases 0x8000_0000 - r,
    {
        let r2: isize = 2 * r;
        proof {
            lemma_pow2_double(r, (r - 1) as isize, r2, (r2 - 1) as isize);
        }
        r = r2;
    }
    r
}

} // verus!
