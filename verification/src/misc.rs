//! Tile addressing math: mip chain depth and per-level sizes.

use vstd::prelude::*;

verus! {

/// Number of mip levels of a texture whose longest side is `length`:
/// the position of the highest set bit, so 0 for 0, 13 for 4096.
pub open spec fn spec_max_mips(length: u32) -> nat
    decreases length,
{
    if length == 0 {
        0
    } else {
        1 + spec_max_mips(length / 2)
    }
}

/// Halving a value below `2^k` reaches zero within `k` steps.
proof fn lemma_max_mips_le(length: u32, k: nat)
    requires
        (length as nat) < vstd::arithmetic::power2::pow2(k),
    ensures
        spec_max_mips(length) <= k,
    decreases length,
{
    if length > 0 {
        if k == 0 {
            vstd::arithmetic::power2::lemma2_to64();
        } else {
            assert(vstd::arithmetic::power2::pow2(k) == 2 * vstd::arithmetic::power2::pow2(
                (k - 1) as nat,
            )) by {
                vstd::arithmetic::power2::lemma_pow2_unfold(k);
            }
            lemma_max_mips_le(length / 2, (k - 1) as nat);
        }
    }
}

/// A mip count never exceeds the bit width of `u32`.
pub proof fn lemma_max_mips_bound(length: u32)
    ensures
        spec_max_mips(length) <= 32,
{
    vstd::arithmetic::power2::lemma2_to64();
    lemma_max_mips_le(length, 32);
}

/// Size of one mip level: halving `length` `level` times, never below 1.
pub open spec fn spec_mip_level_size(length: u32, level: u32) -> u32
    decreases level,
{
    if length == 0 {
        1
    } else if level == 0 {
        length
    } else {
        spec_mip_level_size(length / 2, (level - 1) as u32)
    }
}

/// A mip level's size is the texture size divided by `2^level`, never below 1.
pub proof fn lemma_mip_size_as_div(length: u32, level: u32)
    ensures
        spec_mip_level_size(length, level) == if (length as nat) / vstd::arithmetic::power2::pow2(
            level as nat,
        ) == 0 {
            1nat
        } else {
            (length as nat) / vstd::arithmetic::power2::pow2(level as nat)
        },
    decreases level,
{
    vstd::arithmetic::power2::lemma2_to64();
    vstd::arithmetic::div_mod::lemma_div_basics(length as int);
    if length == 0 {
        vstd::arithmetic::power2::lemma_pow2_pos(level as nat);
        vstd::arithmetic::div_mod::lemma_div_of0(
            vstd::arithmetic::power2::pow2(level as nat) as int,
        );
    } else if level > 0 {
        let p = vstd::arithmetic::power2::pow2((level - 1) as nat);
        vstd::arithmetic::power2::lemma_pow2_pos((level - 1) as nat);
        vstd::arithmetic::power2::lemma_pow2_unfold(level as nat);
        lemma_mip_size_as_div(length / 2, (level - 1) as u32);
        assert(((length as int) / 2) / (p as int) == (length as int) / (2 * p as int)) by {
            vstd::arithmetic::div_mod::lemma_div_denominator(length as int, 2, p as int);
        }
    }
}

/// Every mip level has size at least 1, and level 0 is the full size.
/// This holds for every `(width, level)` with a nonzero width.
pub proof fn lemma_mip_size_basics(width: u32, level: u32)
    requires
        1 <= width,
    ensures
        spec_mip_level_size(width, level) >= 1,
        spec_mip_level_size(width, 0) == width,
    decreases level,
{
    if level > 0 {
        if width / 2 > 0 {
            lemma_mip_size_basics(width / 2, (level - 1) as u32);
        } else {
            assert(spec_mip_level_size(width, level) == spec_mip_level_size(
                0,
                (level - 1) as u32,
            ));
            assert(spec_mip_level_size(0, (level - 1) as u32) == 1);
        }
    }
}

/// Size of one mip level of a texture: `max(1, length >> level)`.
pub fn get_mip_level_size(length: u32, level: u32) -> (r: u32)
    ensures
        r == spec_mip_level_size(length, level),
{
    proof {
        lemma_mip_size_as_div(length, level);
    }
    if level >= 32 {
        proof {
            lemma_pow2_ge_u32(level as nat);
            vstd::arithmetic::div_mod::lemma_basic_div(
                length as int,
                vstd::arithmetic::power2::pow2(level as nat) as int,
            );
        }
        1
    } else {
        proof {
            vstd::bits::lemma_u32_shr_is_div(length, level);
        }
        u32::max(1, length >> level)
    }
}

/// `pow2(k)` exceeds every `u32` once `k` reaches 32.
proof fn lemma_pow2_ge_u32(k: nat)
    requires
        k >= 32,
    ensures
        vstd::arithmetic::power2::pow2(k) > u32::MAX,
{
    vstd::arithmetic::power2::lemma2_to64();
    if k > 32 {
        vstd::arithmetic::power2::lemma_pow2_strictly_increases(32, k);
    }
}

/// All mip level sizes of a texture, from the full size down to 1.
pub fn calculate_mipmap_level_sizes(length: u32) -> (r: Vec<u32>)
    ensures
        r@.len() == spec_max_mips(length),
        forall|i: int|
            0 <= i < r@.len() ==> r@[i] == spec_mip_level_size(length, i as u32),
{
    let mut sizes: Vec<u32> = Vec::new();
    let mut rem = length;
    while rem > 0
        invariant
            spec_max_mips(rem) + sizes@.len() == spec_max_mips(length),
            forall|i: int|
                0 <= i < sizes@.len() ==> sizes@[i] == spec_mip_level_size(length, i as u32),
            rem > 0 ==> sizes@.len() < 32 && rem == spec_mip_level_size(
                length,
                sizes@.len() as u32,
            ),
        decreases rem,
    {
        proof {
            lemma_max_mips_bound(length);
            let j = sizes@.len() as u32;
            lemma_mip_size_as_div(length, j);
            lemma_mip_size_as_div(length, (j + 1) as u32);
            let p = vstd::arithmetic::power2::pow2(j as nat);
            vstd::arithmetic::power2::lemma_pow2_pos(j as nat);
            vstd::arithmetic::power2::lemma_pow2_unfold((j + 1) as nat);
            assert(((length as int) / (p as int)) / 2 == (length as int) / ((p as int) * 2)) by {
                vstd::arithmetic::div_mod::lemma_div_denominator(length as int, p as int, 2);
            }
        }
        sizes.push(rem);
        rem = rem / 2;
    }
    sizes
}

/// Number of mip levels: `32 - leading_zeros(length)`.
pub fn calculate_max_mips(length: u32) -> (r: u32)
    ensures
        r == spec_max_mips(length),
{
    proof {
        lemma_max_mips_bound(length);
    }
    let mut mips: u32 = 0;
    let mut rem = length;
    while rem > 0
        invariant
            spec_max_mips(rem) + mips == spec_max_mips(length),
            mips <= 32,
        decreases rem,
    {
        proof {
            lemma_max_mips_bound(length);
        }
        mips = mips + 1;
        rem = rem / 2;
    }
    mips
}

/// Whether the engine runs in development mode: started from the IDE,
/// or any of the project marker directories sits next to the engine
/// root. The environment and filesystem probes that feed these flags
/// live outside the library.
pub fn is_dev_mode(
    is_run_from_ide: bool,
    has_cargo_dir: bool,
    has_xmake_dir: bool,
    has_vscode_dir: bool,
) -> (r: bool)
    ensures
        r == (is_run_from_ide || has_cargo_dir || has_xmake_dir || has_vscode_dir),
{
    is_run_from_ide || has_cargo_dir || has_xmake_dir || has_vscode_dir
}

/// The MD5 digest of a text's characters: a result named, not restated;
/// the md-5 crate computes it.
pub uninterp spec fn md5_digest_of(s: Seq<char>) -> Seq<u8>;

/// Relies on `md5::Md5` of the md-5 crate: the digest is 16 bytes and
/// depends on the input characters alone.
#[verifier::external_body]
fn md5_digest(text: &str) -> (r: Vec<u8>)
    ensures
        r@ == md5_digest_of(text@),
        r@.len() == 16,
{
    let mut hasher = <md5::Md5 as md5::Digest>::new();
    md5::digest::Update::update(&mut hasher, text.as_bytes());
    let result = md5::Digest::finalize(hasher);
    result.to_vec()
}

/// The lowercase hex digit of a value below 16.
pub open spec fn spec_hex_digit(n: u8) -> char {
    if n == 0 {
        '0'
    } else if n == 1 {
        '1'
    } else if n == 2 {
        '2'
    } else if n == 3 {
        '3'
    } else if n == 4 {
        '4'
    } else if n == 5 {
        '5'
    } else if n == 6 {
        '6'
    } else if n == 7 {
        '7'
    } else if n == 8 {
        '8'
    } else if n == 9 {
        '9'
    } else if n == 10 {
        'a'
    } else if n == 11 {
        'b'
    } else if n == 12 {
        'c'
    } else if n == 13 {
        'd'
    } else if n == 14 {
        'e'
    } else {
        'f'
    }
}

/// One byte's unpadded hex form: a single digit below 16, two otherwise.
pub open spec fn spec_short_hex_byte(b: u8) -> Seq<char> {
    if b < 16 {
        seq![spec_hex_digit(b)]
    } else {
        seq![spec_hex_digit(b / 16), spec_hex_digit(b % 16)]
    }
}

/// The unpadded hex form of the first `k` bytes, concatenated.
pub open spec fn spec_short_hex_upto(bytes: Seq<u8>, k: int) -> Seq<char>
    decreases k,
{
    if k <= 0 {
        Seq::empty()
    } else {
        spec_short_hex_upto(bytes, k - 1) + spec_short_hex_byte(bytes[k - 1])
    }
}

/// The unpadded hex form of a byte sequence.
pub open spec fn spec_short_hex(bytes: Seq<u8>) -> Seq<char> {
    spec_short_hex_upto(bytes, bytes.len() as int)
}

/// Appends the lowercase hex digit of a value below 16.
fn push_hex_digit(out: &mut String, n: u8)
    requires
        n < 16,
    ensures
        final(out)@ == old(out)@ + seq![spec_hex_digit(n)],
{
    let d: &str = if n == 0 {
        "0"
    } else if n == 1 {
        "1"
    } else if n == 2 {
        "2"
    } else if n == 3 {
        "3"
    } else if n == 4 {
        "4"
    } else if n == 5 {
        "5"
    } else if n == 6 {
        "6"
    } else if n == 7 {
        "7"
    } else if n == 8 {
        "8"
    } else if n == 9 {
        "9"
    } else if n == 10 {
        "a"
    } else if n == 11 {
        "b"
    } else if n == 12 {
        "c"
    } else if n == 13 {
        "d"
    } else if n == 14 {
        "e"
    } else {
        "f"
    };
    proof {
        reveal_strlit("0");
        reveal_strlit("1");
        reveal_strlit("2");
        reveal_strlit("3");
        reveal_strlit("4");
        reveal_strlit("5");
        reveal_strlit("6");
        reveal_strlit("7");
        reveal_strlit("8");
        reveal_strlit("9");
        reveal_strlit("a");
        reveal_strlit("b");
        reveal_strlit("c");
        reveal_strlit("d");
        reveal_strlit("e");
        reveal_strlit("f");
        assert(d@ =~= seq![spec_hex_digit(n)]);
    }
    out.append(d);
    proof {
        assert(out@ =~= old(out)@ + seq![spec_hex_digit(n)]);
    }
}

/// The unpadded lowercase hex form of a byte sequence, as the digest
/// formatting writes it: a single digit for bytes below 16.
pub fn to_short_hex(bytes: &Vec<u8>) -> (r: String)
    ensures
        r@ == spec_short_hex(bytes@),
{
    let mut out = String::new();
    let n = bytes.len();
    let mut i: usize = 0;
    while i < n
        invariant
            n == bytes@.len(),
            0 <= i <= n,
            out@ == spec_short_hex_upto(bytes@, i as int),
        decreases n - i,
    {
        let b = bytes[i];
        if b < 16 {
            push_hex_digit(&mut out, b);
        } else {
            push_hex_digit(&mut out, b / 16);
            push_hex_digit(&mut out, b % 16);
            proof {
                assert(spec_short_hex_upto(bytes@, i + 1) =~= spec_short_hex_upto(bytes@, i as int)
                    + spec_short_hex_byte(bytes@[i as int]));
                assert(out@ =~= spec_short_hex_upto(bytes@, i + 1));
            }
        }
        proof {
            assert(out@ =~= spec_short_hex_upto(bytes@, i + 1));
        }
        i = i + 1;
    }
    out
}

/// The unpadded lowercase hex of the MD5 digest of a text.
pub fn get_md5_from_string(text: &str) -> (r: String)
    ensures
        r@ == spec_short_hex(md5_digest_of(text@)),
{
    let digest = md5_digest(text);
    to_short_hex(&digest)
}

} // verus!
