use vstd::prelude::*;
use vstd::arithmetic::div_mod::lemma_fundamental_div_mod_converse;

verus! {

/// Width of a frame on the wire, in samples.
pub const WIDTH: usize = 92;

/// Height of a frame on the wire, in samples.
pub const HEIGHT: usize = 28;

/// Largest value of a 4-bit sample.
pub const MAX_NIBBLE: u8 = 15;

/// The 4-bit sample of a luma value: `min(15, round(luma * 15 / 255))`.
pub open spec fn nibble_of(luma: u8) -> u8 {
    let q = (2 * luma + 17) / 34;
    if q > 15 {
        15
    } else {
        q as u8
    }
}

/// Number of packed bytes in a row of `w` samples.
pub open spec fn half_width(w: int) -> int {
    (w + 1) / 2
}

/// The sample at column `col` of row `row` after the horizontal mirror; 0 past the edge.
pub open spec fn mirrored_nibble(px: Seq<u8>, w: int, row: int, col: int) -> u8 {
    if col < w {
        nibble_of(px[row * w + (w - 1 - col)])
    } else {
        0
    }
}

/// The `j`-th packed byte of a row: two mirrored samples, high nibble first.
pub open spec fn packed_byte(px: Seq<u8>, w: int, row: int, j: int) -> u8 {
    (mirrored_nibble(px, w, row, 2 * j) * 16 + mirrored_nibble(px, w, row, 2 * j + 1)) as u8
}

/// A `w` by `h` grayscale grid, mirrored and packed two samples to a byte.
pub open spec fn packed_frame(px: Seq<u8>, w: int, h: int) -> Seq<u8> {
    Seq::new(
        (h * half_width(w)) as nat,
        |k: int| packed_byte(px, w, k / half_width(w), k % half_width(w)),
    )
}

/// The samples of a packed buffer, high nibble of each byte first.
pub open spec fn unpacked(p: Seq<u8>) -> Seq<u8> {
    Seq::new(
        2 * p.len(),
        |k: int|
            if k % 2 == 0 {
                p[k / 2] / 16
            } else {
                p[k / 2] % 16
            },
    )
}

/// The 4-bit sample of one luma value.
pub fn luma_to_nibble(luma: u8) -> (r: u8)
    ensures
        r == nibble_of(luma),
        r <= MAX_NIBBLE,
{
    let q: u16 = (2 * (luma as u16) + 17) / 34;
    if q > 15 {
        15
    } else {
        q as u8
    }
}

/// Packs a row-major `width` by `height` grayscale grid, mirrored left to right,
/// two 4-bit samples per byte with the high nibble first; an odd row ends in a
/// zero low nibble.
pub fn pack_gray(pixels: &[u8], width: usize, height: usize) -> (r: Vec<u8>)
    requires
        pixels@.len() == width * height,
    ensures
        r@ == packed_frame(pixels@, width as int, height as int),
{
    let hw: usize = width / 2 + width % 2;
    let mut out: Vec<u8> = Vec::new();
    let total = pixels.len();
    if width == 0 {
        assert(height * 0 == 0) by (nonlinear_arith);
        assert(out@ =~= packed_frame(pixels@, width as int, height as int));
        return out;
    }
    let ghost w = width as int;
    let ghost h = height as int;
    assert(hw == half_width(w));
    assert(hw <= w);
    assert(hw * h <= w * h) by (nonlinear_arith)
        requires
            hw <= w,
            h >= 0,
    ;
    let mut row: usize = 0;
    let mut row_start: usize = 0;
    while row < height
        invariant
            w == width,
            h == height,
            hw == half_width(w),
            hw >= 1,
            row <= height,
            row_start == row * w,
            pixels@.len() == w * h,
            total == w * h,
            hw * h <= w * h,
            out@.len() == row * hw,
            forall|k: int|
                0 <= k < out@.len() ==> #[trigger] out@[k] == packed_byte(
                    pixels@,
                    w,
                    k / (hw as int),
                    k % (hw as int),
                ),
        decreases height - row,
    {
        assert((row + 1) * w <= h * w) by (nonlinear_arith)
            requires
                row + 1 <= h,
                w >= 0,
        ;
        assert((row + 1) * w == row * w + w) by (nonlinear_arith);
        assert(h * w == w * h) by (nonlinear_arith);
        assert((row + 1) * hw <= h * hw) by (nonlinear_arith)
            requires
                row + 1 <= h,
                hw >= 0,
        ;
        assert((row + 1) * hw == row * hw + hw) by (nonlinear_arith);
        assert(h * hw == hw * h) by (nonlinear_arith);
        let mut j: usize = 0;
        while j < hw
            invariant
                w == width,
                h == height,
                hw == half_width(w),
                hw >= 1,
                row < height,
                row_start == row * w,
                row_start + w <= w * h,
                pixels@.len() == w * h,
                total == w * h,
                row * hw + hw <= hw * h,
                hw * h <= w * h,
                j <= hw,
                out@.len() == row * hw + j,
                forall|k: int|
                    0 <= k < out@.len() ==> #[trigger] out@[k] == packed_byte(
                        pixels@,
                        w,
                        k / (hw as int),
                        k % (hw as int),
                    ),
            decreases hw - j,
        {
            let col = 2 * j;
            let high = luma_to_nibble(pixels[row_start + (width - 1 - col)]);
            let low = if col + 1 < width {
                luma_to_nibble(pixels[row_start + (width - 2 - col)])
            } else {
                0
            };
            let byte = high * 16 + low;
            proof {
                let k = row * hw + j;
                lemma_fundamental_div_mod_converse(k, hw as int, row as int, j as int);
                assert(high == mirrored_nibble(pixels@, w, row as int, 2 * j));
                assert(low == mirrored_nibble(pixels@, w, row as int, 2 * j + 1));
            }
            out.push(byte);
            j = j + 1;
        }
        row = row + 1;
        row_start = row_start + width;
    }
    assert(out@ =~= packed_frame(pixels@, w, h));
    out
}

/// Splits each packed byte into its two 4-bit samples, high nibble first.
pub fn unpack_nibbles(packed: &[u8]) -> (r: Vec<u8>)
    ensures
        r@ == unpacked(packed@),
{
    let mut out: Vec<u8> = Vec::new();
    let mut i: usize = 0;
    while i < packed.len()
        invariant
            i <= packed@.len(),
            out@.len() == 2 * i,
            forall|k: int|
                0 <= k < out@.len() ==> #[trigger] out@[k] == (if k % 2 == 0 {
                    packed@[k / 2] / 16
                } else {
                    packed@[k / 2] % 16
                }),
        decreases packed@.len() - i,
    {
        let b = packed[i];
        let high = (b >> 4) & 0x0F;
        let low = b & 0x0F;
        assert((b >> 4u8) & 0x0Fu8 == b / 16) by (bit_vector);
        assert(b & 0x0Fu8 == b % 16) by (bit_vector);
        proof {
            lemma_fundamental_div_mod_converse(2 * i as int, 2, i as int, 0);
            lemma_fundamental_div_mod_converse(2 * i + 1, 2, i as int, 1);
        }
        out.push(high);
        out.push(low);
        i = i + 1;
    }
    assert(out@ =~= unpacked(packed@));
    out
}

/// Unpacking a packed even-width grid gives, at every position, the 4-bit
/// sample of the pixel in the mirrored position.
pub proof fn lemma_unpack_pack(px: Seq<u8>, w: int, h: int)
    requires
        w >= 0,
        h >= 0,
        w % 2 == 0,
        px.len() == w * h,
    ensures
        unpacked(packed_frame(px, w, h)).len() == w * h,
        forall|y: int, x: int|
            0 <= y < h && 0 <= x < w ==> #[trigger] unpacked(packed_frame(px, w, h))[y * w + x]
                == nibble_of(px[y * w + (w - 1 - x)]),
{
    let hw = half_width(w);
    assert(hw * 2 == w);
    assert(2 * (h * hw) == w * h) by (nonlinear_arith)
        requires
            hw * 2 == w,
    ;
    assert forall|y: int, x: int| 0 <= y < h && 0 <= x < w implies #[trigger] unpacked(
        packed_frame(px, w, h),
    )[y * w + x] == nibble_of(px[y * w + (w - 1 - x)]) by {
        let k = y * w + x;
        let i = y * hw + x / 2;
        assert(k == i * 2 + x % 2) by (nonlinear_arith)
            requires
                k == y * w + x,
                i == y * hw + x / 2,
                w == hw * 2,
        ;
        lemma_fundamental_div_mod_converse(k, 2, i, x % 2);
        assert(x / 2 < hw);
        lemma_fundamental_div_mod_converse(i, hw, y, x / 2);
        assert(i < h * hw) by (nonlinear_arith)
            requires
                i == y * hw + x / 2,
                x / 2 < hw,
                y + 1 <= h,
                hw >= 0,
        ;
        assert(k < w * h) by (nonlinear_arith)
            requires
                k == y * w + x,
                x < w,
                y + 1 <= h,
                w >= 0,
        ;
        let a = mirrored_nibble(px, w, y, 2 * (x / 2));
        let b = mirrored_nibble(px, w, y, 2 * (x / 2) + 1);
        assert(a <= 15 && b <= 15);
        assert((a * 16 + b) / 16 == a && (a * 16 + b) % 16 == b) by (nonlinear_arith)
            requires
                0 <= a <= 15,
                0 <= b <= 15,
        ;
    }
}

} // verus!
