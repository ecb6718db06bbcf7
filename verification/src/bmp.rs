use vstd::prelude::*;
use vstd::arithmetic::div_mod::lemma_div_denominator;
use vstd::arithmetic::div_mod::lemma_div_is_ordered;
use vstd::arithmetic::div_mod::lemma_div_pos_is_pos;
use vstd::arithmetic::div_mod::lemma_fundamental_div_mod;
use vstd::arithmetic::div_mod::lemma_fundamental_div_mod_converse;
use vstd::arithmetic::div_mod::lemma_mod_bound;
use vstd::arithmetic::div_mod::lemma_multiply_divide_lt;

verus! {

/// The largest width or height the bitmap codec handles.
pub const BMP_MAX_DIM: usize = 8192;

/// Bytes before the pixel rows: a 14-byte file header and a 40-byte info
/// header.
pub const BMP_HEADER_LEN: usize = 54;

/// Bytes one stored pixel row occupies: three bytes per pixel, padded up to
/// a multiple of four.
pub open spec fn bmp_stride(w: int) -> int {
    (3 * w + 3) / 4 * 4
}

/// The 32-bit little-endian value stored at `off`.
pub open spec fn le32_at(b: Seq<u8>, off: int) -> int {
    b[off] + 256 * b[off + 1] + 65536 * b[off + 2] + 16777216 * b[off + 3]
}

/// What a bitmap byte sequence means: `None` unless it is exactly one
/// 24-bit-per-pixel, uncompressed, bottom-to-top image of a size this codec
/// handles; otherwise the dimensions and the top-to-bottom, row-major
/// pixel grid, each pixel packed as `0x00RRGGBB`.
pub open spec fn decode_spec(b: Seq<u8>) -> Option<(int, int, Seq<u32>)> {
    if b.len() < 54 {
        None
    } else if b[0] != 66 || b[1] != 77 {
        None
    } else {
        let w = le32_at(b, 18);
        let h = le32_at(b, 22);
        if w <= 0 || h <= 0 || w > BMP_MAX_DIM || h > BMP_MAX_DIM {
            None
        } else if b.len() != 54 + bmp_stride(w) * h {
            None
        } else if b[28] != 24 || b[29] != 0 {
            None
        } else {
            Some(
                (
                    w,
                    h,
                    Seq::new(
                        (w * h) as nat,
                        |i: int|
                            {
                                let y = i / w;
                                let x = i % w;
                                let off = 54 + (h - 1 - y) * bmp_stride(w) + 3 * x;
                                (b[off] + 256 * b[off + 1] + 65536 * b[off + 2]) as u32
                            },
                    ),
                ),
            )
        }
    }
}

/// The two magic bytes, the dimensions and the bit depth all read back.
spec fn bmp_header_ok(b: Seq<u8>, w: int, h: int) -> bool {
    &&& b.len() >= 54
    &&& b[0] == 66
    &&& b[1] == 77
    &&& le32_at(b, 18) == w
    &&& le32_at(b, 22) == h
    &&& b[28] == 24
    &&& b[29] == 0
}

/// The three stored bytes of the pixel at column `x` of bottom-up row `rb`
/// are the blue, green and red channels of the matching grid pixel.
spec fn pixel_encoded(b: Seq<u8>, w: int, h: int, stride: int, pixels: Seq<u32>, rb: int, x: int) -> bool {
    let off = 54 + rb * stride + 3 * x;
    let p = pixels[(h - 1 - rb) * w + x];
    &&& 0 <= off && off + 3 <= b.len()
    &&& b[off] == p % 256
    &&& b[off + 1] == (p / 256) % 256
    &&& b[off + 2] == (p / 65536) % 256
}

/// A value below `2^32` is rebuilt exactly from its four little-endian
/// bytes.
proof fn lemma_le32_reconstruct(v: int)
    requires
        0 <= v < 0x100000000,
    ensures
        (v % 256) + 256 * ((v / 256) % 256) + 65536 * ((v / 65536) % 256) + 16777216 * ((v
            / 16777216) % 256) == v,
{
    lemma_fundamental_div_mod(v, 256);
    lemma_fundamental_div_mod(v / 256, 256);
    lemma_div_denominator(v, 256, 256);
    lemma_fundamental_div_mod(v / 65536, 256);
    lemma_div_denominator(v, 65536, 256);
    lemma_div_pos_is_pos(v, 16777216);
    lemma_div_is_ordered(v, 0xFFFFFFFF, 16777216);
    lemma_mod_bound(v, 256);
    lemma_mod_bound(v / 256, 256);
    lemma_mod_bound(v / 65536, 256);
    assert((v / 16777216) % 256 == v / 16777216) by {
        vstd::arithmetic::div_mod::lemma_small_mod((v / 16777216) as nat, 256);
    }
}

/// A value below `2^24` is rebuilt exactly from its three little-endian
/// bytes.
proof fn lemma_le24_reconstruct(v: int)
    requires
        0 <= v < 0x1000000,
    ensures
        (v % 256) + 256 * ((v / 256) % 256) + 65536 * ((v / 65536) % 256) == v,
{
    lemma_fundamental_div_mod(v, 256);
    lemma_fundamental_div_mod(v / 256, 256);
    lemma_div_denominator(v, 256, 256);
    lemma_div_pos_is_pos(v, 65536);
    lemma_div_is_ordered(v, 0xFFFFFF, 65536);
    lemma_mod_bound(v, 256);
    lemma_mod_bound(v / 256, 256);
    assert((v / 65536) % 256 == v / 65536) by {
        vstd::arithmetic::div_mod::lemma_small_mod((v / 65536) as nat, 256);
    }
}

/// Appends the four little-endian bytes of `v`.
fn push_le32(out: &mut Vec<u8>, v: u32)
    ensures
        final(out)@.len() == old(out)@.len() + 4,
        forall|k: int| 0 <= k < old(out)@.len() ==> #[trigger] final(out)@[k] == old(out)@[k],
        final(out)@[old(out)@.len() as int] == v % 256,
        final(out)@[old(out)@.len() as int + 1] == (v / 256) % 256,
        final(out)@[old(out)@.len() as int + 2] == (v / 65536) % 256,
        final(out)@[old(out)@.len() as int + 3] == (v / 16777216) % 256,
{
    out.push((v % 256) as u8);
    out.push((v / 256 % 256) as u8);
    out.push((v / 65536 % 256) as u8);
    out.push((v / 16777216 % 256) as u8);
}

/// Packs a top-to-bottom, row-major pixel grid into one uncompressed
/// 24-bit-per-pixel bitmap file image, rows stored bottom to top and padded
/// to four bytes. Re-decoding the bytes reproduces the exact pixel grid:
/// that round trip is this function's contract.
pub fn export_bmp(width: usize, height: usize, pixels: &Vec<u32>) -> (out: Vec<u8>)
    requires
        0 < width <= BMP_MAX_DIM,
        0 < height <= BMP_MAX_DIM,
        pixels@.len() == width * height,
        forall|i: int| 0 <= i < pixels@.len() ==> #[trigger] pixels@[i] < 0x1000000,
    ensures
        out@.len() == 54 + bmp_stride(width as int) * (height as int),
        decode_spec(out@) == Some((width as int, height as int, pixels@)),
{
    let stride: usize = (3 * width + 3) / 4 * 4;
    proof {
        assert(stride * height <= 24580 * 8192) by (nonlinear_arith)
            requires
                0 <= stride <= 24580,
                0 <= height <= 8192,
        ;
    }
    let data_len: usize = stride * height;
    let total: usize = BMP_HEADER_LEN + data_len;

    let mut out: Vec<u8> = Vec::new();
    out.push(66);
    out.push(77);
    push_le32(&mut out, total as u32);
    push_le32(&mut out, 0);
    push_le32(&mut out, 54);
    push_le32(&mut out, 40);
    push_le32(&mut out, width as u32);
    push_le32(&mut out, height as u32);
    out.push(1);
    out.push(0);
    out.push(24);
    out.push(0);
    push_le32(&mut out, 0);
    push_le32(&mut out, data_len as u32);
    push_le32(&mut out, 2835);
    push_le32(&mut out, 2835);
    push_le32(&mut out, 0);
    push_le32(&mut out, 0);
    assert(out@.len() == 54);
    proof {
        lemma_le32_reconstruct(width as int);
        lemma_le32_reconstruct(height as int);
        assert(bmp_header_ok(out@, width as int, height as int));
    }

    let ghost w = width as int;
    let ghost h = height as int;
    let ghost s = stride as int;

    let mut rb: usize = 0;
    while rb < height
        invariant
            rb <= height,
            0 < width <= 8192,
            0 < height <= 8192,
            w == width,
            h == height,
            s == stride,
            stride == bmp_stride(w),
            3 * width <= stride <= 24580,
            pixels@.len() == width * height,
            forall|i: int| 0 <= i < pixels@.len() ==> #[trigger] pixels@[i] < 0x1000000,
            out@.len() == 54 + rb * stride,
            bmp_header_ok(out@, w, h),
            forall|r: int, x: int|
                0 <= r < rb && 0 <= x < w
                    ==> #[trigger] pixel_encoded(out@, w, h, s, pixels@, r, x),
        decreases height - rb,
    {
        let y: usize = height - 1 - rb;
        let mut x: usize = 0;
        while x < width
            invariant
                x <= width,
                rb < height,
                y == height - 1 - rb,
                0 < width <= 8192,
                0 < height <= 8192,
                w == width,
                h == height,
                s == stride,
                stride == bmp_stride(w),
                3 * width <= stride <= 24580,
                pixels@.len() == width * height,
                forall|i: int| 0 <= i < pixels@.len() ==> #[trigger] pixels@[i] < 0x1000000,
                out@.len() == 54 + rb * stride + 3 * x,
                bmp_header_ok(out@, w, h),
                forall|r: int, xx: int|
                    0 <= r < rb && 0 <= xx < w
                        ==> #[trigger] pixel_encoded(out@, w, h, s, pixels@, r, xx),
                forall|xx: int|
                    0 <= xx < x ==> #[trigger] pixel_encoded(out@, w, h, s, pixels@, rb as int, xx),
            decreases width - x,
        {
            let pl: usize = pixels.len();
            proof {
                assert((y as int) * (width as int) + (x as int) < pl && 0 <= (y as int) * (width as int))
                    by (nonlinear_arith)
                    requires
                        0 <= (y as int) < height,
                        0 <= (x as int) < width,
                        pl == width * height,
                ;
            }
            let idx: usize = y * width + x;
            let p: u32 = pixels[idx];
            let ghost prev = out@;
            out.push((p % 256) as u8);
            out.push((p / 256 % 256) as u8);
            out.push((p / 65536 % 256) as u8);
            proof {
                assert(pixel_encoded(out@, w, h, s, pixels@, rb as int, x as int));
                assert forall|r: int, xx: int| 0 <= r < rb && 0 <= xx < w
                    implies #[trigger] pixel_encoded(out@, w, h, s, pixels@, r, xx)
                by {
                    assert(pixel_encoded(prev, w, h, s, pixels@, r, xx));
                }
                assert forall|xx: int| 0 <= xx < x + 1
                    implies #[trigger] pixel_encoded(out@, w, h, s, pixels@, rb as int, xx)
                by {
                    if xx < x {
                        assert(pixel_encoded(prev, w, h, s, pixels@, rb as int, xx));
                    }
                }
            }
            x = x + 1;
        }
        let mut pad: usize = 3 * width;
        while pad < stride
            invariant
                3 * width <= pad <= stride,
                rb < height,
                0 < width <= 8192,
                0 < height <= 8192,
                w == width,
                h == height,
                s == stride,
                stride == bmp_stride(w),
                3 * width <= stride <= 24580,
                pixels@.len() == width * height,
                forall|i: int| 0 <= i < pixels@.len() ==> #[trigger] pixels@[i] < 0x1000000,
                out@.len() == 54 + rb * stride + pad,
                bmp_header_ok(out@, w, h),
                forall|r: int, xx: int|
                    0 <= r < rb && 0 <= xx < w
                        ==> #[trigger] pixel_encoded(out@, w, h, s, pixels@, r, xx),
                forall|xx: int|
                    0 <= xx < w ==> #[trigger] pixel_encoded(out@, w, h, s, pixels@, rb as int, xx),
            decreases stride - pad,
        {
            let ghost prev = out@;
            out.push(0);
            proof {
                assert forall|r: int, xx: int| 0 <= r < rb && 0 <= xx < w
                    implies #[trigger] pixel_encoded(out@, w, h, s, pixels@, r, xx)
                by {
                    assert(pixel_encoded(prev, w, h, s, pixels@, r, xx));
                }
                assert forall|xx: int| 0 <= xx < w
                    implies #[trigger] pixel_encoded(out@, w, h, s, pixels@, rb as int, xx)
                by {
                    assert(pixel_encoded(prev, w, h, s, pixels@, rb as int, xx));
                }
            }
            pad = pad + 1;
        }
        proof {
            assert(((rb as int) + 1) * s == (rb as int) * s + s) by (nonlinear_arith);
        }
        rb = rb + 1;
    }

    proof {
        assert(out@.len() == 54 + s * h) by (nonlinear_arith)
            requires
                out@.len() == 54 + (height as int) * s,
                h == height,
        ;
        let spec_pixels = Seq::new(
            (w * h) as nat,
            |i: int|
                {
                    let y = i / w;
                    let x = i % w;
                    let off = 54 + (h - 1 - y) * bmp_stride(w) + 3 * x;
                    (out@[off] + 256 * out@[off + 1] + 65536 * out@[off + 2]) as u32
                },
        );
        assert forall|i: int| 0 <= i < w * h implies spec_pixels[i] == pixels@[i] by {
            let y = i / w;
            let x = i % w;
            lemma_mod_bound(i, w);
            lemma_div_pos_is_pos(i, w);
            lemma_multiply_divide_lt(i, w, h);
            lemma_fundamental_div_mod(i, w);
            let rbi = h - 1 - y;
            assert(pixel_encoded(out@, w, h, s, pixels@, rbi, x));
            assert(pixels@[(h - 1 - rbi) * w + x] == pixels@[i]) by {
                assert(y * w + x == i);
            }
            lemma_le24_reconstruct(pixels@[i] as int);
        }
        assert(spec_pixels =~= pixels@);
        assert(decode_spec(out@) == Some((w, h, pixels@)));
    }
    out
}

/// Decodes one bitmap image back into its dimensions and top-to-bottom,
/// row-major pixel grid; bytes that are not exactly one image this codec
/// handles yield `None`.
pub fn decode_bmp(bytes: &Vec<u8>) -> (r: Option<(usize, usize, Vec<u32>)>)
    ensures
        match r {
            Some(t) => decode_spec(bytes@) == Some((t.0 as int, t.1 as int, t.2@)),
            None => decode_spec(bytes@) is None,
        },
{
    let n: usize = bytes.len();
    if n < BMP_HEADER_LEN {
        return None;
    }
    if bytes[0] != 66 || bytes[1] != 77 {
        return None;
    }
    let w32: u32 = (bytes[18] as u32) + 256 * (bytes[19] as u32) + 65536 * (bytes[20] as u32)
        + 16777216 * (bytes[21] as u32);
    let h32: u32 = (bytes[22] as u32) + 256 * (bytes[23] as u32) + 65536 * (bytes[24] as u32)
        + 16777216 * (bytes[25] as u32);
    if w32 == 0 || h32 == 0 || w32 > 8192 || h32 > 8192 {
        return None;
    }
    let width: usize = w32 as usize;
    let height: usize = h32 as usize;
    let stride: usize = (3 * width + 3) / 4 * 4;
    proof {
        assert(stride * height <= 24580 * 8192) by (nonlinear_arith)
            requires
                0 <= stride <= 24580,
                0 <= height <= 8192,
        ;
    }
    if n != 54 + stride * height {
        return None;
    }
    if bytes[28] != 24 || bytes[29] != 0 {
        return None;
    }

    let ghost w = width as int;
    let ghost h = height as int;
    let ghost s = stride as int;
    let ghost spec_pixels = decode_spec(bytes@)->Some_0.2;

    proof {
        assert(width * height <= 8192 * 8192) by (nonlinear_arith)
            requires
                0 < width <= 8192,
                0 < height <= 8192,
        ;
    }
    let count: usize = width * height;
    let mut pixels: Vec<u32> = Vec::new();
    let mut i: usize = 0;
    while i < count
        invariant
            i <= count,
            count == width * height,
            0 < width <= 8192,
            0 < height <= 8192,
            w == width,
            h == height,
            s == stride,
            stride == bmp_stride(w),
            3 * width <= stride <= 24580,
            bytes@.len() == 54 + stride * height,
            spec_pixels == decode_spec(bytes@)->Some_0.2,
            decode_spec(bytes@) is Some,
            decode_spec(bytes@)->Some_0.0 == w,
            decode_spec(bytes@)->Some_0.1 == h,
            pixels@.len() == i,
            forall|k: int| 0 <= k < i ==> pixels@[k] == #[trigger] spec_pixels[k],
        decreases count - i,
    {
        proof {
            lemma_mod_bound(i as int, w);
            lemma_div_pos_is_pos(i as int, w);
            lemma_multiply_divide_lt(i as int, w, h);
        }
        let y: usize = i / width;
        let x: usize = i % width;
        assert(y < height && x < width);
        let nb: usize = bytes.len();
        proof {
            assert(nb == 54 + (stride as int) * (height as int));
            assert(((height as int) - 1 - (y as int)) * (stride as int) + 3 * (x as int) + 3
                <= (stride as int) * (height as int)) by (nonlinear_arith)
                requires
                    0 <= (y as int) < height,
                    0 <= (x as int) < width,
                    3 * width <= stride,
                    0 < height,
                    0 < width,
            ;
            assert(0 <= ((height as int) - 1 - (y as int)) * (stride as int)) by (nonlinear_arith)
                requires
                    0 <= (y as int) < height,
                    0 < stride,
            ;
        }
        let off: usize = 54 + (height - 1 - y) * stride + 3 * x;
        assert(off + 3 <= nb);
        let p: u32 = (bytes[off] as u32) + 256 * (bytes[off + 1] as u32) + 65536 * (bytes[off
            + 2] as u32);
        pixels.push(p);
        i = i + 1;
    }
    proof {
        assert(pixels@ =~= spec_pixels);
    }
    Some((width, height, pixels))
}

} // verus!
