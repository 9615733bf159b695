//! Pixel buffers: channel order, nearest-neighbour resizing, and PNG encoding.
use vstd::prelude::*;
use crate::error::CoreError;
use image::ImageEncoder;

verus! {

/// The magnitude of `value` as an unsigned number.
pub fn abs_i32_to_u32(value: i32) -> (r: u32)
    ensures
        r as int == if value < 0 { -(value as int) } else { value as int },
{
    if value < 0 {
        (-(value as i64)) as u32
    } else {
        value as u32
    }
}

/// Where byte `i` of a buffer of `len` bytes comes from when the first and third
/// byte of every whole four-byte pixel trade places.
pub open spec fn swapped_index(len: int, i: int) -> int {
    if i < len / 4 * 4 && i % 4 == 0 {
        i + 2
    } else if i < len / 4 * 4 && i % 4 == 2 {
        i - 2
    } else {
        i
    }
}

/// `s` with the first and third byte of every whole four-byte pixel swapped.
pub open spec fn swapped(s: Seq<u8>) -> Seq<u8> {
    Seq::new(s.len(), |i: int| s[swapped_index(s.len() as int, i)])
}

/// Turns BGRA pixels into RGBA (and back) by swapping the first and third byte
/// of every whole four-byte pixel; a trailing partial pixel is left alone.
pub fn swap_red_blue(buf: &mut Vec<u8>)
    ensures
        final(buf)@.len() == old(buf)@.len(),
        final(buf)@ == swapped(old(buf)@),
        forall|i: int|
            0 <= i < old(buf)@.len() ==> #[trigger] final(buf)@[i] == old(buf)@[swapped_index(
                old(buf)@.len() as int,
                i,
            )],
{
    let ghost o = buf@;
    let n = buf.len();
    let whole = n / 4 * 4;
    let mut j: usize = 0;
    while j < whole
        invariant
            n == o.len() == buf@.len(),
            whole == n / 4 * 4,
            j <= whole,
            j % 4 == 0,
            forall|i: int| 0 <= i < j ==> #[trigger] buf@[i] == o[swapped_index(n as int, i)],
            forall|i: int| j <= i < n ==> #[trigger] buf@[i] == o[i],
        decreases whole - j,
    {
        let a = buf[j];
        let c = buf[j + 2];
        buf.set(j, c);
        buf.set(j + 2, a);
        j = j + 4;
    }
    assert(buf@ =~= swapped(o));
}

/// The name of the PNG file that the `image` crate writes for RGBA pixels.
pub uninterp spec fn png_of(rgba: Seq<u8>, width: u32, height: u32) -> Seq<u8>;

/// Relies on `image::codecs::png::PngEncoder::write_image` with `ColorType::Rgba8`:
/// it writes the PNG file of the pixels into a `Vec`, which fails only for a zero
/// width or height; it panics unless the buffer holds exactly four bytes per pixel.
#[verifier::external_body]
fn png_encode(rgba: &[u8], width: u32, height: u32) -> (r: Option<Vec<u8>>)
    requires
        rgba@.len() == width * height * 4,
    ensures
        match r {
            Some(b) => b@ == png_of(rgba@, width, height),
            None => true,
        },
        width > 0 && height > 0 ==> r is Some,
{
    let mut png = Vec::new();
    match image::codecs::png::PngEncoder::new(&mut png).write_image(
        rgba,
        width,
        height,
        image::ColorType::Rgba8,
    ) {
        Ok(()) => Some(png),
        Err(_) => None,
    }
}

/// Encodes `width` by `height` RGBA pixels as a PNG file.
pub fn encode_as_png(data: &[u8], width: usize, height: usize) -> (r: Result<Vec<u8>, CoreError>)
    requires
        width <= u32::MAX,
        height <= u32::MAX,
        data@.len() == width * height * 4,
    ensures
        match r {
            Ok(b) => b@ == png_of(data@, width as u32, height as u32),
            Err(e) => e is Other,
        },
        width > 0 && height > 0 ==> r is Ok,
{
    match png_encode(data, width as u32, height as u32) {
        Some(b) => Ok(b),
        None => Err(CoreError::Other("Failed to encode PNG".to_owned())),
    }
}

/// Position of channel `c` of pixel (`x`, `y`) in a buffer `w` pixels wide.
pub open spec fn pixel_at(w: int, x: int, y: int, c: int) -> int {
    (y * w + x) * 4 + c
}

/// The byte that nearest-neighbour resizing from `sw` by `sh` to `dw` by `dh`
/// puts at channel `c` of pixel (`x`, `y`): the source pixel's, or 0 where that
/// pixel lies beyond `data`.
pub open spec fn resized_byte(data: Seq<u8>, sw: int, sh: int, dw: int, dh: int, x: int, y: int, c: int) -> u8 {
    let si = pixel_at(sw, x * sw / dw, y * sh / dh, 0);
    if si + 3 < data.len() {
        data[si + c]
    } else {
        0
    }
}

proof fn lemma_earlier_pixel(w: int, x: int, y: int, x2: int, y2: int, c: int)
    requires
        0 <= x < w,
        0 <= x2 <= w,
        0 <= y,
        0 <= y2,
        0 <= c < 4,
        y < y2 || (y == y2 && x < x2),
    ensures
        pixel_at(w, x, y, c) < (y2 * w + x2) * 4,
        0 <= pixel_at(w, x, y, c),
{
    assert(y * w + x < y2 * w + x2) by (nonlinear_arith)
        requires
            0 <= x < w,
            0 <= x2 <= w,
            0 <= y,
            0 <= y2,
            y < y2 || (y == y2 && x < x2),
    ;
    assert(0 <= y * w) by (nonlinear_arith)
        requires
            0 <= y,
            0 <= w,
    ;
}

proof fn lemma_scaled_below(a: int, n: int, d: int)
    requires
        0 <= a < d,
        0 <= n,
    ensures
        0 <= a * n / d,
        n > 0 ==> a * n / d < n,
        n == 0 ==> a * n / d == 0,
        a * n <= d * n,
{
    assert(a * n <= d * n) by (nonlinear_arith)
        requires
            0 <= a < d,
            0 <= n,
    ;
    assert(0 <= a * n) by (nonlinear_arith)
        requires
            0 <= a,
            0 <= n,
    ;
    if n > 0 {
        assert(a * n < d * n) by (nonlinear_arith)
            requires
                0 <= a < d,
                0 < n,
        ;
        assert(a * n / d < n) by (nonlinear_arith)
            requires
                0 <= a * n < d * n,
                0 < d,
        ;
    } else {
        assert(a * n == 0) by (nonlinear_arith)
            requires
                n == 0,
        ;
    }
    assert(0 <= a * n / d) by (nonlinear_arith)
        requires
            0 <= a * n,
            0 < d,
    ;
}

/// Resizes `src_width` by `src_height` RGBA pixels to `dst_width` by
/// `dst_height` by nearest neighbour; a source pixel beyond `data` gives zeros.
pub fn resize_image(
    data: &[u8],
    src_width: usize,
    src_height: usize,
    dst_width: usize,
    dst_height: usize,
) -> (r: Result<Vec<u8>, CoreError>)
    requires
        dst_width * dst_height * 4 <= usize::MAX,
        dst_width * src_width <= usize::MAX,
        dst_height * src_height <= usize::MAX,
        src_width * src_height * 4 <= usize::MAX,
        src_width * 4 + 4 <= usize::MAX,
    ensures
        r is Ok,
        r->Ok_0@.len() == dst_width * dst_height * 4,
        forall|x: int, y: int, c: int|
            0 <= x < dst_width && 0 <= y < dst_height && 0 <= c < 4 ==> #[trigger] r->Ok_0@[pixel_at(
                dst_width as int,
                x,
                y,
                c,
            )] == resized_byte(
                data@,
                src_width as int,
                src_height as int,
                dst_width as int,
                dst_height as int,
                x,
                y,
                c,
            ),
{
    let sw = src_width;
    let sh = src_height;
    let dw = dst_width;
    let dh = dst_height;
    let mut out: Vec<u8> = Vec::new();
    let mut y: usize = 0;
    assert(0 * dw == 0) by (nonlinear_arith);
    while y < dh
        invariant
            y <= dh,
            dw * dh * 4 <= usize::MAX,
            dw * sw <= usize::MAX,
            dh * sh <= usize::MAX,
            sw * sh * 4 <= usize::MAX,
            sw * 4 + 4 <= usize::MAX,
            out@.len() == (y * dw + 0) * 4,
            forall|x2: int, y2: int, c: int|
                0 <= x2 < dw && 0 <= y2 < y && 0 <= c < 4 ==> #[trigger] out@[pixel_at(dw as int, x2, y2, c)]
                    == resized_byte(data@, sw as int, sh as int, dw as int, dh as int, x2, y2, c),
        decreases dh - y,
    {
        let mut x: usize = 0;
        while x < dw
            invariant
                x <= dw,
                y < dh,
                dw * dh * 4 <= usize::MAX,
                dw * sw <= usize::MAX,
                dh * sh <= usize::MAX,
                sw * sh * 4 <= usize::MAX,
                sw * 4 + 4 <= usize::MAX,
                out@.len() == (y * dw + x) * 4,
                forall|x2: int, y2: int, c: int|
                    0 <= x2 < dw && 0 <= y2 <= y && (y2 < y || x2 < x) && 0 <= c < 4
                        ==> #[trigger] out@[pixel_at(dw as int, x2, y2, c)] == resized_byte(
                        data@,
                        sw as int,
                        sh as int,
                        dw as int,
                        dh as int,
                        x2,
                        y2,
                        c,
                    ),
            decreases dw - x,
        {
            proof {
                lemma_scaled_below(x as int, sw as int, dw as int);
                lemma_scaled_below(y as int, sh as int, dh as int);
            }
            let sx = x * sw / dw;
            let sy = y * sh / dh;
            assert((sy * sw + sx) * 4 + 3 <= usize::MAX) by (nonlinear_arith)
                requires
                    sw > 0 && sh > 0 ==> sy < sh && sx < sw,
                    sw == 0 ==> sx == 0,
                    sh == 0 ==> sy == 0 && (sw > 0 ==> sx < sw),
                    sw * sh * 4 <= usize::MAX,
                    sw * 4 + 4 <= usize::MAX,
                    0 <= sy,
                    0 <= sx,
            ;
            let si = (sy * sw + sx) * 4;
            assert(si == pixel_at(sw as int, sx as int, sy as int, 0));
            let ghost before = out@;
            let ghost base = (y * dw + x) * 4;
            if si + 3 < data.len() {
                out.push(data[si]);
                out.push(data[si + 1]);
                out.push(data[si + 2]);
                out.push(data[si + 3]);
            } else {
                out.push(0);
                out.push(0);
                out.push(0);
                out.push(0);
            }
            assert forall|x2: int, y2: int, c: int|
                0 <= x2 < dw && 0 <= y2 <= y && (y2 < y || x2 < x + 1) && 0 <= c < 4
                    implies #[trigger] out@[pixel_at(dw as int, x2, y2, c)] == resized_byte(
                    data@,
                    sw as int,
                    sh as int,
                    dw as int,
                    dh as int,
                    x2,
                    y2,
                    c,
                ) by {
                if y2 < y || x2 < x {
                    lemma_earlier_pixel(dw as int, x2, y2, x as int, y as int, c);
                    assert(out@[pixel_at(dw as int, x2, y2, c)] == before[pixel_at(dw as int, x2, y2, c)]);
                } else {
                    assert(x2 == x && y2 == y);
                    assert(pixel_at(dw as int, x2, y2, c) == base + c);
                }
            }
            assert((y * dw + x) * 4 + 4 == (y * dw + (x + 1)) * 4);
            x = x + 1;
        }
        assert(y * dw + dw == (y + 1) * dw) by (nonlinear_arith);
        y = y + 1;
    }
    assert(out@.len() == dw * dh * 4) by (nonlinear_arith)
        requires
            out@.len() == (y * dw + 0) * 4,
            y == dh,
    ;
    Ok(out)
}


/// The fields of a bitmap info header that decoding reads.
#[derive(Debug, Clone, Copy)]
pub struct DibHeader {
    pub width: i32,
    pub height: i32,
    pub bit_count: u16,
    pub header_size: u32,
}

/// Why a device-independent bitmap cannot be decoded.
#[derive(Debug, Clone, Copy, PartialEq, Eq)]
pub enum DibError {
    /// Fewer bytes than a bitmap info header.
    HeaderTooSmall,
    /// A compression other than none, with its code.
    Compressed(u32),
    /// The rows that the header describes do not fit in the data.
    BufferTooSmall,
    /// A pixel size other than 24 or 32 bits, with that size.
    UnsupportedDepth(u16),
    /// More pixels than a buffer can hold.
    TooLarge,
}

/// Size of a bitmap info header in bytes.
pub const DIB_HEADER_LEN: usize = 40;

/// The little-endian 32-bit number at `at`.
pub open spec fn le_u32(b: Seq<u8>, at: int) -> int {
    b[at] + 256 * b[at + 1] + 65536 * b[at + 2] + 16777216 * b[at + 3]
}

/// The little-endian 16-bit number at `at`.
pub open spec fn le_u16(b: Seq<u8>, at: int) -> int {
    b[at] + 256 * b[at + 1]
}

/// A 32-bit pattern read as a two's-complement number.
pub open spec fn signed32(v: int) -> int {
    if v >= 0x8000_0000 {
        v - 0x1_0000_0000
    } else {
        v
    }
}

/// The header of the bitmap `data`: sizes, then compression at 16, which must be none.
pub open spec fn dib_header(data: Seq<u8>) -> Result<DibHeader, DibError> {
    if data.len() < 40 {
        Err(DibError::HeaderTooSmall)
    } else if le_u32(data, 16) != 0 {
        Err(DibError::Compressed(le_u32(data, 16) as u32))
    } else {
        Ok(
            DibHeader {
                width: signed32(le_u32(data, 4)) as i32,
                height: signed32(le_u32(data, 8)) as i32,
                bit_count: le_u16(data, 14) as u16,
                header_size: le_u32(data, 0) as u32,
            },
        )
    }
}

fn read_u32(b: &[u8], at: usize) -> (r: u32)
    requires
        at + 4 <= b@.len(),
    ensures
        r as int == le_u32(b@, at as int),
{
    b[at] as u32 + (b[at + 1] as u32) * 256 + (b[at + 2] as u32) * 65536 + (b[at + 3] as u32)
        * 16777216
}

fn to_signed(v: u32) -> (r: i32)
    ensures
        r as int == signed32(v as int),
{
    if v >= 0x8000_0000 {
        (v as i64 - 0x1_0000_0000i64) as i32
    } else {
        v as i32
    }
}

/// Reads the bitmap info header at the start of `data`.
pub fn parse_bitmap_header(data: &[u8]) -> (r: Result<DibHeader, DibError>)
    ensures
        r == dib_header(data@),
{
    if data.len() < DIB_HEADER_LEN {
        return Err(DibError::HeaderTooSmall);
    }
    let compression = read_u32(data, 16);
    if compression != 0 {
        return Err(DibError::Compressed(compression));
    }
    let bit_count = (data[14] as u32 + (data[15] as u32) * 256) as u16;
    Ok(
        DibHeader {
            width: to_signed(read_u32(data, 4)),
            height: to_signed(read_u32(data, 8)),
            bit_count,
            header_size: read_u32(data, 0),
        },
    )
}

/// Absolute value.
pub open spec fn abs(v: int) -> int {
    if v < 0 {
        -v
    } else {
        v
    }
}

/// Bytes per row: the row's bits rounded up to whole 32-bit words.
pub open spec fn dib_stride(h: DibHeader) -> int {
    (h.bit_count * abs(h.width as int) + 31) / 32 * 4
}

/// The stored row that holds row `r` of the image, counting from the top.
pub open spec fn dib_row(h: DibHeader, r: int) -> int {
    if h.height < 0 {
        r
    } else {
        abs(h.height as int) - 1 - r
    }
}

/// The RGBA byte of channel `c` of pixel (`x`, `r`): from BGRA or BGR pixels,
/// with opaque alpha for BGR.
pub open spec fn dib_byte(data: Seq<u8>, h: DibHeader, x: int, r: int, c: int) -> u8 {
    let start = h.header_size + dib_row(h, r) * dib_stride(h);
    if h.bit_count == 32 {
        data[start + x * 4 + (if c == 3 { 3 } else { 2 - c })]
    } else if c == 3 {
        255
    } else {
        data[start + x * 3 + (2 - c)]
    }
}

/// The RGBA pixels of an uncompressed bitmap with header `h`, or why there are none.
pub open spec fn dib_pixels_ok(data: Seq<u8>, h: DibHeader, out: Seq<u8>) -> bool {
    let w = abs(h.width as int);
    let ht = abs(h.height as int);
    out.len() == w * ht * 4 && forall|x: int, r: int, c: int|
        0 <= x < w && 0 <= r < ht && 0 <= c < 4 ==> #[trigger] out[pixel_at(w, x, r, c)]
            == dib_byte(data, h, x, r, c)
}

/// Why the bitmap with header `h` cannot be decoded, if it cannot.
pub open spec fn dib_failure(data: Seq<u8>, h: DibHeader) -> Option<DibError> {
    let ht = abs(h.height as int);
    if h.header_size + dib_stride(h) * ht > data.len() {
        Some(DibError::BufferTooSmall)
    } else if ht > 0 && h.bit_count != 32 && h.bit_count != 24 {
        Some(DibError::UnsupportedDepth(h.bit_count))
    } else if abs(h.width as int) * ht * 4 > usize::MAX {
        Some(DibError::TooLarge)
    } else {
        None
    }
}

proof fn lemma_stride_holds_row(bits: int, w: int, stride: int)
    requires
        bits == 24 || bits == 32,
        0 <= w,
        stride == (bits * w + 31) / 32 * 4,
    ensures
        w * (bits / 8) <= stride,
{
    let b = bits * w;
    assert(b == (bits / 8) * w * 8) by (nonlinear_arith)
        requires
            bits == 24 || bits == 32,
            b == bits * w,
    ;
    assert((b + 31) / 32 * 32 >= b);
    assert(w * (bits / 8) == (bits / 8) * w) by (nonlinear_arith);
}

proof fn lemma_row_fits(row: int, ht: int, stride: int)
    requires
        0 <= row < ht,
        0 <= stride,
    ensures
        row * stride + stride <= stride * ht,
        0 <= row * stride,
{
    assert(row * stride + stride <= stride * ht) by (nonlinear_arith)
        requires
            0 <= row < ht,
            0 <= stride,
    ;
    assert(0 <= row * stride) by (nonlinear_arith)
        requires
            0 <= row,
            0 <= stride,
    ;
}

/// Decodes the rows of an uncompressed 24- or 32-bit bitmap into RGBA pixels,
/// top row first.
pub fn dib_to_rgba(data: &[u8], h: DibHeader) -> (r: Result<Vec<u8>, DibError>)
    ensures
        match r {
            Ok(out) => dib_failure(data@, h).is_none() && dib_pixels_ok(data@, h, out@),
            Err(e) => dib_failure(data@, h) == Some(e),
        },
{
    let w = abs_i32_to_u32(h.width) as u128;
    let ht = abs_i32_to_u32(h.height) as u128;
    let bits = h.bit_count as u128;
    assert(bits * w <= 0x1_0000 * 0x1_0000_0000) by (nonlinear_arith)
        requires
            bits <= 0xFFFF,
            w <= 0x1_0000_0000,
    ;
    let stride = (bits * w + 31) / 32 * 4;
    assert(stride <= 0x1_0000_0000_0000);
    let offset = h.header_size as u128;
    assert(stride * ht <= 0x1_0000_0000_0000 * 0x1_0000_0000) by (nonlinear_arith)
        requires
            stride <= 0x1_0000_0000_0000,
            ht <= 0x1_0000_0000,
    ;
    if offset + stride * ht > data.len() as u128 {
        return Err(DibError::BufferTooSmall);
    }
    if ht > 0 && bits != 32 && bits != 24 {
        return Err(DibError::UnsupportedDepth(h.bit_count));
    }
    assert(w * ht * 4 <= 0x1_0000_0000 * 0x1_0000_0000 * 4) by (nonlinear_arith)
        requires
            w <= 0x1_0000_0000,
            ht <= 0x1_0000_0000,
    ;
    if w * ht * 4 > usize::MAX as u128 {
        return Err(DibError::TooLarge);
    }
    if ht == 0 {
        assert(w * ht * 4 == 0) by (nonlinear_arith)
            requires
                ht == 0,
        ;
        return Ok(Vec::new());
    }
    assert(stride <= stride * ht) by (nonlinear_arith)
        requires
            ht >= 1,
    ;
    assert(stride as int == dib_stride(h));
    let wu = w as usize;
    let hu = ht as usize;
    let su = stride as usize;
    let ou = offset as usize;
    let bpp: usize = if bits == 32 { 4 } else { 3 };
    assert(su as int * hu as int == stride as int * ht as int);
    let dl = data.len();
    assert(ou + su * hu <= dl);
    proof {
        if ht > 0 {
            lemma_stride_holds_row(bits as int, w as int, stride as int);
        }
    }
    let mut out: Vec<u8> = Vec::new();
    let mut row: usize = 0;
    assert(0 * wu == 0) by (nonlinear_arith);
    while row < hu
        invariant
            row <= hu,
            hu == abs(h.height as int),
            wu == abs(h.width as int),
            su == dib_stride(h),
            ou == h.header_size,
            ou + su * hu <= dl,
            dl == data@.len(),
            hu > 0 ==> wu * bpp <= su,
            bpp == 4 ==> h.bit_count == 32,
            bpp == 3 ==> h.bit_count == 24,
            bpp == 3 || bpp == 4,
            out@.len() == (row * wu + 0) * 4,
            forall|x2: int, r2: int, c: int|
                0 <= x2 < wu && 0 <= r2 < row && 0 <= c < 4 ==> #[trigger] out@[pixel_at(wu as int, x2, r2, c)]
                    == dib_byte(data@, h, x2, r2, c),
        decreases hu - row,
    {
        let src_row = if h.height < 0 { row } else { hu - 1 - row };
        proof {
            lemma_row_fits(src_row as int, hu as int, su as int);
        }
        let start = ou + src_row * su;
        let mut x: usize = 0;
        while x < wu
            invariant
                x <= wu,
                row < hu,
                hu == abs(h.height as int),
                wu == abs(h.width as int),
                su == dib_stride(h),
                ou == h.header_size,
                start == ou + dib_row(h, row as int) * su,
                start + su <= dl,
                dl == data@.len(),
                wu * bpp <= su,
                bpp == 4 ==> h.bit_count == 32,
                bpp == 3 ==> h.bit_count == 24,
                bpp == 3 || bpp == 4,
                out@.len() == (row * wu + x) * 4,
                forall|x2: int, r2: int, c: int|
                    0 <= x2 < wu && 0 <= r2 <= row && (r2 < row || x2 < x) && 0 <= c < 4
                        ==> #[trigger] out@[pixel_at(wu as int, x2, r2, c)] == dib_byte(data@, h, x2, r2, c),
            decreases wu - x,
        {
            assert(x * bpp + bpp <= su) by (nonlinear_arith)
                requires
                    x < wu,
                    wu * bpp <= su,
            ;
            let p = start + x * bpp;
            let ghost before = out@;
            let ghost base = (row * wu + x) * 4;
            if bpp == 4 {
                out.push(data[p + 2]);
                out.push(data[p + 1]);
                out.push(data[p]);
                out.push(data[p + 3]);
            } else {
                out.push(data[p + 2]);
                out.push(data[p + 1]);
                out.push(data[p]);
                out.push(255);
            }
            assert forall|x2: int, r2: int, c: int|
                0 <= x2 < wu && 0 <= r2 <= row && (r2 < row || x2 < x + 1) && 0 <= c < 4
                    implies #[trigger] out@[pixel_at(wu as int, x2, r2, c)] == dib_byte(data@, h, x2, r2, c) by {
                if r2 < row || x2 < x {
                    lemma_earlier_pixel(wu as int, x2, r2, x as int, row as int, c);
                    assert(out@[pixel_at(wu as int, x2, r2, c)] == before[pixel_at(wu as int, x2, r2, c)]);
                } else {
                    assert(pixel_at(wu as int, x2, r2, c) == base + c);
                }
            }
            assert((row * wu + x) * 4 + 4 == (row * wu + (x + 1)) * 4);
            x = x + 1;
        }
        assert(row * wu + wu == (row + 1) * wu) by (nonlinear_arith);
        row = row + 1;
    }
    assert(out@.len() == wu * hu * 4) by (nonlinear_arith)
        requires
            out@.len() == (row * wu + 0) * 4,
            row == hu,
    ;
    Ok(out)
}


/// Side of the square icons that the library hands out.
pub const ICON_SIZE: usize = 48;

/// `px` holds the RGBA pixels of the bitmap `data` with header `h`.
pub open spec fn decoded_as(data: Seq<u8>, h: DibHeader, px: Seq<u8>) -> bool {
    dib_failure(data, h).is_none() && dib_pixels_ok(data, h, px)
}

/// The PNG file of a clipboard bitmap (a bitmap info header followed by rows of
/// 24- or 32-bit pixels).
pub fn clipboard_image_png(data: &[u8]) -> (r: Result<Vec<u8>, CoreError>)
    ensures
        r is Ok ==> dib_header(data@) is Ok && exists|px: Seq<u8>|
            decoded_as(data@, dib_header(data@)->Ok_0, px) && r->Ok_0@ == png_of(
                px,
                abs(dib_header(data@)->Ok_0.width as int) as u32,
                abs(dib_header(data@)->Ok_0.height as int) as u32,
            ),
        dib_header(data@) is Err ==> r is Err,
        dib_header(data@) is Ok && dib_failure(data@, dib_header(data@)->Ok_0) is Some ==> r is Err,
        dib_header(data@) is Ok && dib_failure(data@, dib_header(data@)->Ok_0) is None
            && dib_header(data@)->Ok_0.width != 0 && dib_header(data@)->Ok_0.height != 0 ==> r is Ok,
{
    let h = match parse_bitmap_header(data) {
        Ok(h) => h,
        Err(DibError::HeaderTooSmall) => return Err(CoreError::Other("clipboard DIB header too small".to_owned())),
        Err(_) => return Err(CoreError::Other("unsupported clipboard DIB compression".to_owned())),
    };
    let px = match dib_to_rgba(data, h) {
        Ok(px) => px,
        Err(DibError::BufferTooSmall) => return Err(CoreError::Other("clipboard DIB buffer too small".to_owned())),
        Err(DibError::UnsupportedDepth(_)) => return Err(CoreError::Other("unsupported clipboard bit depth".to_owned())),
        Err(_) => return Err(CoreError::Other("clipboard image too large".to_owned())),
    };
    let w = abs_i32_to_u32(h.width) as usize;
    let ht = abs_i32_to_u32(h.height) as usize;
    assert(decoded_as(data@, h, px@));
    match encode_as_png(px.as_slice(), w, ht) {
        Ok(b) => Ok(b),
        Err(_) => Err(CoreError::Other("encode clipboard image failed".to_owned())),
    }
}

/// `px` holds the pixels of `rgba` (`w` by `h`) resized to an icon.
pub open spec fn icon_pixels(rgba: Seq<u8>, w: int, h: int, px: Seq<u8>) -> bool {
    px.len() == 48 * 48 * 4 && forall|x: int, y: int, c: int|
        0 <= x < 48 && 0 <= y < 48 && 0 <= c < 4 ==> #[trigger] px[pixel_at(48, x, y, c)]
            == resized_byte(rgba, w, h, 48, 48, x, y, c)
}

/// The PNG icon of `width` by `height` BGRA pixels: turned into RGBA, resized to
/// 48 by 48 by nearest neighbour where it has another size, and encoded.
pub fn icon_png(bgra: Vec<u8>, width: usize, height: usize) -> (r: Result<Vec<u8>, CoreError>)
    requires
        width * height * 4 <= usize::MAX,
        48 * width <= usize::MAX,
        48 * height <= usize::MAX,
        width * 4 + 4 <= usize::MAX,
    ensures
        r is Ok,
        r is Ok ==> (if width == 48 && height == 48 && bgra@.len() == 48 * 48 * 4 {
            r->Ok_0@ == png_of(swapped(bgra@), 48, 48)
        } else {
            exists|px: Seq<u8>|
                icon_pixels(swapped(bgra@), width as int, height as int, px) && r->Ok_0@
                    == png_of(px, 48, 48)
        }),
{
    let mut buf = bgra;
    swap_red_blue(&mut buf);
    if width == ICON_SIZE && height == ICON_SIZE && buf.len() == ICON_SIZE * ICON_SIZE * 4 {
        return encode_as_png(buf.as_slice(), ICON_SIZE, ICON_SIZE);
    }
    let resized = match resize_image(buf.as_slice(), width, height, ICON_SIZE, ICON_SIZE) {
        Ok(v) => v,
        Err(e) => return Err(e),
    };
    encode_as_png(resized.as_slice(), ICON_SIZE, ICON_SIZE)
}

/// The PNG file of a `width` by `height` screen capture in BGRA order.
pub fn screenshot_png(bgra: Vec<u8>, width: u32, height: u32) -> (r: Result<Vec<u8>, CoreError>)
    requires
        bgra@.len() == width * height * 4,
    ensures
        r is Ok ==> r->Ok_0@ == png_of(swapped(bgra@), width, height),
        width > 0 && height > 0 ==> r is Ok,
{
    let mut buf = bgra;
    swap_red_blue(&mut buf);
    encode_as_png(buf.as_slice(), width as usize, height as usize)
}

} // verus!
