//! The decoded source image: its identity hash, regions of interest, crops
//! and reference PNGs.
use vstd::prelude::*;

use crate::digest::{digest_hex, digest_text};
use crate::error::{StudioError, StudioResult};
use crate::text::{le32, lemma_le32_injective, push_le32};

verus! {

pub const PREVIEW_MAX_EDGE: u32 = 1600;

/// A rectangle in original-image pixel coordinates.
#[derive(Debug, Clone, Copy, PartialEq, Eq, Structural)]
pub struct Rect {
    pub x: u32,
    pub y: u32,
    pub w: u32,
    pub h: u32,
}

/// RGBA8 pixels in row-major order, the shape the tracer consumes.
#[derive(Debug, Clone, PartialEq, Eq)]
pub struct ColorImage {
    pub pixels: Vec<u8>,
    pub width: usize,
    pub height: usize,
}

/// What the desktop shell reports about a loaded image.
#[derive(Debug, Clone, PartialEq, Eq)]
pub struct ImageInfo {
    pub width: u32,
    pub height: u32,
    pub file_size: u64,
    pub hash: String,
    /// Path of the downscaled whole-image preview PNG; display-only.
    pub preview_path: String,
}

/// The PNG encoding (image crate, RGBA8) of row-major pixels.
pub uninterp spec fn png_rgba8(pixels: Seq<u8>, width: u32, height: u32) -> Seq<u8>;

/// `image::write_buffer_with_format` with `ExtendedColorType::Rgba8` and
/// `ImageFormat::Png` into an in-memory buffer (what `RgbaImage::write_to`
/// does). The PNG encoder asserts that the buffer holds `4·w·h` bytes. Its
/// header check refuses exactly a zero width or a zero height; every other
/// step writes into the growing buffer and cannot fail, so the call succeeds
/// on every non-empty image, with the bytes named by `png_rgba8`.
#[verifier::external_body]
fn encode_png_rgba8(pixels: &[u8], width: u32, height: u32) -> (r: Result<Vec<u8>, image::ImageError>)
    requires
        pixels@.len() == 4 * width * height,
    ensures
        r is Ok <==> (width > 0 && height > 0),
        r matches Ok(b) ==> b@ == png_rgba8(pixels@, width, height),
{
    let mut buf = std::io::Cursor::new(Vec::new());
    image::write_buffer_with_format(
        &mut buf,
        pixels,
        width,
        height,
        image::ExtendedColorType::Rgba8,
        image::ImageFormat::Png,
    )?;
    Ok(buf.into_inner())
}

/// The bytes hashed into an image's identity: pixels, then width and height
/// as little-endian `u32`.
pub open spec fn image_hash_message(rgba: Seq<u8>, width: u32, height: u32) -> Seq<u8> {
    rgba + (le32(width) + le32(height))
}

/// The identity of decoded pixels: lowercase hex BLAKE3 of pixels + dimensions.
pub open spec fn image_hash_text(rgba: Seq<u8>, width: u32, height: u32) -> Seq<char> {
    digest_text(image_hash_message(rgba, width, height))
}

/// `roi` is non-empty and lies inside a `width × height` image.
pub open spec fn roi_fits(roi: Rect, width: u32, height: u32) -> bool {
    roi.w > 0 && roi.h > 0 && roi.x + roi.w <= width && roi.y + roi.h <= height
}

/// Byte offset of the first pixel of row `r` of `roi`.
pub open spec fn roi_row_start(width: u32, roi: Rect, r: int) -> int {
    ((roi.y + r) * width + roi.x) * 4
}

/// The first `rows` rows of `roi`, each `4·roi.w` bytes, concatenated.
pub open spec fn crop_rows(pixels: Seq<u8>, width: u32, roi: Rect, rows: nat) -> Seq<u8>
    decreases rows,
{
    if rows == 0 {
        seq![]
    } else {
        crop_rows(pixels, width, roi, (rows - 1) as nat) + pixels.subrange(
            roi_row_start(width, roi, rows - 1),
            roi_row_start(width, roi, rows - 1) + 4 * roi.w,
        )
    }
}

/// The pixels of `roi`, row by row.
pub open spec fn crop_pixels(pixels: Seq<u8>, width: u32, roi: Rect) -> Seq<u8> {
    crop_rows(pixels, width, roi, roi.h as nat)
}

/// The decoded source image. Pixels stay in Rust; the hash is the cache
/// identity (two files with identical pixels share cache entries).
pub struct LoadedImage {
    rgba: Vec<u8>,
    width: u32,
    height: u32,
    hash: String,
}

impl LoadedImage {
    #[verifier::type_invariant]
    spec fn inv(self) -> bool {
        &&& self.rgba@.len() == 4 * self.width * self.height
        &&& self.hash@ == image_hash_text(self.rgba@, self.width, self.height)
        &&& self.hash@.len() == 64
    }

    pub closed spec fn pixels_view(self) -> Seq<u8> {
        self.rgba@
    }

    pub closed spec fn width_view(self) -> u32 {
        self.width
    }

    pub closed spec fn height_view(self) -> u32 {
        self.height
    }

    pub closed spec fn hash_view(self) -> Seq<char> {
        self.hash@
    }

    /// Takes decoded RGBA8 pixels and computes their identity hash.
    pub fn from_rgba(rgba: Vec<u8>, width: u32, height: u32) -> (img: LoadedImage)
        requires
            rgba@.len() == 4 * width * height,
        ensures
            img.pixels_view() == rgba@,
            img.width_view() == width,
            img.height_view() == height,
            img.hash_view() == image_hash_text(rgba@, width, height),
    {
        let mut dims: Vec<u8> = Vec::new();
        push_le32(&mut dims, width);
        push_le32(&mut dims, height);
        assert(dims@ =~= le32(width) + le32(height));
        let hash = digest_hex(rgba.as_slice(), dims.as_slice());
        LoadedImage { rgba, width, height, hash }
    }

    pub fn width(&self) -> (w: u32)
        ensures
            w == self.width_view(),
    {
        self.width
    }

    pub fn height(&self) -> (h: u32)
        ensures
            h == self.height_view(),
    {
        self.height
    }

    /// The identity hash (64 lowercase hex characters).
    pub fn hash(&self) -> (h: &str)
        ensures
            h@ == self.hash_view(),
            h@ == image_hash_text(self.pixels_view(), self.width_view(), self.height_view()),
            h@.len() == 64,
    {
        proof {
            use_type_invariant(self);
        }
        self.hash.as_str()
    }

    /// The RGBA8 pixels, row-major.
    pub fn rgba(&self) -> (p: &[u8])
        ensures
            p@ == self.pixels_view(),
            p@.len() == 4 * self.width_view() * self.height_view(),
    {
        proof {
            use_type_invariant(self);
        }
        self.rgba.as_slice()
    }

    /// `Ok` exactly when `roi` is non-empty and inside the image.
    pub fn check_roi(&self, roi: Rect) -> (r: StudioResult<()>)
        ensures
            roi_fits(roi, self.width_view(), self.height_view()) ==> r is Ok,
            !roi_fits(roi, self.width_view(), self.height_view()) ==> r == StudioResult::<()>::Err(
                StudioError::InvalidRoi {
                    width: self.width_view(),
                    height: self.height_view(),
                    x: roi.x,
                    y: roi.y,
                    w: roi.w,
                    h: roi.h,
                },
            ),
    {
        let (w, h) = (self.width, self.height);
        let fits = roi.w > 0 && roi.h > 0 && roi.x as u64 + roi.w as u64 <= w as u64 && roi.y as u64
            + roi.h as u64 <= h as u64;
        if fits {
            Ok(())
        } else {
            Err(StudioError::InvalidRoi { width: w, height: h, x: roi.x, y: roi.y, w: roi.w, h: roi.h })
        }
    }

    fn crop_bytes(&self, roi: Rect) -> (out: Vec<u8>)
        requires
            roi_fits(roi, self.width_view(), self.height_view()),
        ensures
            out@ == crop_pixels(self.pixels_view(), self.width_view(), roi),
    {
        proof {
            use_type_invariant(self);
        }
        let ghost px = self.rgba@;
        let total = self.rgba.len();
        let ghost len = px.len();
        assert(len == total);
        let mut out: Vec<u8> = Vec::new();
        let mut r: u32 = 0;
        while r < roi.h
            invariant
                roi_fits(roi, self.width, self.height),
                px == self.rgba@,
                len == px.len(),
                len == 4 * self.width * self.height,
                len <= usize::MAX,
                r <= roi.h,
                out@ == crop_rows(px, self.width, roi, r as nat),
            decreases roi.h - r,
        {
            let ghost row_y = roi.y + r;
            proof {
                lemma_row_within(self.width as int, self.height as int, row_y, roi.x as int, roi.w as int);
            }
            let start: usize = ((roi.y as usize + r as usize) * self.width as usize + roi.x as usize) * 4;
            let end: usize = start + 4 * roi.w as usize;
            assert(start == roi_row_start(self.width, roi, r as int));
            let mut i: usize = start;
            let ghost base = out@;
            while i < end
                invariant
                    px == self.rgba@,
                    len == px.len(),
                    start <= i <= end,
                    end <= len,
                    out@ == base + px.subrange(start as int, i as int),
                decreases end - i,
            {
                out.push(self.rgba[i]);
                i = i + 1;
                assert(out@ =~= base + px.subrange(start as int, i as int));
            }
            r = r + 1;
        }
        out
    }

    /// Crops the region of interest into a fresh pixel buffer.
    pub fn crop_roi(&self, roi: Rect) -> (r: StudioResult<ColorImage>)
        ensures
            roi_fits(roi, self.width_view(), self.height_view()) ==> (r matches Ok(c) && c.pixels@
                == crop_pixels(self.pixels_view(), self.width_view(), roi) && c.width == roi.w
                && c.height == roi.h),
            !roi_fits(roi, self.width_view(), self.height_view()) ==> (r matches Err(
                StudioError::InvalidRoi { width, height, x, y, w, h },
            ) && width == self.width_view() && height == self.height_view() && x == roi.x && y
                == roi.y && w == roi.w && h == roi.h),
    {
        match self.check_roi(roi) {
            Err(e) => Err(e),
            Ok(()) => {
                let pixels = self.crop_bytes(roi);
                Ok(ColorImage { pixels, width: roi.w as usize, height: roi.h as usize })
            },
        }
    }

    /// The whole image as a pixel buffer (one copy of the pixels).
    pub fn to_color_image(&self) -> (c: ColorImage)
        ensures
            c.pixels@ == self.pixels_view(),
            c.width == self.width_view(),
            c.height == self.height_view(),
    {
        let pixels = self.rgba.clone();
        assert(pixels@ =~= self.rgba@);
        ColorImage { pixels, width: self.width as usize, height: self.height as usize }
    }

    /// Full-resolution PNG of the region of interest.
    pub fn roi_reference_png(&self, roi: Rect) -> (r: StudioResult<Vec<u8>>)
        ensures
            roi_fits(roi, self.width_view(), self.height_view()) ==> (r matches Ok(b) && b@
                == png_rgba8(crop_pixels(self.pixels_view(), self.width_view(), roi), roi.w, roi.h)),
            !roi_fits(roi, self.width_view(), self.height_view()) ==> (r matches Err(
                StudioError::InvalidRoi { width, height, x, y, w, h },
            ) && width == self.width_view() && height == self.height_view() && x == roi.x && y
                == roi.y && w == roi.w && h == roi.h),
    {
        match self.check_roi(roi) {
            Err(e) => Err(e),
            Ok(()) => {
                let pixels = self.crop_bytes(roi);
                proof {
                    use_type_invariant(self);
                    assert(4 * self.width * (roi.y + roi.h) <= 4 * self.width * self.height) by (
                    nonlinear_arith)
                        requires
                            roi.y + roi.h <= self.height,
                    ;
                    lemma_crop_len(self.pixels_view(), self.width_view(), roi, roi.h as nat);
                    assert(4 * roi.w * roi.h == 4 * roi.w * (roi.h as nat));
                }
                encode_png(&pixels, roi.w, roi.h)
            },
        }
    }
}

/// Encodes RGBA8 pixels as PNG.
pub fn encode_png(pixels: &Vec<u8>, width: u32, height: u32) -> (r: StudioResult<Vec<u8>>)
    requires
        pixels@.len() == 4 * width * height,
    ensures
        width > 0 && height > 0 ==> (r matches Ok(b) && b@ == png_rgba8(pixels@, width, height)),
        !(width > 0 && height > 0) ==> (r matches Err(e) && e is Image),
{
    match encode_png_rgba8(pixels.as_slice(), width, height) {
        Ok(b) => Ok(b),
        Err(e) => Err(StudioError::Image(e)),
    }
}

proof fn lemma_row_within(width: int, height: int, row_y: int, x: int, w: int)
    requires
        0 <= row_y < height,
        0 <= x,
        0 <= w,
        x + w <= width,
    ensures
        0 <= (row_y * width + x) * 4,
        (row_y * width + x) * 4 + 4 * w <= 4 * width * height,
        row_y * width <= width * height,
{
    assert(row_y * width + width <= width * height) by (nonlinear_arith)
        requires
            0 <= row_y < height,
            0 <= width,
    ;
    assert(0 <= row_y * width) by (nonlinear_arith)
        requires
            0 <= row_y,
            0 <= x + w <= width,
    ;
    assert((row_y * width + x) * 4 + 4 * w <= 4 * width * height) by (nonlinear_arith)
        requires
            row_y * width + width <= width * height,
            x + w <= width,
    ;
}

/// A crop of `rows` rows holds `4·roi.w` bytes per row.
pub proof fn lemma_crop_len(pixels: Seq<u8>, width: u32, roi: Rect, rows: nat)
    requires
        pixels.len() >= 4 * width * (roi.y + rows),
        roi.x + roi.w <= width,
    ensures
        crop_rows(pixels, width, roi, rows).len() == 4 * roi.w * rows,
    decreases rows,
{
    if rows > 0 {
        let r = rows - 1;
        assert(4 * width * (roi.y + r) <= 4 * width * (roi.y + rows)) by (nonlinear_arith)
            requires
                r <= rows,
                width >= 0,
        ;
        lemma_crop_len(pixels, width, roi, r as nat);
        assert(roi_row_start(width, roi, r) + 4 * roi.w <= 4 * width * (roi.y + rows)) by (
        nonlinear_arith)
            requires
                r + 1 == rows,
                roi.x + roi.w <= width,
        ;
        assert(0 <= roi_row_start(width, roi, r)) by (nonlinear_arith)
            requires
                r >= 0,
        ;
        assert(4 * roi.w * rows == 4 * roi.w * r + 4 * roi.w) by (nonlinear_arith)
            requires
                r + 1 == rows,
        ;
        let prev = crop_rows(pixels, width, roi, r as nat);
        let seg = pixels.subrange(roi_row_start(width, roi, r), roi_row_start(width, roi, r) + 4 * roi.w);
        assert(seg.len() == 4 * roi.w);
        assert(crop_rows(pixels, width, roi, rows) == prev + seg);
    } else {
        assert(4 * roi.w * rows == 0) by (nonlinear_arith)
            requires
                rows == 0,
        ;
    }
}

/// Pixel byte `i` of row `r` of a crop is byte `i` of row `roi.y + r`,
/// starting at column `roi.x`, of the source.
pub proof fn lemma_crop_pixel(pixels: Seq<u8>, width: u32, roi: Rect, rows: nat, r: int, i: int)
    requires
        pixels.len() >= 4 * width * (roi.y + rows),
        roi.x + roi.w <= width,
        0 <= r < rows,
        0 <= i < 4 * roi.w,
    ensures
        0 <= r * (4 * roi.w) + i < crop_rows(pixels, width, roi, rows).len(),
        crop_rows(pixels, width, roi, rows)[r * (4 * roi.w) + i] == pixels[roi_row_start(
            width,
            roi,
            r,
        ) + i],
    decreases rows,
{
    let last = rows - 1;
    assert(4 * width * (roi.y + last) <= 4 * width * (roi.y + rows)) by (nonlinear_arith)
        requires
            last <= rows,
            width >= 0,
    ;
    lemma_crop_len(pixels, width, roi, last as nat);
    lemma_crop_len(pixels, width, roi, rows);
    let prev = crop_rows(pixels, width, roi, last as nat);
    let start = roi_row_start(width, roi, last);
    assert(0 <= start) by (nonlinear_arith)
        requires
            last >= 0,
            start == ((roi.y + last) * width + roi.x) * 4,
    ;
    assert(start + 4 * roi.w <= 4 * width * (roi.y + rows)) by (nonlinear_arith)
        requires
            last + 1 == rows,
            roi.x + roi.w <= width,
            start == ((roi.y + last) * width + roi.x) * 4,
    ;
    assert(crop_rows(pixels, width, roi, rows) == prev + pixels.subrange(start, start + 4 * roi.w));
    assert(0 <= r * (4 * roi.w) + i < 4 * roi.w * rows) by (nonlinear_arith)
        requires
            0 <= r < rows,
            0 <= i < 4 * roi.w,
    ;
    if r < last {
        lemma_crop_pixel(pixels, width, roi, last as nat, r, i);
        assert(r * (4 * roi.w) + i < 4 * roi.w * last) by (nonlinear_arith)
            requires
                0 <= r < last,
                0 <= i < 4 * roi.w,
        ;
    } else {
        assert(r * (4 * roi.w) == 4 * roi.w * last) by (nonlinear_arith)
            requires
                r == last,
        ;
    }
}

/// The hashed message determines the pixels and the dimensions: images
/// differing in any pixel byte or in width or height hash different bytes.
pub proof fn lemma_image_hash_framing(p1: Seq<u8>, w1: u32, h1: u32, p2: Seq<u8>, w2: u32, h2: u32)
    requires
        image_hash_message(p1, w1, h1) == image_hash_message(p2, w2, h2),
    ensures
        p1 == p2,
        w1 == w2,
        h1 == h2,
{
    let m1 = image_hash_message(p1, w1, h1);
    let m2 = image_hash_message(p2, w2, h2);
    let n = m1.len() as int;
    assert(p1 =~= m1.subrange(0, n - 8));
    assert(p2 =~= m2.subrange(0, n - 8));
    assert(le32(w1) =~= m1.subrange(n - 8, n - 4));
    assert(le32(w2) =~= m2.subrange(n - 8, n - 4));
    assert(le32(h1) =~= m1.subrange(n - 4, n));
    assert(le32(h2) =~= m2.subrange(n - 4, n));
    lemma_le32_injective(w1, w2);
    lemma_le32_injective(h1, h2);
}

/// Cropping the whole image gives the image's pixels back.
pub proof fn lemma_crop_whole_image(pixels: Seq<u8>, width: u32, height: u32)
    requires
        pixels.len() == 4 * width * height,
    ensures
        crop_pixels(pixels, width, Rect { x: 0, y: 0, w: width, h: height }) == pixels,
{
    lemma_crop_prefix(pixels, width, height, height as nat);
    assert(pixels.subrange(0, 4 * width * height) =~= pixels);
}

proof fn lemma_crop_prefix(pixels: Seq<u8>, width: u32, height: u32, rows: nat)
    requires
        pixels.len() == 4 * width * height,
        rows <= height,
    ensures
        crop_rows(pixels, width, Rect { x: 0, y: 0, w: width, h: height }, rows) == pixels.subrange(
            0,
            4 * width * rows,
        ),
    decreases rows,
{
    let roi = Rect { x: 0, y: 0, w: width, h: height };
    if rows == 0 {
        assert(4 * width * rows == 0) by (nonlinear_arith)
            requires
                rows == 0,
        ;
        assert(pixels.subrange(0, 0) =~= Seq::<u8>::empty());
    } else {
        let r = rows - 1;
        lemma_crop_prefix(pixels, width, height, r as nat);
        assert(roi_row_start(width, roi, r) == 4 * width * r) by (nonlinear_arith)
            requires
                roi_row_start(width, roi, r) == ((0 + r) * width + 0) * 4,
        ;
        assert(4 * width * rows == 4 * width * r + 4 * width) by (nonlinear_arith)
            requires
                r + 1 == rows,
        ;
        assert(4 * width * rows <= 4 * width * height) by (nonlinear_arith)
            requires
                rows <= height,
        ;
        assert(0 <= 4 * width * r) by (nonlinear_arith)
            requires
                r >= 0,
        ;
        assert(pixels.subrange(0, 4 * width * r) + pixels.subrange(4 * width * r, 4 * width * r + 4
            * width) =~= pixels.subrange(0, 4 * width * rows));
    }
}

} // verus!
