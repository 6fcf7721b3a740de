//! Image transcoding: decoding uploaded bytes, fixed-box thumbnail
//! dimensions, and re-encoding to a format inferred from a file name
//! extension.
//!
//! Pixel work is done by the `image` crate behind trusted wrappers whose
//! contracts speak of named decode results and of image dimensions; the
//! thumbnail dimension arithmetic and the extension handling are verified.

use vstd::prelude::*;
use vstd::string::StrSliceExecFns;

verus! {

/// Decoding failed: the bytes are not a recognizable, well-formed image.
#[derive(Debug, PartialEq, Eq, Structural)]
pub enum DecodeError {
    Unsupported,
}

/// Encoding failed: the name maps to no encodable format, or the encoder
/// refused the image.
#[derive(Debug, PartialEq, Eq, Structural)]
pub enum EncodeError {
    Unsupported,
}

/// A target format this codec can encode.
#[derive(Debug, PartialEq, Eq, Structural, Clone, Copy)]
pub enum MediaFormat {
    Png,
    Jpeg,
    Gif,
}

#[verifier::external_type_specification]
#[verifier::external_body]
pub struct ExDynamicImage(image::DynamicImage);

/// The width, in pixels, of a decoded image value.
pub uninterp spec fn image_width(img: image::DynamicImage) -> u32;

/// The height, in pixels, of a decoded image value.
pub uninterp spec fn image_height(img: image::DynamicImage) -> u32;

/// The dimensions of the image that `bytes` decode to, if they decode at
/// all; decoding is a function of the bytes alone.
pub uninterp spec fn decoded_dims(bytes: Seq<u8>) -> Option<(u32, u32)>;

/// The image value that `bytes` decode to; a function of the bytes alone.
pub uninterp spec fn decoded_img(bytes: Seq<u8>) -> image::DynamicImage;

/// The image `img` scaled to exactly `w` by `h` pixels; a function of the
/// image and the dimensions alone.
pub uninterp spec fn scaled_img(img: image::DynamicImage, w: u32, h: u32) -> image::DynamicImage;

/// Does encoding `img` to `fmt` succeed? A function of the image and the
/// format alone: the encoder set and its settings are fixed at build time.
pub uninterp spec fn encode_ok(img: image::DynamicImage, fmt: MediaFormat) -> bool;

/// The bytes that encoding `img` to `fmt` produces when it succeeds; a
/// function of the image and the format alone.
pub uninterp spec fn encoded_of(img: image::DynamicImage, fmt: MediaFormat) -> Seq<u8>;

/// The image converted to its 8-bit RGBA form; a pure function of the
/// image value.
pub uninterp spec fn rgba_of(img: image::DynamicImage) -> image::DynamicImage;

/// Is the image in the 8-bit RGBA form that every encoder in this build
/// accepts?
pub uninterp spec fn encoder_ready(img: image::DynamicImage) -> bool;

/// Do images of these dimensions re-decode within the decoder's default
/// allocation limit? `image`'s decoders refuse a decode whose working
/// buffers would pass 512 MiB, and a buffer takes at most 8 bytes per
/// pixel, so this bound keeps any re-decode inside the limit.
pub open spec fn within_decode_limit(w: int, h: int) -> bool {
    w * h * 8 <= 512 * 1024 * 1024
}

/// Are these dimensions inside every encoder's accepted range? PNG takes
/// any nonzero dimensions; JPEG and GIF refuse a side above 65535.
pub open spec fn encodable_dims(w: int, h: int) -> bool {
    1 <= w <= 65535 && 1 <= h <= 65535
}

/// Relies on `image::guess_format` and `image::load_from_memory_with_format`:
/// the first sniffs the container format from the fixed magic-byte table
/// alone, the second dispatches to the built-in decoder for that format,
/// so neither consults the crate's runtime-registered format hooks and
/// the result depends on the bytes alone.
#[verifier::external_body]
pub(crate) fn decode_image(bytes: &Vec<u8>) -> (r: Option<image::DynamicImage>)
    ensures
        r is Some <==> decoded_dims(bytes@) is Some,
        r matches Some(img) ==> img == decoded_img(bytes@) && decoded_dims(bytes@) == Some(
            (image_width(img), image_height(img)),
        ),
{
    match image::guess_format(bytes.as_slice()) {
        Ok(format) => image::load_from_memory_with_format(bytes.as_slice(), format).ok(),
        Err(_) => None,
    }
}

/// Relies on `image::DynamicImage::width`.
#[verifier::external_body]
pub(crate) fn width_of(img: &image::DynamicImage) -> (r: u32)
    ensures
        r == image_width(*img),
{
    img.width()
}

/// Relies on `image::DynamicImage::height`.
#[verifier::external_body]
pub(crate) fn height_of(img: &image::DynamicImage) -> (r: u32)
    ensures
        r == image_height(*img),
{
    img.height()
}

/// Relies on `image::DynamicImage::thumbnail_exact`: the returned image has
/// exactly the dimensions asked for, and depends on the source image and
/// the dimensions alone.
#[verifier::external_body]
pub(crate) fn scale_to(img: &image::DynamicImage, w: u32, h: u32) -> (r: image::DynamicImage)
    requires
        1 <= w <= 100,
        1 <= h <= 100,
    ensures
        r == scaled_img(*img, w, h),
        image_width(r) == w,
        image_height(r) == h,
{
    img.thumbnail_exact(w, h)
}

/// Relies on `image::DynamicImage::to_rgba8`: a pure conversion to the
/// 8-bit RGBA form, keeping the dimensions. Every encoder in this build
/// accepts that form: PNG and GIF take RGBA8 directly, and the JPEG
/// encoder converts it to RGB8 itself.
#[verifier::external_body]
pub(crate) fn to_rgba(img: &image::DynamicImage) -> (r: image::DynamicImage)
    ensures
        r == rgba_of(*img),
        encoder_ready(r),
        image_width(r) == image_width(*img),
        image_height(r) == image_height(*img),
{
    image::DynamicImage::ImageRgba8(img.to_rgba8())
}

/// Relies on `image::DynamicImage::write_to` with the PNG, JPEG and GIF
/// encoders: the outcome and the output bytes depend on the image and the
/// format alone; an 8-bit RGBA image whose sides are in `1..=65535`
/// encodes successfully to an in-memory writer; successful output starts
/// with the format's signature, so it is never empty; and the image's
/// dimensions are written into the container header, so for an image with
/// nonzero dimensions small enough to re-decode within the decoder's
/// default allocation limit, the output decodes back to those dimensions.
#[verifier::external_body]
pub(crate) fn encode_image(img: &image::DynamicImage, fmt: MediaFormat) -> (r: Option<Vec<u8>>)
    ensures
        r is Some <==> encode_ok(*img, fmt),
        encoder_ready(*img) && encodable_dims(
            image_width(*img) as int,
            image_height(*img) as int,
        ) ==> r is Some,
        r matches Some(b) ==> b@ == encoded_of(*img, fmt) && b@.len() > 0,
        r matches Some(b) ==> (image_width(*img) >= 1 && image_height(*img) >= 1
            && within_decode_limit(image_width(*img) as int, image_height(*img) as int)
            ==> decoded_dims(b@) == Some((image_width(*img), image_height(*img)))),
{
    let mut cursor = std::io::Cursor::new(Vec::new());
    let target = match fmt {
        MediaFormat::Png => image::ImageFormat::Png,
        MediaFormat::Jpeg => image::ImageFormat::Jpeg,
        MediaFormat::Gif => image::ImageFormat::Gif,
    };
    match img.write_to(&mut cursor, target) {
        Ok(()) => Some(cursor.into_inner()),
        Err(_) => None,
    }
}

/// ASCII lowercasing of one character, as `str::to_ascii_lowercase` does
/// it character by character.
pub open spec fn ascii_lower_char(c: char) -> char {
    if 'A' <= c && c <= 'Z' {
        ((c as u8) + 32) as char
    } else {
        c
    }
}

/// ASCII lowercasing of a character sequence.
pub open spec fn lower_seq(s: Seq<char>) -> Seq<char> {
    s.map_values(|c: char| ascii_lower_char(c))
}

/// The format an extension names, after ASCII lowercasing: exactly the
/// table of `image::ImageFormat::from_extension`, with every format this
/// codec has no encoder for collapsed to `None`.
pub open spec fn spec_format_of_extension(ext: Seq<char>) -> Option<MediaFormat> {
    let e = lower_seq(ext);
    if e == "png"@ || e == "apng"@ {
        Some(MediaFormat::Png)
    } else if e == "jpg"@ || e == "jpeg"@ || e == "jfif"@ {
        Some(MediaFormat::Jpeg)
    } else if e == "gif"@ {
        Some(MediaFormat::Gif)
    } else {
        None
    }
}

/// Relies on `image::ImageFormat::from_extension`: a case-insensitive
/// match of the extension against a fixed table; formats without an
/// encoder in this build are collapsed to `None`.
#[verifier::external_body]
pub(crate) fn format_from_extension(ext: &String) -> (r: Option<MediaFormat>)
    ensures
        r == spec_format_of_extension(ext@),
{
    match image::ImageFormat::from_extension(ext.as_str()) {
        Some(image::ImageFormat::Png) => Some(MediaFormat::Png),
        Some(image::ImageFormat::Jpeg) => Some(MediaFormat::Jpeg),
        Some(image::ImageFormat::Gif) => Some(MediaFormat::Gif),
        _ => None,
    }
}

/// The index of the last `'.'` in `s`, or `-1` if there is none.
pub open spec fn last_dot_index(s: Seq<char>) -> int
    decreases s.len(),
{
    if s.len() == 0 {
        -1
    } else if s[s.len() - 1] == '.' {
        s.len() - 1
    } else {
        last_dot_index(s.drop_last())
    }
}

/// The extension of a file name: what follows the last `'.'`, provided
/// that dot exists and is not the first character.
pub open spec fn spec_extension_of(s: Seq<char>) -> Option<Seq<char>> {
    let i = last_dot_index(s);
    if i > 0 {
        Some(s.subrange(i + 1, s.len() as int))
    } else {
        None
    }
}

proof fn lemma_last_dot_none(s: Seq<char>)
    requires
        forall|k: int| 0 <= k < s.len() ==> s[k] != '.',
    ensures
        last_dot_index(s) == -1,
    decreases s.len(),
{
    if s.len() > 0 {
        lemma_last_dot_none(s.drop_last());
    }
}

proof fn lemma_last_dot_at(s: Seq<char>, j: int)
    requires
        0 <= j < s.len(),
        s[j] == '.',
        forall|k: int| j < k < s.len() ==> s[k] != '.',
    ensures
        last_dot_index(s) == j,
    decreases s.len(),
{
    if j < s.len() - 1 {
        lemma_last_dot_at(s.drop_last(), j);
    }
}

/// The extension of `name`, as [`spec_extension_of`] gives it.
pub fn extension_of(name: &String) -> (r: Option<String>)
    ensures
        r.deep_view() == spec_extension_of(name@),
{
    let n = name.as_str().unicode_len();
    let mut i: usize = n;
    while i > 0
        invariant
            i <= n,
            n == name@.len(),
            forall|k: int| i <= k < n ==> name@[k] != '.',
        decreases i,
    {
        let c = name.as_str().get_char(i - 1);
        if c == '.' {
            proof {
                lemma_last_dot_at(name@, i - 1);
            }
            if i - 1 > 0 {
                let ext = name.as_str().substring_char(i, n);
                return Some(ext.to_owned());
            } else {
                return None;
            }
        }
        i -= 1;
    }
    proof {
        lemma_last_dot_none(name@);
    }
    None
}

/// The target format a file name calls for, inferred from its extension.
pub open spec fn spec_infer_format(name: Seq<char>) -> Option<MediaFormat> {
    match spec_extension_of(name) {
        Some(e) => spec_format_of_extension(e),
        None => None,
    }
}

/// The target format a file name calls for: `None` when the name has no
/// usable extension or the extension names no encodable format.
pub fn infer_format(name: &String) -> (r: Option<MediaFormat>)
    ensures
        r == spec_infer_format(name@),
{
    match extension_of(name) {
        Some(e) => format_from_extension(&e),
        None => None,
    }
}

/// The dimensions of the thumbnail of a `w` by `h` image: an image already
/// inside the 100x100 box keeps its size; a larger one is scaled down,
/// preserving aspect ratio, so that its longer side becomes 100. Neither
/// result ever drops below 1.
///
/// Two choices here are deliberate: an image inside the box is never
/// scaled up, and the scaled side rounds by truncation with a floor of 1.
pub open spec fn spec_fit_box(w: int, h: int) -> (int, int)
    recommends
        1 <= w,
        1 <= h,
{
    if w <= 100 && h <= 100 {
        (w, h)
    } else if w >= h {
        (100, if (h * 100) / w < 1 { 1 } else { (h * 100) / w })
    } else {
        (if (w * 100) / h < 1 { 1 } else { (w * 100) / h }, 100)
    }
}

/// Thumbnail dimensions, computed as [`spec_fit_box`] states them.
pub fn fit_dimensions(w: u32, h: u32) -> (r: (u32, u32))
    requires
        1 <= w,
        1 <= h,
    ensures
        (r.0 as int, r.1 as int) == spec_fit_box(w as int, h as int),
        1 <= r.0 <= 100,
        1 <= r.1 <= 100,
{
    if w <= 100 && h <= 100 {
        (w, h)
    } else if w >= h {
        let scaled: u64 = (h as u64) * 100 / (w as u64);
        proof {
            assert((h as int) * 100 / (w as int) <= 100) by (nonlinear_arith)
                requires
                    1 <= h as int <= w as int,
            ;
        }
        let th: u32 = if scaled < 1 {
            1
        } else {
            scaled as u32
        };
        (100, th)
    } else {
        let scaled: u64 = (w as u64) * 100 / (h as u64);
        proof {
            assert((w as int) * 100 / (h as int) <= 100) by (nonlinear_arith)
                requires
                    1 <= w as int <= h as int,
            ;
        }
        let tw: u32 = if scaled < 1 {
            1
        } else {
            scaled as u32
        };
        (tw, 100)
    }
}

/// Law: thumbnail dimensions always fit the 100x100 box, and where the
/// box does not force a side to its 1-pixel floor they preserve the
/// source aspect ratio to within one rounding step of the scaled side.
pub proof fn lemma_fit_box_properties(w: int, h: int)
    requires
        1 <= w,
        1 <= h,
    ensures
        1 <= spec_fit_box(w, h).0 <= 100,
        1 <= spec_fit_box(w, h).1 <= 100,
        w <= 100 && h <= 100 ==> spec_fit_box(w, h) == (w, h),
        !(w <= 100 && h <= 100) && w >= h && h * 100 >= w ==> spec_fit_box(w, h).0 == 100
            && spec_fit_box(w, h).1 * w <= 100 * h < (spec_fit_box(w, h).1 + 1) * w,
        !(w <= 100 && h <= 100) && w < h && w * 100 >= h ==> spec_fit_box(w, h).1 == 100
            && spec_fit_box(w, h).0 * h <= 100 * w < (spec_fit_box(w, h).0 + 1) * h,
{
    if w <= 100 && h <= 100 {
    } else if w >= h {
        assert(1 <= h * 100 / w <= 100 || h * 100 / w < 1) by (nonlinear_arith)
            requires
                1 <= h <= w,
        ;
        assert(h * 100 / w <= 100) by (nonlinear_arith)
            requires
                1 <= h <= w,
        ;
        if h * 100 >= w {
            let q = h * 100 / w;
            assert(q * w <= 100 * h < (q + 1) * w && q >= 1) by (nonlinear_arith)
                requires
                    1 <= w,
                    h * 100 >= w,
                    q == h * 100 / w,
            ;
        }
    } else {
        assert(w * 100 / h <= 100) by (nonlinear_arith)
            requires
                1 <= w <= h,
        ;
        if w * 100 >= h {
            let q = w * 100 / h;
            assert(q * h <= 100 * w < (q + 1) * h && q >= 1) by (nonlinear_arith)
                requires
                    1 <= h,
                    w * 100 >= h,
                    q == w * 100 / h,
            ;
        }
    }
}

} // verus!
