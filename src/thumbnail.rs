use vstd::prelude::*;

verus! {

#[verifier::external_type_specification]
#[verifier::external_body]
pub struct ExDynamicImage(image::DynamicImage);

#[verifier::external_type_specification]
#[verifier::external_body]
pub struct ExImageError(image::ImageError);

/// Width and height of an image, in pixels.
#[derive(Clone, Copy, Debug, PartialEq, Eq, Structural)]
pub struct ImageSize {
    pub width: u32,
    pub height: u32,
}

/// `a / b` rounded to the nearest integer, halves rounded up.
pub open spec fn round_div(a: nat, b: nat) -> nat
    recommends
        b > 0,
{
    ((2 * a + b) / (2 * b)) as nat
}

/// The size of a thumbnail of an image of size `src` whose longer side may be at most
/// `max_dim`: unchanged when it already fits; else the longer side becomes `max_dim` and the
/// shorter one is scaled in proportion and rounded to the nearest pixel.
pub open spec fn thumbnail_size_spec(src: ImageSize, max_dim: u32) -> ImageSize {
    let w = src.width as nat;
    let h = src.height as nat;
    let m = max_dim as nat;
    if w <= m && h <= m {
        src
    } else if w >= h {
        ImageSize { width: max_dim, height: round_div(h * m, w) as u32 }
    } else {
        ImageSize { width: round_div(w * m, h) as u32, height: max_dim }
    }
}

proof fn lemma_scaled_fits(short: nat, long: nat, max: nat)
    requires
        short <= long,
        max < long,
    ensures
        (2 * (short * max) + long) / (2 * long) <= max,
        (2 * (short * max) + long) / (2 * long) <= short,
{
    assert(short * max <= short * long) by (nonlinear_arith)
        requires
            max < long,
    ;
    assert(2 * (short * max) + long < (short + 1) * (2 * long)) by (nonlinear_arith)
        requires
            short * max <= short * long,
            long > 0,
    ;
    assert((2 * (short * max) + long) / (2 * long) < short + 1) by (nonlinear_arith)
        requires
            2 * (short * max) + long < (short + 1) * (2 * long),
            long > 0,
    ;
    assert(short * max <= long * max) by (nonlinear_arith)
        requires
            short <= long,
    ;
    assert(2 * (short * max) + long < (max + 1) * (2 * long)) by (nonlinear_arith)
        requires
            short * max <= long * max,
            long > 0,
    ;
    assert((2 * (short * max) + long) / (2 * long) < max + 1) by (nonlinear_arith)
        requires
            2 * (short * max) + long < (max + 1) * (2 * long),
            long > 0,
    ;
}

/// `short * max / long`, rounded to the nearest integer, when `short <= long` and `max < long`.
fn scale_side(short: u32, long: u32, max: u32) -> (r: u32)
    requires
        short <= long,
        max < long,
    ensures
        r as nat == round_div(short as nat * max as nat, long as nat),
        r <= max,
        r <= short,
{
    assert((short as nat) * (max as nat) <= 0xffff_ffff_ffff_ffff) by (nonlinear_arith)
        requires
            short <= 0xffff_ffff,
            max <= 0xffff_ffff,
    ;
    let prod: u128 = (short as u128) * (max as u128);
    assert(prod as nat == short as nat * max as nat) by (nonlinear_arith)
        requires
            prod == (short as u128) * (max as u128),
    ;
    assert(prod <= 0xffff_ffff_ffff_ffff) by (nonlinear_arith)
        requires
            prod == (short as u128) * (max as u128),
            short <= 0xffff_ffff,
            max <= 0xffff_ffff,
    ;
    let num: u128 = 2 * prod + long as u128;
    let den: u128 = 2 * (long as u128);
    proof {
        lemma_scaled_fits(short as nat, long as nat, max as nat);
    }
    (num / den) as u32
}

/// The size of a thumbnail of an image of size `src`; see [`thumbnail_size_spec`].
pub fn thumbnail_size(src: ImageSize, max_dim: u32) -> (r: ImageSize)
    ensures
        r == thumbnail_size_spec(src, max_dim),
        r.width <= src.width && r.height <= src.height,
{
    if src.width <= max_dim && src.height <= max_dim {
        src
    } else if src.width >= src.height {
        ImageSize { width: max_dim, height: scale_side(src.height, src.width, max_dim) }
    } else {
        ImageSize { width: scale_side(src.width, src.height, max_dim), height: max_dim }
    }
}

/// The pixel size of an image.
pub uninterp spec fn image_dims(img: image::DynamicImage) -> ImageSize;

/// The pixel size of the image that `bytes` decode to, or `None` when they do not decode.
pub uninterp spec fn decoded_size(bytes: Seq<u8>) -> Option<ImageSize>;

/// Whether a JPEG of this size can be written: each side in `1..=65535`.
pub open spec fn jpeg_encodable(size: ImageSize) -> bool {
    1 <= size.width <= 65535 && 1 <= size.height <= 65535
}

/// Relies on image::DynamicImage::width and height: the pixel size of the image.
#[verifier::external_body]
fn image_size(img: &image::DynamicImage) -> (r: ImageSize)
    ensures
        r == image_dims(*img),
{
    ImageSize { width: img.width(), height: img.height() }
}

/// Relies on image::DynamicImage::resize_exact with the Catmull-Rom filter, which builds a
/// buffer of exactly `size` (imageops::resize): a resampled copy of that size.
#[verifier::external_body]
fn resample(img: &image::DynamicImage, size: ImageSize) -> (r: image::DynamicImage)
    ensures
        image_dims(r) == size,
{
    img.resize_exact(size.width, size.height, image::imageops::FilterType::CatmullRom)
}

/// Relies on the `Clone` impl of image::DynamicImage: an unchanged copy.
#[verifier::external_body]
fn copy_image(img: &image::DynamicImage) -> (r: image::DynamicImage)
    ensures
        r == *img,
{
    img.clone()
}

/// `img` itself when it fits in `max_dim` on both sides, else a copy resampled to
/// [`thumbnail_size`].
pub fn resize_keep_aspect(img: &image::DynamicImage, max_dim: u32) -> (r: image::DynamicImage)
    ensures
        image_dims(r) == thumbnail_size_spec(image_dims(*img), max_dim),
        image_dims(*img).width <= max_dim && image_dims(*img).height <= max_dim ==> r == *img,
{
    let size = image_size(img);
    if size.width <= max_dim && size.height <= max_dim {
        return copy_image(img);
    }
    resample(img, thumbnail_size(size, max_dim))
}

/// Relies on image::load_from_memory: decodes the bytes, guessing the format from them; the
/// outcome depends on the bytes alone.
#[verifier::external_body]
fn decode_image(bytes: &[u8]) -> (r: Result<image::DynamicImage, image::ImageError>)
    ensures
        r is Ok <==> decoded_size(bytes@) is Some,
        r matches Ok(img) ==> image_dims(img) == decoded_size(bytes@)->0,
{
    image::load_from_memory(bytes)
}

/// Relies on image::DynamicImage::write_to with ImageFormat::Jpeg into an in-memory buffer:
/// the JPEG encoder first converts every colour type to L8 or Rgb8 (`make_compatible_img`),
/// refuses exactly a side outside `1..=65535` (`encode_image`), and writing to a
/// `Cursor<Vec<u8>>` cannot fail.
#[verifier::external_body]
fn encode_jpeg(img: &image::DynamicImage) -> (r: Result<Vec<u8>, image::ImageError>)
    ensures
        r is Ok <==> jpeg_encodable(image_dims(*img)),
{
    let mut out = std::io::Cursor::new(Vec::new());
    img.write_to(&mut out, image::ImageFormat::Jpeg).map(|_| out.into_inner())
}

/// Why a thumbnail could not be made.
#[derive(Clone, Copy, Debug, PartialEq, Eq, Structural)]
pub enum ThumbnailError {
    /// The source bytes are not an image this library can read.
    Decode,
    /// The thumbnail could not be encoded.
    Encode,
}

/// An encoded thumbnail and its pixel size.
#[derive(Debug)]
pub struct Thumbnail {
    pub jpeg: Vec<u8>,
    pub size: ImageSize,
}

/// A JPEG thumbnail of the image encoded in `source`, whose longer side is at most `max_dim`:
/// of [`thumbnail_size`] of the decoded image; `Decode` when the source does not decode,
/// `Encode` exactly when that size has a side outside `1..=65535`.
pub fn render_thumbnail(source: &[u8], max_dim: u32) -> (r: Result<Thumbnail, ThumbnailError>)
    ensures
        match decoded_size(source@) {
            None => r matches Err(e) && e == ThumbnailError::Decode,
            Some(s) => {
                &&& r matches Ok(t) ==> t.size == thumbnail_size_spec(s, max_dim)
                &&& r matches Err(e) ==> e == ThumbnailError::Encode
                &&& r is Ok <==> jpeg_encodable(thumbnail_size_spec(s, max_dim))
            },
        },
{
    let img = match decode_image(source) {
        Ok(img) => img,
        Err(_) => return Err(ThumbnailError::Decode),
    };
    let small = resize_keep_aspect(&img, max_dim);
    let size = image_size(&small);
    match encode_jpeg(&small) {
        Ok(jpeg) => Ok(Thumbnail { jpeg, size }),
        Err(_) => Err(ThumbnailError::Encode),
    }
}

} // verus!
