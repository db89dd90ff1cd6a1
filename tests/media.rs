use pictallion::hashing::ContentHasher;
use pictallion::thumbnail::{render_thumbnail, resize_keep_aspect, thumbnail_size, ImageSize, ThumbnailError};

fn size(width: u32, height: u32) -> ImageSize {
    ImageSize { width, height }
}

#[test]
fn landscape_clamps_width() {
    assert_eq!(thumbnail_size(size(4000, 3000), 512), size(512, 384));
    assert_eq!(thumbnail_size(size(1000, 333), 100), size(100, 33));
    assert_eq!(thumbnail_size(size(1000, 335), 100), size(100, 34));
    assert_eq!(thumbnail_size(size(600, 600), 512), size(512, 512));
}

#[test]
fn portrait_clamps_height() {
    assert_eq!(thumbnail_size(size(3000, 4000), 512), size(384, 512));
}

#[test]
fn small_images_are_not_upscaled() {
    assert_eq!(thumbnail_size(size(100, 50), 512), size(100, 50));
    assert_eq!(thumbnail_size(size(512, 512), 512), size(512, 512));
}

#[test]
fn large_sides_do_not_overflow() {
    assert_eq!(thumbnail_size(size(u32::MAX, u32::MAX - 1), u32::MAX - 1), size(u32::MAX - 1, u32::MAX - 2));
}

fn png_bytes(w: u32, h: u32) -> Vec<u8> {
    let img = image::DynamicImage::new_rgb8(w, h);
    let mut out = std::io::Cursor::new(Vec::new());
    img.write_to(&mut out, image::ImageFormat::Png).unwrap();
    out.into_inner()
}

#[test]
fn rendered_thumbnail_is_resized_jpeg() {
    let thumb = render_thumbnail(&png_bytes(40, 20), 10).unwrap();
    assert_eq!(thumb.size, size(10, 5));
    let jpeg = thumb.jpeg;
    assert_eq!(&jpeg[0..2], &[0xFF, 0xD8]);
    let back = image::load_from_memory(&jpeg).unwrap();
    assert_eq!((back.width(), back.height()), (10, 5));
}

#[test]
fn small_source_keeps_its_size() {
    let thumb = render_thumbnail(&png_bytes(8, 6), 512).unwrap();
    assert_eq!(thumb.size, size(8, 6));
    let jpeg = thumb.jpeg;
    let back = image::load_from_memory(&jpeg).unwrap();
    assert_eq!((back.width(), back.height()), (8, 6));
    let img = image::DynamicImage::new_rgb8(30, 90);
    let r = resize_keep_aspect(&img, 45);
    assert_eq!((r.width(), r.height()), (15, 45));
}

#[test]
fn undecodable_source_is_an_error() {
    assert!(matches!(render_thumbnail(b"not an image", 64), Err(ThumbnailError::Decode)));
}

#[test]
fn zero_height_thumbnail_cannot_be_encoded() {
    // 1000x1 scaled to a longer side of 10 rounds the shorter side to 0
    assert_eq!(thumbnail_size(size(1000, 1), 10), size(10, 0));
    assert!(matches!(render_thumbnail(&png_bytes(1000, 1), 10), Err(ThumbnailError::Encode)));
}

#[test]
fn known_digests() {
    let h = ContentHasher::new();
    assert_eq!(h.finish(), "e3b0c44298fc1c149afbf4c8996fb92427ae41e4649b934ca495991b7852b855");
    let mut h = ContentHasher::new();
    h.update(b"abc");
    assert_eq!(h.finish(), "ba7816bf8f01cfea414140de5dae2223b00361a396177a9cb410ff61f20015ad");
}

#[test]
fn chunked_digest_matches_whole() {
    let data: Vec<u8> = (0..20000u32).map(|i| (i % 251) as u8).collect();
    let mut whole = ContentHasher::new();
    whole.update(&data);
    let mut parts = ContentHasher::new();
    for c in data.chunks(8192) {
        parts.update(c);
    }
    assert_eq!(whole.finish(), parts.finish());
}

#[test]
fn fitting_image_is_returned_unchanged() {
    let mut img = image::DynamicImage::new_rgb8(4, 3);
    img.as_mut_rgb8().unwrap().put_pixel(1, 2, image::Rgb([10, 20, 30]));
    let r = resize_keep_aspect(&img, 4);
    assert_eq!(r, img);
}

#[test]
fn same_source_renders_the_same() {
    let src = png_bytes(30, 12);
    let a = render_thumbnail(&src, 6).unwrap();
    let b = render_thumbnail(&src, 6).unwrap();
    assert_eq!(a.size, b.size);
    assert_eq!(a.jpeg, b.jpeg);
}
