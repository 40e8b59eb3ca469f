use std::io::Cursor;
use std::path::{Component, Path};
use visual_media_viewer::cache::{image_bytes, DecodeResult, ImageCache};
use visual_media_viewer::image_decode::{
    box_filter_mip, color_image_from_rgba, color_image_to_rgba, compute_mip_levels,
    decode_with_wic, jpeg_half_size, nearest_half_from_pixels, nearest_half_rgba, prepare_texture,
    Color32, ColorImage, DecodedImage, RawImage,
};
use visual_media_viewer::path::{MediaPath, PathPart};

fn media_path(text: &str) -> MediaPath {
    let mut parts: Vec<PathPart> = Vec::new();
    for part in Path::new(text).components() {
        parts.push(match part {
            Component::Prefix(p) => PathPart::Prefix(p.as_os_str().to_string_lossy().into_owned()),
            Component::RootDir => PathPart::Root,
            Component::CurDir => PathPart::Current,
            Component::ParentDir => PathPart::Above,
            Component::Normal(n) => PathPart::Name(n.to_string_lossy().into_owned()),
        });
    }
    MediaPath::new(parts)
}

fn color(r: u8, g: u8, b: u8, a: u8) -> Color32 {
    Color32 { r, g, b, a }
}

/// An image whose pixels count up from `first` in their red channel.
fn counting(width: usize, height: usize, first: u8) -> ColorImage {
    let mut pixels: Vec<Color32> = Vec::new();
    for i in 0..width * height {
        pixels.push(color(first + i as u8, 0, 0, 255));
    }
    ColorImage { size: [width, height], pixels }
}

fn png(width: u32, height: u32, rgba: Vec<u8>) -> Vec<u8> {
    let mut out = Cursor::new(Vec::new());
    let picture = image::RgbaImage::from_raw(width, height, rgba).unwrap();
    picture.write_to(&mut out, image::ImageFormat::Png).unwrap();
    out.into_inner()
}

#[test]
fn mip_levels_count_the_halvings() {
    assert_eq!(compute_mip_levels(1, 1), 1);
    assert_eq!(compute_mip_levels(2, 1), 2);
    assert_eq!(compute_mip_levels(3, 3), 2);
    assert_eq!(compute_mip_levels(4, 1), 3);
    assert_eq!(compute_mip_levels(255, 256), 9);
    assert_eq!(compute_mip_levels(1920, 1080), 11);
    assert_eq!(compute_mip_levels(16384, 1), 15);
    assert_eq!(compute_mip_levels(0, 0), 1);
    assert_eq!(compute_mip_levels(2_097_150, 1), 21);
}

#[test]
fn mip_levels_are_counted_in_single_precision() {
    assert_eq!(compute_mip_levels(2_097_151, 1), 22);
    assert_eq!(compute_mip_levels(u32::MAX, 1), 33);
    let levels = |side: u32| (side as f32).log2().floor() as u32 + 1;
    for power in 0..32u32 {
        for distance in 0..100u32 {
            for side in [(1u32 << power).saturating_sub(distance), (1u32 << power) + distance] {
                assert_eq!(compute_mip_levels(1, side.max(1)), levels(side.max(1)), "{side}");
            }
        }
    }
}

#[test]
fn halving_takes_every_second_pixel() {
    let image = counting(4, 3, 0);
    let bytes = color_image_to_rgba(&image);
    assert_eq!(bytes.len(), 48);
    assert_eq!(&bytes[0..8], &[0, 0, 0, 255, 1, 0, 0, 255]);
    let (half, w, h) = nearest_half_rgba(&bytes, 4, 3);
    assert_eq!((w, h), (2, 1));
    assert_eq!(half, vec![0, 0, 0, 255, 2, 0, 0, 255]);
    let (from_pixels, w2, h2) = nearest_half_from_pixels(&image.pixels, 4, 3);
    assert_eq!((w2, h2), (2, 1));
    assert_eq!(from_pixels, half);
}

#[test]
fn a_mip_level_is_the_mean_of_four_pixels() {
    let data: Vec<u8> = vec![
        10, 0, 0, 255, 20, 0, 0, 255, //
        30, 0, 0, 255, 41, 0, 0, 255,
    ];
    let (mip, w, h) = box_filter_mip(&data, 2, 2);
    assert_eq!((w, h), (1, 1));
    assert_eq!(mip, vec![25, 0, 0, 255]);
    let (line, w1, h1) = box_filter_mip(&data[0..8], 2, 1);
    assert_eq!((w1, h1), (1, 1));
    assert_eq!(line, vec![15, 0, 0, 255]);
    let (dot, _, _) = box_filter_mip(&data[4..8], 1, 1);
    assert_eq!(dot, vec![20, 0, 0, 255]);
}

#[test]
fn a_large_image_is_halved_until_it_fits() {
    let small = prepare_texture(&counting(4, 4, 0), 4);
    assert_eq!((small.width, small.height, small.mip_levels), (4, 4, 3));
    assert_eq!(small.data.len(), 64);
    let once = prepare_texture(&counting(8, 2, 0), 4);
    assert_eq!((once.width, once.height, once.mip_levels), (4, 1, 3));
    assert_eq!(once.data[0], 0);
    assert_eq!(once.data[4], 2);
    let twice = prepare_texture(&counting(8, 8, 0), 3);
    assert_eq!((twice.width, twice.height, twice.mip_levels), (2, 2, 2));
    assert_eq!([twice.data[0], twice.data[4], twice.data[8], twice.data[12]], [0, 4, 32, 36]);
}

#[test]
fn jpegs_that_are_too_large_are_decoded_at_half_size() {
    assert_eq!(jpeg_half_size(100, 100, 100), None);
    assert_eq!(jpeg_half_size(101, 50, 100), Some((50, 25)));
    assert_eq!(jpeg_half_size(50, 201, 100), Some((25, 100)));
}

#[test]
fn a_png_is_decoded() {
    let bytes = png(2, 1, vec![1, 2, 3, 255, 200, 100, 50, 0]);
    let image = DecodedImage::load(&media_path("/a.png"), Some(&bytes), None, None).ok().unwrap();
    assert_eq!(image.pixels.size, [2, 1]);
    assert_eq!(image.pixels.pixels, vec![color(1, 2, 3, 255), color(0, 0, 0, 0)]);
}

#[test]
fn the_format_is_told_by_the_bytes() {
    let bytes = png(1, 1, vec![9, 8, 7, 255]);
    let image = DecodedImage::load(&media_path("/a.gif"), Some(&bytes), None, None).ok().unwrap();
    assert_eq!(image.pixels.pixels, vec![color(9, 8, 7, 255)]);
}

#[test]
fn half_transparent_colours_are_darkened() {
    let raw = RawImage { width: 1, height: 1, rgba: vec![255, 0, 255, 128] };
    let image = color_image_from_rgba(&raw);
    let p = image.pixels[0];
    assert_eq!((p.g, p.a), (0, 128));
    assert_eq!(p.r, p.b);
    assert!((187..=189).contains(&p.r));
}

#[test]
fn a_half_size_jpeg_is_shown_as_it_was_decoded() {
    let bytes = png(1, 1, vec![9, 8, 7, 255]);
    let half = RawImage { width: 1, height: 2, rgba: vec![1, 1, 1, 255, 2, 2, 2, 255] };
    let load = |path: &str| {
        DecodedImage::load(&media_path(path), Some(&bytes), Some(&half), None).ok().unwrap()
    };
    let image = load("/a.JPG");
    assert_eq!(image.pixels.size, [1, 2]);
    assert_eq!(image.pixels.pixels, vec![color(1, 1, 1, 255), color(2, 2, 2, 255)]);
    let other = load("/a.png");
    assert_eq!(other.pixels.size, [1, 1]);
}

#[test]
fn what_cannot_be_decoded_is_an_error() {
    let no_wic = "WIC decoding is only available on Windows";
    let garbage = vec![1u8, 2, 3, 4];
    let image = png(1, 1, vec![9, 8, 7, 255]);
    let error = |path: &str, bytes: Option<&Vec<u8>>| {
        DecodedImage::load(&media_path(path), bytes, None, None).err().unwrap()
    };
    assert_eq!(error("/a.png", Some(&garbage)), no_wic);
    assert_eq!(error("/a.png", None), no_wic);
    assert_eq!(error("/a.heic", Some(&image)), no_wic);
    assert_eq!(error("/a.HEIF", Some(&image)), no_wic);
    assert_eq!(decode_with_wic(None).err().unwrap(), no_wic);
}

#[test]
fn the_systems_own_decoder_shows_what_is_left_to_it() {
    let image = png(1, 1, vec![9, 8, 7, 255]);
    let garbage = vec![1u8, 2, 3, 4];
    let shown = |path: &str, bytes: Option<&Vec<u8>>| {
        let system = RawImage { width: 1, height: 1, rgba: vec![1, 2, 3, 255] };
        DecodedImage::load(&media_path(path), bytes, None, Some(Ok(system)))
            .ok()
            .unwrap()
            .pixels
            .pixels
    };
    assert_eq!(shown("/a.heic", Some(&image)), vec![color(1, 2, 3, 255)]);
    assert_eq!(shown("/a.HEIF", None), vec![color(1, 2, 3, 255)]);
    assert_eq!(shown("/a.png", Some(&garbage)), vec![color(1, 2, 3, 255)]);
    assert_eq!(shown("/a.jpg", None), vec![color(1, 2, 3, 255)]);
    assert_eq!(shown("/a.png", Some(&image)), vec![color(9, 8, 7, 255)]);
    let error = |path: &str, bytes: Option<&Vec<u8>>| {
        DecodedImage::load(&media_path(path), bytes, None, Some(Err("broken".to_string()))).err()
    };
    assert_eq!(error("/a.heic", Some(&image)), Some("broken".to_string()));
    assert_eq!(error("/a.png", Some(&garbage)), Some("broken".to_string()));
    assert_eq!(error("/a.png", Some(&image)), None);
}

#[test]
fn channels_lie_between_themselves_and_what_the_alpha_leaves() {
    for alpha in 0..=255u8 {
        let mut last = 0;
        for channel in 0..=255u8 {
            let raw = RawImage { width: 1, height: 1, rgba: vec![channel, 0, 255, alpha] };
            let p = color_image_from_rgba(&raw).pixels[0];
            assert!((2 * channel as u32 * alpha as u32 + 255) / 510 <= p.r as u32);
            assert!(p.r <= channel && last <= p.r && p.r <= p.b);
            last = p.r;
        }
    }
}

#[test]
fn dark_channels_are_scaled_by_the_alpha() {
    for channel in 0..=10u8 {
        for alpha in 0..=255u8 {
            let raw = RawImage { width: 1, height: 1, rgba: vec![channel, 10 - channel, 255, alpha] };
            let p = color_image_from_rgba(&raw).pixels[0];
            let scaled = |c: u8| ((2 * c as u32 * alpha as u32 + 255) / 510) as u8;
            assert_eq!((p.r, p.g, p.a), (scaled(channel), scaled(10 - channel), alpha));
        }
    }
}

#[test]
fn the_least_recently_used_images_leave() {
    let mut cache = ImageCache::new(3 * 4, 1024);
    let (a, b, c, d) =
        (media_path("/a"), media_path("/b"), media_path("/c"), media_path("/d"));
    assert_eq!(image_bytes(&counting(1, 1, 0)), 4);
    cache.insert(&a, counting(1, 1, 1));
    cache.insert(&b, counting(1, 1, 2));
    cache.insert(&c, counting(1, 1, 3));
    assert_eq!(cache.get(&a), Some(&counting(1, 1, 1)));
    cache.insert(&d, counting(1, 1, 4));
    assert!(!cache.contains(&b));
    assert!(cache.contains(&a) && cache.contains(&c) && cache.contains(&d));
    assert_eq!(cache.get(&b), None);
    assert_eq!(cache.total_bytes, 12);
}

#[test]
fn an_image_that_is_put_in_twice_is_kept_once() {
    let mut cache = ImageCache::new(100, 1024);
    cache.insert(&media_path("/a"), counting(2, 1, 1));
    cache.insert(&media_path("/a"), counting(1, 1, 9));
    assert_eq!(cache.get(&media_path("/a")), Some(&counting(1, 1, 9)));
    assert_eq!(cache.total_bytes, 4);
    assert_eq!(cache.entries.len(), 1);
}

#[test]
fn an_image_over_the_limit_is_kept_alone() {
    let mut cache = ImageCache::new(8, 1024);
    cache.insert(&media_path("/a"), counting(1, 1, 1));
    cache.insert(&media_path("/big"), counting(4, 4, 2));
    assert!(!cache.contains(&media_path("/a")));
    assert!(cache.contains(&media_path("/big")));
    assert_eq!(cache.total_bytes, 64);
}

#[test]
fn decoding_starts_once_for_each_file() {
    let mut cache = ImageCache::new(100, 1024);
    cache.insert(&media_path("/cached.png"), counting(1, 1, 1));
    let paths = vec![
        media_path("/cached.png"),
        media_path("/a.png"),
        media_path("/clip.mp4"),
        media_path("/a.png"),
        media_path("/b.png"),
    ];
    assert_eq!(cache.preload(&paths), vec![media_path("/a.png"), media_path("/b.png")]);
    assert_eq!(cache.preload(&paths), Vec::<MediaPath>::new());
    cache.poll(vec![
        DecodeResult { path: media_path("/a.png"), result: Ok(counting(1, 1, 7)) },
        DecodeResult { path: media_path("/b.png"), result: Err("broken".to_string()) },
    ]);
    assert_eq!(cache.get(&media_path("/a.png")), Some(&counting(1, 1, 7)));
    assert_eq!(cache.preload(&paths), vec![media_path("/b.png")]);
    cache.clear();
    assert!(!cache.contains(&media_path("/a.png")));
    assert_eq!(
        cache.preload(&paths),
        vec![media_path("/cached.png"), media_path("/a.png"), media_path("/b.png")]
    );
}
