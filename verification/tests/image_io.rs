use studio_core::{encode_png, LoadedImage, Rect, StudioError};

/// Deterministic test pattern: red background, blue square, green stripe (RGBA8, row-major).
fn test_image(w: u32, h: u32) -> Vec<u8> {
    let mut px = Vec::with_capacity((w * h * 4) as usize);
    for y in 0..h {
        for x in 0..w {
            let p = if y < h / 8 {
                [40, 200, 60, 255]
            } else if x > w / 4 && x < 3 * w / 4 && y > h / 4 && y < 3 * h / 4 {
                [30, 60, 220, 255]
            } else {
                [220, 40, 40, 255]
            };
            px.extend_from_slice(&p);
        }
    }
    px
}

fn load(w: u32, h: u32) -> LoadedImage {
    LoadedImage::from_rgba(test_image(w, h), w, h)
}

#[test]
fn hash_is_stable_and_dimension_sensitive() {
    let a = load(64, 64);
    let b = load(64, 64);
    assert_eq!(a.hash(), b.hash());
    let c = load(64, 32);
    assert_ne!(a.hash(), c.hash());
}

#[test]
fn crop_roi_bounds() {
    let img = load(64, 48);
    let ok = img.crop_roi(Rect { x: 8, y: 8, w: 16, h: 16 }).unwrap();
    assert_eq!((ok.width, ok.height), (16, 16));
    assert_eq!(ok.pixels.len(), 16 * 16 * 4);
    assert!(img.crop_roi(Rect { x: 60, y: 0, w: 8, h: 8 }).is_err());
    assert!(img.crop_roi(Rect { x: 0, y: 0, w: 0, h: 8 }).is_err());
    assert!(img.crop_roi(Rect { x: u32::MAX, y: 0, w: 2, h: 2 }).is_err());
}

#[test]
fn hash_is_lowercase_blake3_of_pixels_and_dims() {
    let px = test_image(8, 4);
    let img = LoadedImage::from_rgba(px.clone(), 8, 4);
    let mut msg = px.clone();
    msg.extend_from_slice(&8u32.to_le_bytes());
    msg.extend_from_slice(&4u32.to_le_bytes());
    assert_eq!(img.hash(), blake3::hash(&msg).to_hex().as_str());
    assert_eq!(img.hash().len(), 64);
    assert!(img.hash().chars().all(|c| c.is_ascii_digit() || ('a'..='f').contains(&c)));
    // Same pixels, swapped dimensions: different identity.
    let swapped = LoadedImage::from_rgba(px, 4, 8);
    assert_ne!(img.hash(), swapped.hash());
    assert_eq!((img.width(), img.height()), (8, 4));
}

#[test]
fn crop_copies_exactly_the_region() {
    let (w, h) = (10u32, 6u32);
    let px: Vec<u8> = (0..(w * h * 4)).map(|i| (i % 251) as u8).collect();
    let img = LoadedImage::from_rgba(px.clone(), w, h);
    let roi = Rect { x: 3, y: 2, w: 4, h: 3 };
    let c = img.crop_roi(roi).unwrap();
    let mut expected = Vec::new();
    for r in 0..roi.h {
        for col in 0..roi.w {
            let s = (((roi.y + r) * w + roi.x + col) * 4) as usize;
            expected.extend_from_slice(&px[s..s + 4]);
        }
    }
    assert_eq!(c.pixels, expected);
    // The whole image is a valid region and crops to itself.
    let all = img.crop_roi(Rect { x: 0, y: 0, w, h }).unwrap();
    assert_eq!(all.pixels, px);
    assert_eq!(img.to_color_image().pixels, px);
    assert_eq!((img.to_color_image().width, img.to_color_image().height), (10, 6));
}

#[test]
fn roi_errors_carry_image_and_roi() {
    let img = load(64, 48);
    match img.check_roi(Rect { x: 60, y: 1, w: 8, h: 2 }) {
        Err(e @ StudioError::InvalidRoi { .. }) => {
            assert_eq!(e.message(), "ROI 超出图片范围（图片 64×48，ROI x=60 y=1 w=8 h=2）");
            match e {
                StudioError::InvalidRoi { width, height, x, y, w, h } => {
                    assert_eq!((width, height, x, y, w, h), (64, 48, 60, 1, 8, 2))
                }
                _ => unreachable!(),
            }
        }
        other => panic!("unexpected {other:?}"),
    }
    assert!(img.check_roi(Rect { x: 0, y: 40, w: 64, h: 8 }).is_ok());
    assert!(img.check_roi(Rect { x: 0, y: 41, w: 64, h: 8 }).is_err());
    assert!(img.check_roi(Rect { x: 0, y: 0, w: 1, h: 0 }).is_err());
    assert!(img.roi_reference_png(Rect { x: 0, y: 0, w: 65, h: 1 }).is_err());
}

#[test]
fn roi_reference_png_decodes_to_the_crop() {
    let img = load(40, 30);
    let roi = Rect { x: 5, y: 4, w: 20, h: 10 };
    let png = img.roi_reference_png(roi).unwrap();
    assert_eq!(&png[..8], &[0x89, b'P', b'N', b'G', 0x0d, 0x0a, 0x1a, 0x0a]);
    let decoded = image::load_from_memory(&png).unwrap().to_rgba8();
    assert_eq!((decoded.width(), decoded.height()), (20, 10));
    assert_eq!(decoded.into_raw(), img.crop_roi(roi).unwrap().pixels);
}

#[test]
fn encode_png_round_trips_and_reports_image_errors() {
    let px = test_image(16, 8);
    let png = encode_png(&px, 16, 8).unwrap();
    let decoded = image::load_from_memory(&png).unwrap().to_rgba8();
    assert_eq!(decoded.into_raw(), px);
    match encode_png(&Vec::new(), 0, 0) {
        Err(e @ StudioError::Image(_)) => assert!(e.message().starts_with("无法解码图片：")),
        other => panic!("unexpected {other:?}"),
    }
}

#[test]
fn encode_png_refuses_exactly_empty_images() {
    assert!(matches!(encode_png(&Vec::new(), 0, 3), Err(StudioError::Image(_))));
    assert!(matches!(encode_png(&Vec::new(), 3, 0), Err(StudioError::Image(_))));
    assert!(encode_png(&vec![7u8; 4], 1, 1).is_ok());
}
