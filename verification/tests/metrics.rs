use studio_core::{LoadedImage, Metrics, Rect, StudioConfig};
use visioncortex::{Color, CompoundPath};

fn test_image(w: u32, h: u32) -> Vec<u8> {
    let mut px = Vec::with_capacity((w * h * 4) as usize);
    for y in 0..h {
        for x in 0..w {
            let p = if y < h / 8 {
                [40, 200, 60, 255]
            } else if x > w / 4 && x < 3 * w / 4 && y > h / 4 && y < 3 * h / 4 {
                [30, 60, 220, 255]
            } else {
                [220, 40, 40, 255]
            };
            px.extend_from_slice(&p);
        }
    }
    px
}

/// The tracer config of a studio config, field by field.
fn tracer_config(c: &StudioConfig) -> vtracer::Config {
    vtracer::Config {
        color_mode: vtracer::ColorMode::Color,
        hierarchical: vtracer::Hierarchical::Stacked,
        mode: visioncortex::PathSimplifyMode::Spline,
        filter_speckle: c.filter_speckle as usize,
        color_precision: c.color_precision,
        layer_difference: c.gradient_step,
        corner_threshold: c.corner_threshold,
        length_threshold: f64::from_bits(c.segment_length_bits),
        max_iterations: c.max_iterations,
        splice_threshold: c.splice_threshold,
        path_precision: c.path_precision,
    }
}

#[test]
fn metrics_count_paths_colors_and_bytes() {
    let mut svg = vtracer::SvgFile::new(10, 10, Some(2));
    svg.add_path(CompoundPath::new(), Color::new(1, 2, 3));
    svg.add_path(CompoundPath::new(), Color::new(9, 9, 9));
    svg.add_path(CompoundPath::new(), Color::new(1, 2, 3));
    svg.add_path(CompoundPath::new(), Color::new(1, 2, 4));
    let text = "<svg>é</svg>";
    let m = Metrics::from_svg(&svg, text, 17);
    assert_eq!(m.paths, 4);
    assert_eq!(m.colors, 3);
    assert_eq!(m.svg_bytes, 13);
    assert_eq!(m.elapsed_ms, 17);
    let empty = vtracer::SvgFile::new(1, 1, None);
    let m = Metrics::from_svg(&empty, "", 0);
    assert_eq!((m.paths, m.colors, m.svg_bytes), (0, 0, 0));
}

#[test]
fn golden_roi_converts_to_svg() {
    let img = LoadedImage::from_rgba(test_image(64, 64), 64, 64);
    let roi = img.crop_roi(Rect { x: 0, y: 0, w: 64, h: 64 }).unwrap();
    let input = vtracer::ColorImage { pixels: roi.pixels, width: roi.width, height: roi.height };
    let svg = vtracer::convert(input, tracer_config(&StudioConfig::default())).unwrap();
    assert!(!svg.paths.is_empty());
    let text = svg.to_string();
    assert!(text.contains("<path"));
    assert!(text.contains("<svg"));
    let m = Metrics::from_svg(&svg, &text, 0);
    assert_eq!(m.paths, svg.paths.len());
    assert_eq!(m.svg_bytes, text.len());
    assert!(m.colors >= 1 && m.colors <= m.paths);
}
