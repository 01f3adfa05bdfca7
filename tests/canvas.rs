use image_canvas::{
    adjust_pixels, apply_brightness, apply_contrast, apply_opacity, composite, pad_to_square,
    recompute, ImageApp, ImageLayer, Raster, OPAQUE,
};

fn raster(width: u32, height: u32, data: Vec<u8>) -> Raster {
    Raster::from_rgba(width, height, data).expect("byte count matches")
}

fn solid(side: u32, px: [u8; 4]) -> Raster {
    let mut data = Vec::new();
    for _ in 0..side * side {
        data.extend_from_slice(&px);
    }
    raster(side, side, data)
}

fn pixel(r: &Raster, x: u32, y: u32) -> [u8; 4] {
    let i = 4 * (y * r.width + x) as usize;
    [r.data[i], r.data[i + 1], r.data[i + 2], r.data[i + 3]]
}

#[test]
fn from_rgba_checks_byte_count() {
    assert!(Raster::from_rgba(2, 2, vec![0; 16]).is_some());
    assert!(Raster::from_rgba(2, 2, vec![0; 15]).is_none());
}

#[test]
fn pad_wide_image_centres_it_vertically() {
    let img = raster(3, 1, vec![1, 2, 3, 4, 5, 6, 7, 8, 9, 10, 11, 12]);
    let r = pad_to_square(&img);
    assert_eq!((r.width, r.height), (3, 3));
    assert_eq!(pixel(&r, 0, 1), [1, 2, 3, 4]);
    assert_eq!(pixel(&r, 1, 1), [5, 6, 7, 8]);
    assert_eq!(pixel(&r, 2, 1), [9, 10, 11, 12]);
    for x in 0..3 {
        assert_eq!(pixel(&r, x, 0), [0, 0, 0, 0]);
        assert_eq!(pixel(&r, x, 2), [0, 0, 0, 0]);
    }
}

#[test]
fn pad_tall_image_uses_floor_offset() {
    let img = raster(1, 4, (1..=16).collect());
    let r = pad_to_square(&img);
    assert_eq!((r.width, r.height), (4, 4));
    // offset x = (4 - 1) / 2 = 1
    for y in 0..4 {
        let b = (4 * y + 1) as u8;
        assert_eq!(pixel(&r, 1, y), [b, b + 1, b + 2, b + 3]);
        assert_eq!(pixel(&r, 0, y), [0, 0, 0, 0]);
        assert_eq!(pixel(&r, 2, y), [0, 0, 0, 0]);
        assert_eq!(pixel(&r, 3, y), [0, 0, 0, 0]);
    }
}

#[test]
fn pad_square_image_is_unchanged() {
    let img = raster(2, 2, (0..16).collect());
    let r = pad_to_square(&img);
    assert_eq!((r.width, r.height), (2, 2));
    assert_eq!(r.data, img.data);
}

#[test]
fn pad_empty_image() {
    let r = pad_to_square(&raster(0, 0, vec![]));
    assert_eq!((r.width, r.height), (0, 0));
    assert!(r.data.is_empty());
}

#[test]
fn brightness_saturates_and_keeps_alpha() {
    let img = raster(2, 1, vec![250, 5, 100, 77, 0, 255, 128, 10]);
    let up = apply_brightness(&img, 10);
    assert_eq!(up.data, vec![255, 15, 110, 77, 10, 255, 138, 10]);
    let down = apply_brightness(&img, -10);
    assert_eq!(down.data, vec![240, 0, 90, 77, 0, 245, 118, 10]);
}

#[test]
fn contrast_zero_is_identity() {
    let img = raster(2, 1, vec![0, 1, 127, 9, 128, 200, 255, 250]);
    assert_eq!(apply_contrast(&img, 0).data, img.data);
}

#[test]
fn contrast_curve_exact_values() {
    let img = raster(2, 1, vec![200, 130, 100, 40, 0, 255, 127, 200]);
    // factor ((100 + 100) / 100)^2 = 4 around 127.5, rounded half up
    let r = apply_contrast(&img, 100);
    assert_eq!(r.data, vec![255, 138, 18, 40, 0, 255, 126, 200]);
    // factor 0: every colour channel goes to 127.5, rounded up
    let flat = apply_contrast(&img, -100);
    assert_eq!(flat.data, vec![128, 128, 128, 40, 128, 128, 128, 200]);
    // factor 0.25
    let soft = apply_contrast(&img, -50);
    assert_eq!(soft.data[0], 146); // 127.5 + 72.5 / 4 = 145.625
    assert_eq!(soft.data[4], 96); // 127.5 - 127.5 / 4 = 95.625
}

#[test]
fn opacity_half_rounds_up() {
    let img = raster(1, 1, vec![10, 20, 30, 255]);
    let r = apply_opacity(&img, 500);
    assert_eq!(r.data, vec![10, 20, 30, 128]);
}

#[test]
fn opacity_bounds() {
    let img = raster(2, 1, vec![1, 2, 3, 255, 4, 5, 6, 3]);
    assert_eq!(apply_opacity(&img, 0).data, vec![1, 2, 3, 0, 4, 5, 6, 0]);
    assert_eq!(apply_opacity(&img, OPAQUE).data, img.data);
    // 3 * 0.5 = 1.5 rounds to 2
    assert_eq!(apply_opacity(&img, 500).data[7], 2);
}

#[test]
fn adjustment_order_matters() {
    let img = raster(1, 1, vec![100, 100, 100, 255]);
    let pipeline = adjust_pixels(&img, 50, 100, OPAQUE);
    let swapped = apply_brightness(&apply_contrast(&img, 100), 50);
    assert_eq!(pipeline.data, vec![218, 218, 218, 255]);
    assert_eq!(swapped.data, vec![68, 68, 68, 255]);
    assert_ne!(pipeline.data, swapped.data);
}

#[test]
fn pipeline_runs_brightness_contrast_opacity() {
    let img = raster(1, 1, vec![100, 0, 250, 200]);
    let r = adjust_pixels(&img, 50, 100, 250);
    let expected = apply_opacity(&apply_contrast(&apply_brightness(&img, 50), 100), 250);
    assert_eq!(r.data, expected.data);
    assert_eq!(r.data[3], 50);
}

fn dirty_layer(side: u32, px: [u8; 4], brightness: i32, opacity: u16) -> ImageLayer {
    let mut l = ImageLayer::new(solid(side, px));
    l.brightness = brightness;
    l.opacity = opacity;
    l
}

#[test]
fn recompute_renders_dirty_layers_once() {
    let layers = vec![dirty_layer(2, [10, 20, 30, 255], 20, OPAQUE), dirty_layer(2, [0, 0, 0, 200], 0, 500)];
    let first = recompute(layers);
    assert!(first.iter().all(|l| !l.dirty));
    assert_eq!(pixel(first[0].rendered.as_ref().unwrap(), 1, 1), [30, 40, 50, 255]);
    assert_eq!(pixel(first[1].rendered.as_ref().unwrap(), 0, 0), [0, 0, 0, 100]);
    let snapshot: Vec<Vec<u8>> = first.iter().map(|l| l.rendered.as_ref().unwrap().data.clone()).collect();
    let second = recompute(first);
    assert!(second.iter().all(|l| !l.dirty));
    let again: Vec<Vec<u8>> = second.iter().map(|l| l.rendered.as_ref().unwrap().data.clone()).collect();
    assert_eq!(snapshot, again);
}

#[test]
fn recompute_passes_clean_and_inputless_layers() {
    let mut clean = dirty_layer(1, [1, 2, 3, 4], 0, OPAQUE);
    clean.dirty = false;
    clean.rendered = Some(raster(1, 1, vec![9, 9, 9, 9]));
    let mut no_input = dirty_layer(1, [1, 2, 3, 4], 0, OPAQUE);
    no_input.cached_rgba = None;
    let out = recompute(vec![clean, no_input]);
    assert_eq!(out[0].rendered.as_ref().unwrap().data, vec![9, 9, 9, 9]);
    assert!(out[1].dirty);
    assert!(out[1].rendered.is_none());
}

#[test]
fn composite_single_opaque_layer_is_its_rendering() {
    let layers = recompute(vec![dirty_layer(2, [10, 200, 30, 255], 5, OPAQUE)]);
    let out = composite(&layers).expect("one visible layer");
    assert_eq!(out.data, layers[0].rendered.as_ref().unwrap().data);
    assert_eq!((out.width, out.height), (2, 2));
}

#[test]
fn composite_without_visible_layers_is_none() {
    assert!(composite(&Vec::new()).is_none());
    let mut layers = recompute(vec![dirty_layer(2, [1, 1, 1, 255], 0, OPAQUE)]);
    layers[0].visible = false;
    assert!(composite(&layers).is_none());
}

#[test]
fn composite_blends_translucent_over_opaque() {
    let layers = recompute(vec![
        dirty_layer(1, [0, 0, 0, 255], 0, OPAQUE),
        dirty_layer(1, [255, 255, 255, 255], 0, 500),
    ]);
    let out = composite(&layers).unwrap();
    assert!(out.data[3] >= 254, "got {}", out.data[3]);
    assert!(out.data[0] == 127 || out.data[0] == 128, "got {}", out.data[0]);
}

#[test]
fn composite_transparent_top_leaves_bottom() {
    let layers = recompute(vec![
        dirty_layer(1, [40, 50, 60, 255], 0, OPAQUE),
        dirty_layer(1, [255, 255, 255, 255], 0, 0),
    ]);
    assert_eq!(composite(&layers).unwrap().data, vec![40, 50, 60, 255]);
}

#[test]
fn composite_sizes_to_first_visible_and_clips() {
    let mut layers = recompute(vec![
        dirty_layer(3, [9, 9, 9, 255], 0, OPAQUE),
        dirty_layer(2, [1, 2, 3, 255], 0, OPAQUE),
        dirty_layer(1, [7, 7, 7, 255], 0, OPAQUE),
    ]);
    layers[0].visible = false;
    let out = composite(&layers).unwrap();
    assert_eq!((out.width, out.height), (2, 2));
    assert_eq!(pixel(&out, 0, 0), [7, 7, 7, 255]);
    assert_eq!(pixel(&out, 1, 0), [1, 2, 3, 255]);
    assert_eq!(pixel(&out, 1, 1), [1, 2, 3, 255]);
    // a larger layer above a smaller canvas is clipped to it
    let big_on_top = recompute(vec![
        dirty_layer(1, [5, 5, 5, 255], 0, OPAQUE),
        dirty_layer(3, [6, 6, 6, 255], 0, OPAQUE),
    ]);
    let out = composite(&big_on_top).unwrap();
    assert_eq!(out.data, vec![6, 6, 6, 255]);
}

#[test]
fn session_load_frames_and_renders() {
    let mut app = ImageApp::default();
    app.load_layer(raster(2, 1, vec![1, 2, 3, 255, 4, 5, 6, 255]));
    assert_eq!(app.layers.len(), 1);
    let l = &app.layers[0];
    assert_eq!((l.image.width, l.image.height), (2, 2));
    assert!(!l.dirty && l.visible);
    assert_eq!(l.rendered.as_ref().unwrap().data, l.image.data);
    assert_eq!(l.original_rgba.data, l.image.data);
}

#[test]
fn session_adjust_only_changes_on_new_values() {
    let mut app = ImageApp::default();
    app.load_layer(solid(1, [100, 100, 100, 255]));
    assert!(!app.set_opacity(0, OPAQUE));
    assert!(!app.set_brightness(0, 0));
    assert!(!app.set_contrast(0, 0));
    assert!(app.set_brightness(0, 50));
    assert_eq!(app.layers[0].rendered.as_ref().unwrap().data, vec![150, 150, 150, 255]);
    assert!(app.set_contrast(0, 100));
    assert_eq!(app.layers[0].rendered.as_ref().unwrap().data, vec![218, 218, 218, 255]);
    assert!(app.set_opacity(0, 500));
    assert_eq!(app.layers[0].rendered.as_ref().unwrap().data, vec![218, 218, 218, 128]);
    assert!(!app.layers[0].dirty);
}

#[test]
fn session_reset_restores_as_loaded() {
    let mut app = ImageApp::default();
    app.load_layer(raster(1, 2, vec![10, 20, 30, 255, 40, 50, 60, 200]));
    let loaded = app.layers[0].rendered.as_ref().unwrap().data.clone();
    app.set_brightness(0, -40);
    app.set_contrast(0, 30);
    app.set_opacity(0, 100);
    assert_ne!(app.layers[0].rendered.as_ref().unwrap().data, loaded);
    app.reset_layer(0);
    let l = &app.layers[0];
    assert_eq!((l.opacity, l.brightness, l.contrast), (OPAQUE, 0, 0));
    assert_eq!(l.rendered.as_ref().unwrap().data, loaded);
}

#[test]
fn session_visibility_and_top_layer() {
    let mut app = ImageApp::default();
    assert_eq!(app.top_visible(), None);
    assert!(app.export().is_none());
    app.load_layer(solid(2, [1, 1, 1, 255]));
    app.load_layer(solid(2, [2, 2, 2, 255]));
    assert_eq!(app.top_visible(), Some(1));
    assert!(app.set_visible(1, false));
    assert!(!app.set_visible(1, false));
    assert_eq!(app.top_visible(), Some(0));
    assert_eq!(pixel(&app.export().unwrap(), 0, 0), [1, 1, 1, 255]);
    app.set_visible(0, false);
    assert_eq!(app.top_visible(), None);
    assert!(app.export().is_none());
}

#[test]
fn session_replace_geometry_keeps_settings() {
    let mut app = ImageApp::default();
    app.load_layer(solid(2, [100, 100, 100, 255]));
    app.set_brightness(0, 10);
    app.replace_geometry(0, raster(3, 1, vec![0, 0, 0, 255, 50, 50, 50, 255, 0, 0, 0, 0]));
    let l = &app.layers[0];
    assert_eq!((l.image.width, l.image.height), (3, 3));
    assert_eq!(l.brightness, 10);
    assert!(!l.dirty);
    let r = l.rendered.as_ref().unwrap();
    assert_eq!(pixel(r, 1, 1), [60, 60, 60, 255]);
    assert_eq!(pixel(r, 1, 0), [10, 10, 10, 0]);
    assert_eq!(l.original_rgba.width, 2);
    app.reset_layer(0);
    assert_eq!(app.layers[0].rendered.as_ref().unwrap().data, solid(2, [100, 100, 100, 255]).data);
}
