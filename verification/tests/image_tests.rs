use instocr::geometry::RectI;
use instocr::image::{choose_image_scale, crop_capture, enlarged_size, pad_bgra, ImageScale, ScreenCapture};

fn capture(w: i32, h: i32) -> ScreenCapture {
    let bgra = (0..(w * h * 4) as usize).map(|i| (i % 251) as u8).collect();
    ScreenCapture { x: -100, y: 20, width: w, height: h, bgra }
}

fn reference_crop(cap: &ScreenCapture, l: i32, t: i32, r: i32, b: i32) -> Vec<u8> {
    let mut out = Vec::new();
    for row in t..b {
        let start = ((row * cap.width + l) * 4) as usize;
        let end = ((row * cap.width + r) * 4) as usize;
        out.extend_from_slice(&cap.bgra[start..end]);
    }
    out
}

#[test]
fn crop_copies_rows() {
    let cap = capture(10, 8);
    let sel = crop_capture(&cap, RectI { left: 2, top: 1, right: 7, bottom: 5 }).unwrap();
    assert_eq!((sel.width, sel.height), (5, 4));
    assert_eq!(sel.bgra, reference_crop(&cap, 2, 1, 7, 5));
    assert_eq!(sel.screen_rect, RectI { left: -98, top: 21, right: -93, bottom: 25 });
}

#[test]
fn crop_clamps_to_capture() {
    let cap = capture(6, 6);
    let sel = crop_capture(&cap, RectI { left: -5, top: 2, right: 50, bottom: 99 }).unwrap();
    assert_eq!((sel.width, sel.height), (6, 4));
    assert_eq!(sel.bgra, reference_crop(&cap, 0, 2, 6, 6));
}

#[test]
fn tiny_selection_is_refused() {
    let cap = capture(6, 6);
    let e = crop_capture(&cap, RectI { left: 0, top: 0, right: 2, bottom: 6 }).unwrap_err();
    assert_eq!(e, "selection is too small");
    assert!(crop_capture(&cap, RectI { left: 5, top: 0, right: 1, bottom: 6 }).is_err());
}

fn reference_pad(w: i32, h: i32, bgra: &[u8]) -> (i32, i32, Vec<u8>) {
    let pw = (w + 16).max(80);
    let ph = (h + 16).max(80);
    let mut padded = vec![0u8; (pw * ph * 4) as usize];
    for px in padded.chunks_exact_mut(4) {
        px.copy_from_slice(&bgra[0..4]);
    }
    for row in 0..h as usize {
        let src = row * w as usize * 4;
        let dst = ((row + 8) * pw as usize + 8) * 4;
        let n = w as usize * 4;
        padded[dst..dst + n].copy_from_slice(&bgra[src..src + n]);
    }
    (pw, ph, padded)
}

#[test]
fn small_image_is_padded_with_corner_colour() {
    let w = 5;
    let h = 3;
    let bgra: Vec<u8> = (0..(w * h * 4) as usize).map(|i| (i * 7 % 256) as u8).collect();
    let img = pad_bgra(w, h, &bgra).unwrap();
    let (pw, ph, expected) = reference_pad(w, h, &bgra);
    assert_eq!((img.width, img.height), (80, 80));
    assert_eq!((img.width, img.height), (pw, ph));
    assert_eq!(img.bgra, expected);
}

#[test]
fn wide_short_image_is_padded() {
    let w = 100;
    let h = 10;
    let bgra: Vec<u8> = (0..(w * h * 4) as usize).map(|i| (i % 256) as u8).collect();
    let img = pad_bgra(w, h, &bgra).unwrap();
    let (pw, ph, expected) = reference_pad(w, h, &bgra);
    assert_eq!((img.width, img.height), (116, 80));
    assert_eq!((pw, ph), (116, 80));
    assert_eq!(img.bgra, expected);
}

#[test]
fn large_image_is_kept() {
    let bgra: Vec<u8> = (0..64 * 64 * 4).map(|i| (i % 13) as u8).collect();
    let img = pad_bgra(64, 64, &bgra).unwrap();
    assert_eq!((img.width, img.height), (64, 64));
    assert_eq!(img.bgra, bgra);
}

#[test]
fn mismatched_buffer_is_refused() {
    let msg = "BGRA buffer length does not match dimensions";
    assert_eq!(pad_bgra(2, 2, &vec![0u8; 15]).unwrap_err(), msg);
    assert_eq!(pad_bgra(0, 2, &vec![]).unwrap_err(), msg);
    assert_eq!(pad_bgra(-3, 2, &vec![0u8; 8]).unwrap_err(), msg);
}

/// The scale decision as written with floating point.
fn reference_scale(w: i32, h: i32, max: i32) -> (f64, i32, i32) {
    let longer = w.max(h);
    let scale = if longer > max {
        max as f64 / longer as f64
    } else if longer <= 1000 && (w as f64 * 1.5) <= max as f64 && (h as f64 * 1.5) <= max as f64 {
        1.5
    } else {
        1.0
    };
    let ow = ((w as f64 * scale).round() as i32).clamp(1, max);
    let oh = ((h as f64 * scale).round() as i32).clamp(1, max);
    (scale, ow, oh)
}

#[test]
fn image_scale_matches_float_decision() {
    for &max in &[10, 80, 100, 150, 1500, 2600, 10000] {
        for &w in &[1, 2, 3, 7, 64, 80, 99, 100, 101, 666, 667, 999, 1000, 1001, 1733, 2600, 4000] {
            for &h in &[1, 5, 80, 333, 667, 1000, 1001, 3000] {
                let (scale, ow, oh) = reference_scale(w, h, max);
                match choose_image_scale(w, h, max) {
                    ImageScale::Shrink => assert!(scale < 1.0, "{w}x{h} max {max}"),
                    ImageScale::Enlarge => {
                        assert_eq!(scale, 1.5, "{w}x{h} max {max}");
                        assert_eq!(enlarged_size(w, h, max), (ow, oh), "{w}x{h} max {max}");
                    }
                    ImageScale::Keep => {
                        assert_eq!(scale, 1.0, "{w}x{h} max {max}");
                        assert_eq!((ow, oh), (w, h));
                    }
                }
            }
        }
    }
}

#[test]
fn image_scale_cases() {
    assert_eq!(choose_image_scale(80, 80, 2600), ImageScale::Enlarge);
    assert_eq!(enlarged_size(81, 80, 2600), (122, 120));
    assert_eq!(choose_image_scale(1001, 80, 2600), ImageScale::Keep);
    assert_eq!(choose_image_scale(1000, 1000, 1499), ImageScale::Keep);
    assert_eq!(choose_image_scale(1000, 1000, 1500), ImageScale::Enlarge);
    assert_eq!(choose_image_scale(3000, 80, 2600), ImageScale::Shrink);
}

#[test]
fn bad_buffers_are_refused_at_any_size() {
    let msg = "BGRA buffer length does not match dimensions";
    assert_eq!(pad_bgra(i32::MAX, 1, &vec![]).unwrap_err(), msg);
    assert_eq!(pad_bgra(i32::MAX, i32::MAX, &vec![0; 16]).unwrap_err(), msg);
    assert_eq!(pad_bgra(0, 5, &vec![]).unwrap_err(), msg);
    assert_eq!(pad_bgra(-3, -3, &vec![0; 36]).unwrap_err(), msg);
}

#[test]
fn large_unpadded_image_passes_through() {
    let bgra: Vec<u8> = (0..64 * 70 * 4).map(|i| (i % 7) as u8).collect();
    let p = pad_bgra(64, 70, &bgra).unwrap();
    assert_eq!((p.width, p.height), (64, 70));
    assert_eq!(p.bgra, bgra);
}

#[test]
fn crop_near_the_end_of_the_screen() {
    let mut cap = capture(20, 20);
    cap.x = i32::MAX - 10;
    cap.y = i32::MAX - 6;
    let sel = crop_capture(&cap, RectI { left: 1, top: 1, right: 6, bottom: 5 }).unwrap();
    assert_eq!(sel.screen_rect, RectI { left: i32::MAX - 9, top: i32::MAX - 5, right: i32::MAX - 4, bottom: i32::MAX - 1 });
    assert_eq!(sel.bgra, reference_crop(&cap, 1, 1, 6, 5));
    let cap4 = capture(4, 4);
    assert_eq!(crop_capture(&cap4, RectI { left: -5, top: -5, right: 2, bottom: 2 }).unwrap_err(), "selection is too small");
}
