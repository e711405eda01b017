use ascii_rs::glyph::{pixel_glyph_index, GLYPH_RAMP, RAMP_LEN};
use ascii_rs::pipeline::process_single_frame;
use ascii_rs::raster::resize_and_center;
use ascii_rs::render::reconstruct_frame_string;
use ascii_rs::rle::{convert_image_to_ascii, encode_raster, Raster, RleFrame, RleRun};

fn lcg(seed: &mut u64) -> u8 {
    *seed = seed.wrapping_mul(6364136223846793005).wrapping_add(1442695040888963407);
    (*seed >> 33) as u8
}

fn random_raster(w: u32, h: u32, seed: u64, palette: u8) -> Raster {
    let mut s = seed;
    let mut pixels = Vec::new();
    for _ in 0..(w * h) {
        let v = lcg(&mut s) % palette;
        pixels.push([v.wrapping_mul(37), v.wrapping_mul(91), v.wrapping_mul(13)]);
    }
    Raster { width: w, height: h, pixels }
}

fn expand(frame: &RleFrame) -> Vec<(u8, [u8; 3])> {
    let mut out = Vec::new();
    for r in &frame.runs {
        for _ in 0..r.count {
            out.push((r.ascii_idx, r.color));
        }
    }
    out
}

fn expected_cells(img: &Raster, ramp_len: usize) -> Vec<(u8, [u8; 3])> {
    img.pixels.iter().map(|p| (pixel_glyph_index(*p, ramp_len), *p)).collect()
}

fn strip_escapes(s: &str) -> String {
    let mut out = String::new();
    let mut in_escape = false;
    for c in s.chars() {
        if in_escape {
            if c == 'm' {
                in_escape = false;
            }
        } else if c == '\x1b' {
            in_escape = true;
        } else {
            out.push(c);
        }
    }
    out
}

fn check_maximal(frame: &RleFrame) {
    let w = frame.width as usize;
    let mut pos = 0usize;
    let mut prev: Option<&RleRun> = None;
    for r in &frame.runs {
        assert!(r.count >= 1);
        let start = pos;
        let end = pos + r.count as usize - 1;
        assert_eq!(start / w, end / w, "a run crosses a row boundary");
        if let Some(p) = prev {
            if start % w != 0 {
                assert!(!(p.ascii_idx == r.ascii_idx && p.color == r.color));
            }
        }
        prev = Some(r);
        pos += r.count as usize;
    }
}

#[test]
fn round_trip_random_grids() {
    for (w, h, seed, palette) in [(1, 1, 1, 255), (7, 3, 2, 255), (13, 11, 3, 2), (40, 9, 4, 3), (5, 20, 5, 255)] {
        let img = random_raster(w, h, seed, palette);
        let frame = encode_raster(&img, 10);
        assert_eq!(frame.width as u32, w);
        assert_eq!(expand(&frame), expected_cells(&img, 10));
        check_maximal(&frame);
    }
}

#[test]
fn round_trip_identical_grid() {
    let img = Raster { width: 6, height: 4, pixels: vec![[9, 9, 9]; 24] };
    let frame = convert_image_to_ascii(&img);
    assert_eq!(frame.runs.len(), 4);
    for r in &frame.runs {
        assert_eq!(r.count, 6);
        assert_eq!(r.color, [9, 9, 9]);
    }
    assert_eq!(expand(&frame), expected_cells(&img, RAMP_LEN));
}

#[test]
fn runs_break_at_row_boundaries_and_on_change() {
    let img = Raster {
        width: 3,
        height: 2,
        pixels: vec![[0, 0, 0], [0, 0, 0], [255, 255, 255], [255, 255, 255], [0, 0, 0], [0, 0, 0]],
    };
    let frame = encode_raster(&img, 10);
    let summary: Vec<(u8, u16)> = frame.runs.iter().map(|r| (r.ascii_idx, r.count)).collect();
    assert_eq!(summary, vec![(0, 2), (9, 1), (9, 1), (0, 2)]);
}

#[test]
fn empty_raster_gives_empty_frame() {
    let img = Raster { width: 0, height: 5, pixels: vec![] };
    let frame = convert_image_to_ascii(&img);
    assert_eq!(frame.width, 0);
    assert!(frame.runs.is_empty());
    assert_eq!(reconstruct_frame_string(&frame), "");
}

#[test]
fn uniform_fixture_80_by_23() {
    let img = Raster { width: 80, height: 23, pixels: vec![[120, 120, 120]; 80 * 23] };
    assert_eq!(pixel_glyph_index([120, 120, 120], 10), 4);
    let frame = encode_raster(&img, 10);
    assert_eq!(frame.width, 80);
    // one run per row: runs never span two rows
    assert_eq!(frame.runs.len(), 23);
    assert!(frame.runs.iter().all(|r| r.ascii_idx == 4 && r.count == 80));
    let total: u32 = frame.runs.iter().map(|r| r.count as u32).sum();
    assert_eq!(total, 1840);
    let text = strip_escapes(&reconstruct_frame_string(&frame));
    let lines: Vec<&str> = text.lines().collect();
    assert_eq!(lines.len(), 23);
    let glyph = GLYPH_RAMP.chars().nth(4).unwrap();
    for l in lines {
        assert_eq!(l.chars().count(), 80);
        assert!(l.chars().all(|c| c == glyph));
    }
}

#[test]
fn reconstruct_exact_text() {
    let frame = RleFrame {
        width: 2,
        runs: vec![
            RleRun { ascii_idx: 0, color: [1, 2, 3], count: 2 },
            RleRun { ascii_idx: 1, color: [1, 2, 3], count: 1 },
            RleRun { ascii_idx: 1, color: [4, 5, 6], count: 1 },
        ],
    };
    assert_eq!(
        reconstruct_frame_string(&frame),
        "\x1b[38;2;1;2;3m  \n.\x1b[0m\x1b[38;2;4;5;6m.\n\x1b[0m"
    );
}

#[test]
fn glyph_index_formula() {
    assert_eq!(pixel_glyph_index([0, 0, 0], 93), 0);
    assert_eq!(pixel_glyph_index([255, 255, 255], 93), 92);
    assert_eq!(pixel_glyph_index([255, 255, 255], 1), 0);
    // 0.7152 * 255 / 255 * 9 = 6.44 -> 6
    assert_eq!(pixel_glyph_index([0, 255, 0], 10), 6);
    assert_eq!(pixel_glyph_index([128, 128, 128], 10), 5);
}

#[test]
fn resize_degenerate_geometry() {
    let img = Raster { width: 2, height: 2, pixels: vec![[200, 10, 10]; 4] };
    let r = resize_and_center(&img, 0, 10);
    assert_eq!((r.width, r.height), (1, 1));
    assert_eq!(r.pixels, vec![[0, 0, 0]]);
    let r = resize_and_center(&img, 10, 1);
    assert_eq!((r.width, r.height), (1, 1));
    let empty = Raster { width: 0, height: 0, pixels: vec![] };
    let r = resize_and_center(&empty, 4, 3);
    assert_eq!((r.width, r.height), (4, 2));
    assert!(r.pixels.iter().all(|p| *p == [0, 0, 0]));
}

#[test]
fn resize_letterboxes_a_tall_image() {
    // a 2 x 8 image in a 10 x 5 grid: fitted height 8*10/2/2 = 20 > 4,
    // so height 4 and width round(10*4/20) = 2, centred at column 4
    let img = Raster { width: 2, height: 8, pixels: vec![[250, 250, 250]; 16] };
    let r = resize_and_center(&img, 10, 5);
    assert_eq!((r.width, r.height), (10, 4));
    for y in 0..4usize {
        for x in 0..10usize {
            let p = r.pixels[y * 10 + x];
            if x == 4 || x == 5 {
                assert_eq!(p, [250, 250, 250], "inside at {} {}", x, y);
            } else {
                assert_eq!(p, [0, 0, 0], "outside at {} {}", x, y);
            }
        }
    }
}

#[test]
fn resize_resamples_to_the_fitted_size() {
    // 4 x 1 image into a 2 x 2 terminal (2 x 1 grid): fitted 2 x 1, so the
    // image is halved in width, each output pixel mixing two input pixels
    let img = Raster { width: 4, height: 1, pixels: vec![[0, 0, 0], [200, 200, 200], [0, 0, 0], [200, 200, 200]] };
    let r = resize_and_center(&img, 2, 2);
    assert_eq!((r.width, r.height), (2, 1));
    assert_eq!(r.pixels.len(), 2);
    assert_ne!(r.pixels, vec![[0, 0, 0], [200, 200, 200]]);
}

#[test]
fn single_frame_of_an_image_of_the_grid_size() {
    let img = Raster { width: 2, height: 1, pixels: vec![[0, 0, 0], [255, 255, 255]] };
    let frame = process_single_frame(&img, (2, 2));
    assert_eq!(frame.width, 2);
    assert_eq!(frame.runs.len(), 2);
    assert_eq!(frame.runs[0].ascii_idx, 0);
    assert_eq!(frame.runs[1].ascii_idx, (RAMP_LEN - 1) as u8);
}
