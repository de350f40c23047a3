use std::cell::RefCell;

use pigment_canvas::{clamp_channel, ImageBuffer, CELLS, HEIGHT, WIDTH};

type Pigment = [[f64; 38]; 2];

fn white() -> Pigment {
    [[0.25; 38], [1.5; 38]]
}

fn pixel(b: &ImageBuffer<u32>, p: usize) -> [u32; 4] {
    let bytes = b.rgb();
    [bytes[4 * p], bytes[4 * p + 1], bytes[4 * p + 2], bytes[4 * p + 3]]
}

fn cells(b: &ImageBuffer<u32>) -> Vec<u32> {
    (0..CELLS).map(|p| *b.cell(p)).collect()
}

/// The pixels a stamp visits, in order, with the offsets it hands to `mix`.
fn visits(x: i32, y: i32, r: i32) -> Vec<(usize, i32, i32)> {
    let mut b: ImageBuffer<u32> = ImageBuffer::new(0);
    b.init([1, 2, 3]);
    let seen = RefCell::new(Vec::new());
    b.update(x, y, r, |c: u32, dx: i32, dy: i32| {
        let col = (x as i64 + dx as i64) as usize;
        let row = (y as i64 + dy as i64) as usize;
        seen.borrow_mut().push((row * WIDTH + col, dx, dy));
        Some((c, [0, 0, 0]))
    });
    seen.into_inner()
}

#[test]
fn test_buffer() {
    let mut buffer: ImageBuffer<Pigment> = ImageBuffer::new(white());
    buffer.update(0, 0, 1, |c: Pigment, _dx: i32, _dy: i32| {
        let mut m = c;
        m[0][0] = 1.;
        Some((m, [255, 255, 255]))
    });
    assert_eq!(*buffer.cell(1), white());
    assert_ne!(*buffer.cell(0), white());
}

#[test]
fn clamp_channel_keeps_bytes_and_caps_the_rest() {
    assert_eq!(clamp_channel(0), 0);
    assert_eq!(clamp_channel(119), 119);
    assert_eq!(clamp_channel(255), 255);
    assert_eq!(clamp_channel(256), 255);
    assert_eq!(clamp_channel(337), 255);
    assert_eq!(clamp_channel(u32::MAX), 255);
}

#[test]
fn new_canvas_is_opaque_white_placeholder() {
    let b: ImageBuffer<u32> = ImageBuffer::new(9);
    assert_eq!(WIDTH, 500);
    assert_eq!(HEIGHT, 500);
    assert_eq!(b.rgb().len(), 4 * WIDTH * HEIGHT);
    assert!(b.rgb().iter().all(|&v| v == 255));
    assert!(cells(&b).iter().all(|&c| c == 9));
}

#[test]
fn init_paints_clamped_colour_everywhere() {
    let mut b: ImageBuffer<u32> = ImageBuffer::new(9);
    b.init([337, 119, 0]);
    for p in 0..CELLS {
        assert_eq!(pixel(&b, p), [255, 119, 0, 255]);
    }
    assert!(cells(&b).iter().all(|&c| c == 9));
}

#[test]
fn init_twice_gives_the_same_colour() {
    let mut b: ImageBuffer<u32> = ImageBuffer::new(9);
    b.init([12, 34, 56]);
    let once = b.rgb().to_vec();
    b.init([12, 34, 56]);
    assert_eq!(b.rgb().to_vec(), once);
}

#[test]
fn nonpositive_radius_changes_nothing() {
    for r in [0, -1, -7, i32::MIN] {
        let mut b: ImageBuffer<u32> = ImageBuffer::new(9);
        b.init([10, 20, 30]);
        let bytes = b.rgb().to_vec();
        b.update(250, 250, r, |_c: u32, _dx: i32, _dy: i32| Some((1, [0, 0, 0])));
        assert_eq!(b.rgb().to_vec(), bytes);
        assert!(cells(&b).iter().all(|&c| c == 9));
    }
}

#[test]
fn declining_mix_changes_nothing() {
    let mut b: ImageBuffer<u32> = ImageBuffer::new(9);
    b.init([10, 20, 30]);
    let bytes = b.rgb().to_vec();
    b.update(100, 120, 40, |_c: u32, _dx: i32, _dy: i32| None);
    assert_eq!(b.rgb().to_vec(), bytes);
    assert!(cells(&b).iter().all(|&c| c == 9));
}

#[test]
fn stamp_visits_its_square_row_by_row() {
    let got = visits(10, 20, 2);
    let mut want = Vec::new();
    for dy in -2..2 {
        for dx in -2..2 {
            let p = (20 + dy) as usize * WIDTH + (10 + dx) as usize;
            want.push((p, dx, dy));
        }
    }
    assert_eq!(got, want);
}

#[test]
fn stamp_is_clipped_at_the_origin_corner() {
    assert_eq!(
        visits(0, 0, 2),
        vec![(0, 0, 0), (1, 1, 0), (WIDTH, 0, 1), (WIDTH + 1, 1, 1)]
    );
    assert_eq!(visits(0, 0, 1), vec![(0, 0, 0)]);
}

#[test]
fn stamp_is_clipped_at_the_far_corner() {
    let last = CELLS - 1;
    assert_eq!(
        visits(499, 499, 2),
        vec![
            (last - 2 * WIDTH - 2, -2, -2),
            (last - 2 * WIDTH - 1, -1, -2),
            (last - 2 * WIDTH, 0, -2),
            (last - WIDTH - 2, -2, -1),
            (last - WIDTH - 1, -1, -1),
            (last - WIDTH, 0, -1),
            (last - 2, -2, 0),
            (last - 1, -1, 0),
            (last, 0, 0),
        ]
    );
}

#[test]
fn stamp_off_the_canvas_visits_nothing() {
    assert!(visits(-5, 10, 3).is_empty());
    assert!(visits(10, 502, 2).is_empty());
    assert!(visits(i32::MIN, i32::MIN, i32::MAX).is_empty());
    assert_eq!(visits(-2, 0, 3).len(), 3);
}

#[test]
fn huge_radius_visits_every_pixel_once() {
    let got = visits(i32::MAX, 0, i32::MAX);
    assert_eq!(got.len(), CELLS);
    assert!(got.iter().enumerate().all(|(i, v)| v.0 == i));
}

#[test]
fn pixels_outside_the_square_are_untouched() {
    let mut b: ImageBuffer<u32> = ImageBuffer::new(9);
    b.init([10, 20, 30]);
    b.update(10, 10, 3, |_c: u32, _dx: i32, _dy: i32| Some((5, [40, 50, 60])));
    for p in 0..CELLS {
        let (col, row) = ((p % WIDTH) as i32, (p / WIDTH) as i32);
        let inside = (7..13).contains(&col) && (7..13).contains(&row);
        if inside {
            assert_eq!(pixel(&b, p), [40, 50, 60, 255]);
            assert_eq!(*b.cell(p), 5);
        } else {
            assert_eq!(pixel(&b, p), [10, 20, 30, 255]);
            assert_eq!(*b.cell(p), 9);
        }
    }
}

#[test]
fn single_pixel_stamp_at_origin_replaces_only_that_pixel() {
    let mut b: ImageBuffer<u32> = ImageBuffer::new(9);
    b.init([240, 241, 242]);
    b.update(0, 0, 1, |_c: u32, dx: i32, dy: i32| {
        assert_eq!((dx, dy), (0, 0));
        Some((4, [337, 119, 0]))
    });
    assert_eq!(pixel(&b, 0), [255, 119, 0, 255]);
    assert_eq!(*b.cell(0), 4);
    for p in 1..CELLS {
        assert_eq!(pixel(&b, p), [240, 241, 242, 255]);
        assert_eq!(*b.cell(p), 9);
    }
}

#[test]
fn replacing_stamp_twice_equals_once() {
    let replace = |_c: u32, dx: i32, dy: i32| Some(((dx * 10 + dy) as u32, [7, 8, 9]));
    let mut once: ImageBuffer<u32> = ImageBuffer::new(9);
    once.init([1, 2, 3]);
    once.update(30, 40, 5, replace);
    let mut twice: ImageBuffer<u32> = ImageBuffer::new(9);
    twice.init([1, 2, 3]);
    twice.update(30, 40, 5, replace);
    twice.update(30, 40, 5, replace);
    assert_eq!(once.rgb(), twice.rgb());
    assert_eq!(cells(&once), cells(&twice));
}

#[test]
fn mix_sees_the_current_pigment() {
    let mut b: ImageBuffer<u32> = ImageBuffer::new(1);
    b.init([0, 0, 0]);
    for _ in 0..3 {
        b.update(5, 5, 1, |c: u32, _dx: i32, _dy: i32| Some((c * 2, [c, c, c])));
    }
    assert_eq!(*b.cell(4 * WIDTH + 4), 8);
    assert_eq!(pixel(&b, 4 * WIDTH + 4), [4, 4, 4, 255]);
}

#[test]
fn bytes_stay_in_range_and_opaque_after_updates() {
    let mut b: ImageBuffer<u32> = ImageBuffer::new(0);
    b.init([u32::MAX, 0, 1000]);
    b.update(0, 0, 50, |_c: u32, dx: i32, _dy: i32| Some((1, [dx as u32, 300, 12])));
    b.update(499, 250, 80, |_c: u32, _dx: i32, dy: i32| Some((2, [256, dy as u32, u32::MAX])));
    b.update(250, 250, 30, |_c: u32, _dx: i32, _dy: i32| None);
    for (i, &v) in b.rgb().iter().enumerate() {
        assert!(v <= 255);
        if i % 4 == 3 {
            assert_eq!(v, 255);
        }
    }
}
