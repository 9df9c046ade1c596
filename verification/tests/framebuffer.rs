use wasm_portfolio::fb::Fb;

/// The game's backdrop gradient, one colour per row.
fn backdrop(h: i32) -> Vec<(u8, u8, u8)> {
    (0..h)
        .map(|y| {
            let t = y as f32 / h as f32;
            ((12.0 + 8.0 * t) as u8, (13.0 + 8.0 * t) as u8, (26.0 + 12.0 * t) as u8)
        })
        .collect()
}

fn pixel(fb: &Fb, x: usize, y: usize) -> [u8; 4] {
    let p = (y * fb.w as usize + x) * 4;
    [fb.px[p], fb.px[p + 1], fb.px[p + 2], fb.px[p + 3]]
}

#[test]
fn fb_new_is_zeroed() {
    let fb = Fb::new(4, 3, backdrop(3));
    assert_eq!(fb.w, 4);
    assert_eq!(fb.h, 3);
    assert_eq!(fb.px.len(), 48);
    assert!(fb.px.iter().all(|&b| b == 0));
}

#[test]
fn fb_clear_paints_the_gradient() {
    let mut fb = Fb::new(4, 3, backdrop(3));
    fb.clear();
    let rows = [[12, 13, 26, 255], [14, 15, 30, 255], [17, 18, 34, 255]];
    for (y, row) in rows.iter().enumerate() {
        for x in 0..4 {
            assert_eq!(&pixel(&fb, x, y), row);
        }
    }
}

#[test]
fn fb_gradient_of_the_game_screen() {
    let mut fb = Fb::new(800, 600, backdrop(600));
    fb.clear();
    assert_eq!(pixel(&fb, 0, 0), [12, 13, 26, 255]);
    // Halfway down: t = 0.5.
    assert_eq!(pixel(&fb, 400, 300), [16, 17, 32, 255]);
    assert_eq!(pixel(&fb, 799, 599), [19, 20, 37, 255]);
}

#[test]
fn fb_clear_overwrites_and_repeats() {
    let mut fb = Fb::new(2, 3, backdrop(3));
    fb.clear();
    let once = fb.px.clone();
    fb.px[5] = 99;
    fb.px[11] = 0;
    fb.clear();
    assert_eq!(fb.px, once);
}

#[test]
fn fb_zero_height_has_no_rows() {
    let mut fb = Fb::new(5, 0, backdrop(0));
    assert!(fb.px.is_empty());
    fb.clear();
    assert!(fb.px.is_empty());
}

#[test]
fn fb_clear_paints_whatever_backdrop_it_was_given() {
    let mut fb = Fb::new(1, 2, vec![(1, 2, 3), (200, 100, 50)]);
    fb.clear();
    assert_eq!(fb.px, vec![1, 2, 3, 255, 200, 100, 50, 255]);
}
