use wasm_portfolio::sand::{Sand, EMPTY, SAND, STONE, WATER};

/// A dusk backdrop, one colour per row.
fn sky(h: i32) -> Vec<(u8, u8, u8)> {
    (0..h)
        .map(|y| {
            let t = y as f32 / h as f32;
            ((26.0 - 10.0 * t) as u8, (28.0 - 11.0 * t) as u8, (42.0 - 16.0 * t) as u8)
        })
        .collect()
}

fn new_box(w: i32, h: i32, seed: u32) -> Sand {
    Sand::new(w, h, seed, sky(h))
}

/// What a rendered pixel shows: the cell's material, told apart by colour.
fn material_at(s: &Sand, x: i32, y: i32) -> u8 {
    let (w, h) = (s.width(), s.height());
    let p = ((y * w + x) * 4) as usize;
    let px = s.pixels();
    let (r, g, b) = (px[p] as i32, px[p + 1] as i32, px[p + 2] as i32);
    let row = sky(h)[y as usize];
    let sky = (row.0 as i32, row.1 as i32, row.2 as i32);
    if (r, g, b) == sky {
        EMPTY
    } else if g - r == 4 && b - r == 18 {
        STONE
    } else if b > r + 50 {
        WATER
    } else {
        SAND
    }
}

fn census(s: &mut Sand) -> [usize; 4] {
    s.render();
    let mut n = [0usize; 4];
    for y in 0..s.height() {
        for x in 0..s.width() {
            n[material_at(s, x, y) as usize] += 1;
        }
    }
    n
}

#[test]
fn sand_new_box_is_empty_sky() {
    let mut s = new_box(6, 4, 12345);
    assert_eq!(s.width(), 6);
    assert_eq!(s.height(), 4);
    assert_eq!(s.pixels().len(), 6 * 4 * 4);
    assert_eq!(census(&mut s), [24, 0, 0, 0]);
    let px = s.pixels();
    // Top row sky colour, fully opaque.
    assert_eq!(&px[0..4], &[26, 28, 42, 255]);
}

#[test]
fn sand_stone_brush_is_a_disc() {
    let mut s = new_box(9, 9, 7);
    s.paint(4, 4, STONE, 2);
    assert_eq!(census(&mut s), [81 - 13, 0, 0, 13]);
    // Corners of the brush square stay empty.
    assert_eq!(material_at(&s, 2, 2), EMPTY);
    assert_eq!(material_at(&s, 4, 2), STONE);
}

#[test]
fn sand_eraser_clears_the_whole_brush() {
    let mut s = new_box(9, 9, 7);
    s.paint(4, 4, STONE, 2);
    s.paint(4, 4, EMPTY, 1);
    assert_eq!(census(&mut s), [81 - 8, 0, 0, 8]);
    assert_eq!(material_at(&s, 4, 4), EMPTY);
}

#[test]
fn sand_brush_is_clipped_at_the_walls() {
    let mut s = new_box(5, 5, 3);
    s.paint(0, 0, STONE, 1);
    // Only (0,0), (1,0) and (0,1) are inside the box.
    assert_eq!(census(&mut s), [22, 0, 0, 3]);
}

#[test]
fn sand_stone_does_not_cover_other_material() {
    let mut s = new_box(5, 5, 3);
    s.paint(2, 2, STONE, 0);
    let before = census(&mut s);
    s.paint(2, 2, STONE, 1);
    let after = census(&mut s);
    assert_eq!(before[STONE as usize], 1);
    assert_eq!(after[STONE as usize], 5);
}

#[test]
fn sand_grain_falls_to_the_floor() {
    let mut s = new_box(3, 8, 99);
    let mut tries = 0;
    while material_at_after_render(&mut s, 1, 0) != SAND {
        s.paint(1, 0, SAND, 0);
        tries += 1;
        assert!(tries < 200);
    }
    for _ in 0..10 {
        s.tick();
    }
    assert_eq!(census(&mut s), [23, 1, 0, 0]);
    assert_eq!(material_at(&s, 1, 7), SAND);
    assert_eq!(material_at(&s, 1, 0), EMPTY);
}

fn material_at_after_render(s: &mut Sand, x: i32, y: i32) -> u8 {
    s.render();
    material_at(s, x, y)
}

#[test]
fn sand_tick_keeps_every_material() {
    let mut s = new_box(16, 12, 2024);
    s.paint(8, 10, STONE, 2);
    for k in 0..6 {
        s.paint(3 + k, 1, SAND, 2);
        s.paint(12 - k, 2, WATER, 2);
    }
    let before = census(&mut s);
    assert!(before[SAND as usize] > 0);
    assert!(before[WATER as usize] > 0);
    for _ in 0..40 {
        s.tick();
    }
    let after = census(&mut s);
    assert_eq!(before, after);
}

#[test]
fn sand_stone_never_moves() {
    let mut s = new_box(6, 6, 5);
    s.paint(2, 1, STONE, 0);
    for _ in 0..5 {
        s.tick();
    }
    s.render();
    assert_eq!(material_at(&s, 2, 1), STONE);
}

#[test]
fn sand_clear_empties_the_box() {
    let mut s = new_box(6, 6, 5);
    s.paint(3, 3, STONE, 2);
    s.clear();
    assert_eq!(census(&mut s), [36, 0, 0, 0]);
}

#[test]
fn sand_water_spreads_along_the_floor() {
    let mut s = new_box(12, 3, 77);
    let mut tries = 0;
    while material_at_after_render(&mut s, 6, 2) != WATER {
        s.paint(6, 2, WATER, 0);
        tries += 1;
        assert!(tries < 200);
    }
    s.tick();
    s.render();
    // The drop could not fall, so it slid sideways along the floor.
    assert_eq!(material_at(&s, 6, 2), EMPTY);
    assert_eq!(census(&mut s)[WATER as usize], 1);
}

fn sand_rows_from(s: &mut Sand, k: i32) -> usize {
    s.render();
    let mut n = 0;
    for y in k..s.height() {
        for x in 0..s.width() {
            if material_at(s, x, y) == SAND {
                n += 1;
            }
        }
    }
    n
}

#[test]
fn sand_never_rises() {
    let mut s = new_box(14, 12, 4242);
    s.paint(7, 9, WATER, 3);
    s.paint(7, 10, WATER, 3);
    s.paint(6, 2, SAND, 3);
    s.paint(2, 11, STONE, 1);
    for _ in 0..30 {
        let before: Vec<usize> = (0..=12).map(|k| sand_rows_from(&mut s, k)).collect();
        s.tick();
        let after: Vec<usize> = (0..=12).map(|k| sand_rows_from(&mut s, k)).collect();
        for k in 0..=12usize {
            assert!(after[k] >= before[k]);
        }
        assert_eq!(after[0], before[0]);
    }
}

#[test]
fn sand_empty_cells_show_the_given_backdrop() {
    let mut s = Sand::new(2, 2, 1, vec![(5, 6, 7), (9, 8, 7)]);
    s.render();
    assert_eq!(s.pixels().as_slice(), &[5, 6, 7, 255, 5, 6, 7, 255, 9, 8, 7, 255, 9, 8, 7, 255]);
}
