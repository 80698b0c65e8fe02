use strom::blocks::vision_mixer::layout::{
    pgm_pad_position, pick_grid, pip_bg_pad_position, pvw_pad_position, slot_cell,
    thumbnail_pad_position, MultiviewLayout, Rect,
};

#[test]
fn pick_grid_small_uses_one_row() {
    assert_eq!(pick_grid(1), (5, 1));
    assert_eq!(pick_grid(4), (5, 1));
    assert_eq!(pick_grid(5), (5, 1));
}

#[test]
fn pick_grid_two_row_tier() {
    assert_eq!(pick_grid(6), (5, 2));
    assert_eq!(pick_grid(10), (5, 2));
    assert_eq!(pick_grid(11), (6, 2));
    assert_eq!(pick_grid(12), (6, 2));
    assert_eq!(pick_grid(13), (7, 2));
    assert_eq!(pick_grid(14), (7, 2));
}

#[test]
fn pick_grid_three_row_tier_cycles_cols() {
    assert_eq!(pick_grid(15), (5, 3));
    assert_eq!(pick_grid(16), (6, 3));
    assert_eq!(pick_grid(18), (6, 3));
    assert_eq!(pick_grid(19), (7, 3));
    assert_eq!(pick_grid(21), (7, 3));
}

#[test]
fn pick_grid_grows_to_more_rows() {
    // 20 still fits in the 3-row tier (7×3=21) — no need to bump rows.
    assert_eq!(pick_grid(20), (7, 3));
    // 22 exceeds 21 — jumps to the 4-row tier. 5×4=20 too small, so cycle
    // cols up to 6×4=24.
    assert_eq!(pick_grid(22), (6, 4));
    assert_eq!(pick_grid(28), (7, 4));
    // 29 doesn't fit in 5×5=25 — skips to 6×5=30 in the 5-row tier.
    assert_eq!(pick_grid(29), (6, 5));
    assert_eq!(pick_grid(35), (7, 5));
}

#[test]
fn an_empty_grid_has_one_cell() {
    assert_eq!(pick_grid(0), (1, 1));
}

#[test]
fn every_slot_has_a_cell_of_its_own() {
    for n in 1..60usize {
        let (columns, rows) = pick_grid(n);
        let cells: Vec<(usize, usize)> = (0..n).map(|i| slot_cell(i, columns)).collect();
        for (i, cell) in cells.iter().enumerate() {
            assert!(cell.0 < columns && cell.1 < rows);
            assert!(!cells[..i].contains(cell));
        }
    }
    assert_eq!(slot_cell(7, 5), (2, 1));
}

#[test]
fn positions_outside_the_layout_are_hidden() {
    let rect = |x| Rect { x, y: 2, w: 30, h: 40 };
    let layout = MultiviewLayout {
        pvw: rect(1),
        pgm: rect(2),
        thumbnails: vec![rect(3)],
        pip_tiles: vec![rect(4)],
    };
    assert_eq!(pvw_pad_position(&layout).x, 1);
    assert_eq!(pgm_pad_position(&layout).x, 2);
    assert_eq!(thumbnail_pad_position(&layout, 0).x, 3);
    assert_eq!(pip_bg_pad_position(&layout, 0).x, 4);
    let hidden = thumbnail_pad_position(&layout, 1);
    assert_eq!((hidden.x, hidden.y, hidden.w, hidden.h), (0, 0, 1, 1));
    assert_eq!(pip_bg_pad_position(&layout, 9).w, 1);
}
