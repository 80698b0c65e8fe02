//! Where the pictures of the multiview stand.
//!
//! Preview and programme fill the top half, left and right. Below them stands
//! a grid with one slot for each input and one for each picture-in-picture
//! tile. As the number of slots grows, the grid goes through five, six and
//! seven columns before it gets a further row.

use vstd::prelude::*;

verus! {

/// A rectangle in pixels.
#[derive(Clone, Copy, Debug, PartialEq, Eq, Structural)]
pub struct Rect {
    pub x: i32,
    pub y: i32,
    pub w: i32,
    pub h: i32,
}

/// Where a picture that is not shown stands.
pub open spec fn hidden_rect() -> Rect {
    Rect { x: 0, y: 0, w: 1, h: 1 }
}

/// The fewest columns from five to seven that hold `n` slots in so many rows.
pub open spec fn columns_for(n: int, rows: int) -> int {
    if 5 * rows >= n {
        5
    } else if 6 * rows >= n {
        6
    } else {
        7
    }
}

/// Columns and rows for `n` slots: a single row up to five, two rows up to
/// fourteen, and then as few rows as seven columns allow.
pub open spec fn grid_for(n: int) -> (int, int) {
    if n <= 0 {
        (1, 1)
    } else if n <= 5 {
        (5, 1)
    } else if n <= 14 {
        (columns_for(n, 2), 2)
    } else {
        let rows = (n + 6) / 7;
        (columns_for(n, rows), rows)
    }
}

/// Columns and rows for so many slots.
pub fn pick_grid(total_slots: usize) -> (r: (usize, usize))
    ensures
        (r.0 as int, r.1 as int) == grid_for(total_slots as int),
{
    if total_slots == 0 {
        return (1, 1);
    }
    if total_slots <= 5 {
        return (5, 1);
    }
    if total_slots <= 10 {
        return (5, 2);
    }
    if total_slots <= 12 {
        return (6, 2);
    }
    if total_slots <= 14 {
        return (7, 2);
    }
    let n: u128 = total_slots as u128;
    let mut rows: usize = 3;
    while 7 * (rows as u128) < n
        invariant
            n == total_slots,
            15 <= total_slots,
            3 <= rows <= total_slots,
            7 * (rows - 1) < total_slots,
        decreases total_slots - rows,
    {
        rows += 1;
    }
    if 5 * (rows as u128) >= n {
        (5, rows)
    } else if 6 * (rows as u128) >= n {
        (6, rows)
    } else {
        (7, rows)
    }
}

/// The grid has room for every slot.
pub proof fn grid_holds_all_slots(n: int)
    ensures
        grid_for(n).0 >= 1,
        grid_for(n).1 >= 1,
        grid_for(n).0 * grid_for(n).1 >= n,
{
    let (columns, rows) = grid_for(n);
    if n > 14 {
        assert(columns * rows >= n) by (nonlinear_arith)
            requires
                columns == 5 && 5 * rows >= n || columns == 6 && 6 * rows >= n || columns == 7 && 7
                    * rows >= n,
        ;
    } else if n > 5 {
        assert(columns * rows >= n) by (nonlinear_arith)
            requires
                rows == 2,
                columns == 5 && 10 >= n || columns == 6 && 12 >= n || columns == 7 && 14 >= n,
        ;
    } else if n > 0 {
        assert(columns * rows == 5) by (nonlinear_arith)
            requires
                columns == 5,
                rows == 1,
        ;
    } else {
        assert(columns * rows == 1) by (nonlinear_arith)
            requires
                columns == 1,
                rows == 1,
        ;
    }
}

/// The column and row of a slot: slots fill the grid row by row.
pub open spec fn cell_of(slot: int, columns: int) -> (int, int) {
    (slot % columns, slot / columns)
}

/// The column and row of a slot.
pub fn slot_cell(slot: usize, columns: usize) -> (r: (usize, usize))
    requires
        columns > 0,
    ensures
        (r.0 as int, r.1 as int) == cell_of(slot as int, columns as int),
{
    (slot % columns, slot / columns)
}

/// Every slot has a cell of the grid to itself.
pub proof fn slots_have_their_own_cells(n: int, a: int, b: int)
    requires
        0 <= a < n,
        0 <= b < n,
    ensures
        0 <= cell_of(a, grid_for(n).0).0 < grid_for(n).0,
        0 <= cell_of(a, grid_for(n).0).1 < grid_for(n).1,
        cell_of(a, grid_for(n).0) == cell_of(b, grid_for(n).0) ==> a == b,
{
    let (columns, rows) = grid_for(n);
    grid_holds_all_slots(n);
    assert(0 <= a % columns < columns && 0 <= a / columns < rows && a == columns * (a / columns) + a
        % columns) by (nonlinear_arith)
        requires
            0 <= a < columns * rows,
            columns >= 1,
    ;
    assert(b == columns * (b / columns) + b % columns) by (nonlinear_arith)
        requires
            columns >= 1,
    ;
}

/// Where the pictures of a multiview stand.
pub struct MultiviewLayout {
    pub pvw: Rect,
    pub pgm: Rect,
    pub thumbnails: Vec<Rect>,
    pub pip_tiles: Vec<Rect>,
}

pub struct LayoutView {
    pub pvw: Rect,
    pub pgm: Rect,
    pub thumbnails: Seq<Rect>,
    pub pip_tiles: Seq<Rect>,
}

impl View for MultiviewLayout {
    type V = LayoutView;

    open spec fn view(&self) -> LayoutView {
        LayoutView {
            pvw: self.pvw,
            pgm: self.pgm,
            thumbnails: self.thumbnails@,
            pip_tiles: self.pip_tiles@,
        }
    }
}

/// The rectangle at an index, or that of a hidden picture.
pub open spec fn rect_at(rects: Seq<Rect>, i: int) -> Rect {
    if 0 <= i < rects.len() {
        rects[i]
    } else {
        hidden_rect()
    }
}

fn read_rect(rects: &Vec<Rect>, i: usize) -> (r: Rect)
    ensures
        r == rect_at(rects@, i as int),
{
    if i < rects.len() {
        rects[i]
    } else {
        Rect { x: 0, y: 0, w: 1, h: 1 }
    }
}

/// Where the thumbnail of an input stands.
pub fn thumbnail_pad_position(layout: &MultiviewLayout, index: usize) -> (r: Rect)
    ensures
        r == rect_at(layout@.thumbnails, index as int),
{
    read_rect(&layout.thumbnails, index)
}

/// Where preview stands.
pub fn pvw_pad_position(layout: &MultiviewLayout) -> (r: Rect)
    ensures
        r == layout@.pvw,
{
    layout.pvw
}

/// Where programme stands.
pub fn pgm_pad_position(layout: &MultiviewLayout) -> (r: Rect)
    ensures
        r == layout@.pgm,
{
    layout.pgm
}

/// Where the background of a picture-in-picture tile stands: it fills the
/// tile.
pub fn pip_bg_pad_position(layout: &MultiviewLayout, pip_idx: usize) -> (r: Rect)
    ensures
        r == rect_at(layout@.pip_tiles, pip_idx as int),
{
    read_rect(&layout.pip_tiles, pip_idx)
}

} // verus!
