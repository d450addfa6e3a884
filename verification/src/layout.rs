//! Where videos and player windows go: the tile grid of the multi view, and
//! the placement of the external player windows on the screen.
use vstd::prelude::*;
use crate::playback::MultiLayout;

verus! {

/// The grid the multi view lays `count` videos on: one row for the horizontal layout,
/// two columns otherwise, and as many rows as needed.
pub struct TileGrid {
    pub rows: usize,
    pub cols: usize,
}

/// The columns of the grid.
pub open spec fn grid_cols(count: nat, layout: MultiLayout) -> nat {
    match layout {
        MultiLayout::Horizontal => count,
        MultiLayout::Grid2 | MultiLayout::Grid4 => 2,
    }
}

/// The rows of the grid: enough for every video.
pub open spec fn grid_rows(count: nat, cols: nat) -> nat {
    if cols == 0 {
        0
    } else {
        count / cols + if count % cols == 0 { 0nat } else { 1nat }
    }
}

/// The grid for `count` videos; `None` for no video.
pub fn tile_grid(count: usize, layout: MultiLayout) -> (r: Option<TileGrid>)
    ensures
        count == 0 ==> r is None,
        count > 0 ==> (r matches Some(g) && g.cols == grid_cols(count as nat, layout) && g.rows
            == grid_rows(count as nat, g.cols as nat)),
{
    if count == 0 {
        return None;
    }
    let cols: usize = match layout {
        MultiLayout::Horizontal => count,
        MultiLayout::Grid2 | MultiLayout::Grid4 => 2,
    };
    let rows = count / cols + if count % cols == 0 { 0 } else { 1 };
    Some(TileGrid { rows, cols })
}

/// The row and column of the `index`-th video.
pub fn tile_cell(index: usize, grid: &TileGrid) -> (r: (usize, usize))
    requires
        grid.cols > 0,
    ensures
        r.0 == index / grid.cols,
        r.1 == index % grid.cols,
{
    (index / grid.cols, index % grid.cols)
}

/// Every video's cell lies within the grid, and no two videos share a cell.
pub proof fn lemma_tiles_fit(count: nat, cols: nat, i: nat, j: nat)
    requires
        cols > 0,
        i < count,
        j < count,
        i != j,
    ensures
        i / cols < grid_rows(count, cols),
        i % cols < cols,
        (i / cols, i % cols) != (j / cols, j % cols),
{
    assert(i / cols <= count / cols) by (nonlinear_arith)
        requires
            cols > 0,
            i < count,
    {
        vstd::arithmetic::div_mod::lemma_div_is_ordered(i as int, count as int, cols as int);
    }
    if i / cols == count / cols {
        assert(count % cols != 0) by (nonlinear_arith)
            requires
                cols > 0,
                i < count,
                i / cols == count / cols,
        {
            assert(i == cols * (i / cols) + i % cols);
            assert(count == cols * (count / cols) + count % cols);
        }
    }
    assert(i % cols < cols) by (nonlinear_arith)
        requires
            cols > 0,
    {
    }
    if i / cols == j / cols && i % cols == j % cols {
        assert(i == cols * (i / cols) + i % cols) by (nonlinear_arith)
            requires
                cols > 0,
        {
        }
        assert(j == cols * (j / cols) + j % cols) by (nonlinear_arith)
            requires
                cols > 0,
        {
        }
    }
}

/// Where a player window goes on the screen.
#[derive(Debug, Clone, Copy, PartialEq, Eq)]
pub struct WindowPlacement {
    pub x: i32,
    pub y: i32,
    pub width: i32,
    pub height: i32,
}

/// The windows laid out for `players` players on a `screen_w` by `screen_h` screen: a single
/// window is centered at 72% of the width and 82% of the height; with more, the first two each
/// take half of the width at 82% of the height, vertically centered. Percentages are taken
/// exactly and rounded down.
pub open spec fn placements(players: nat, screen_w: int, screen_h: int) -> Seq<WindowPlacement> {
    let height = screen_h * 82 / 100;
    let y = if (screen_h - height) / 2 > 0 { (screen_h - height) / 2 } else { 0 };
    if players == 0 || screen_w <= 0 || screen_h <= 0 {
        Seq::empty()
    } else if players == 1 {
        let width = screen_w * 72 / 100;
        seq![WindowPlacement { x: ((screen_w - width) / 2) as i32, y: y as i32, width: width as i32, height: height as i32 }]
    } else {
        let width = screen_w / 2;
        seq![
            WindowPlacement { x: 0, y: y as i32, width: width as i32, height: height as i32 },
            WindowPlacement { x: width as i32, y: y as i32, width: width as i32, height: height as i32 },
        ]
    }
}

/// Where the player windows go.
pub fn window_placements(players: usize, screen_w: i32, screen_h: i32) -> (r: Vec<WindowPlacement>)
    ensures
        r@ == placements(players as nat, screen_w as int, screen_h as int),
        r@.len() == if players == 0 || screen_w <= 0 || screen_h <= 0 {
            0
        } else if players == 1 {
            1nat
        } else {
            2nat
        },
        forall|k: int|
            0 <= k < r@.len() ==> 0 <= #[trigger] r@[k].x && r@[k].x + r@[k].width <= screen_w && 0
                <= r@[k].y && r@[k].y + r@[k].height <= screen_h && r@[k].width >= 0 && r@[k].height
                >= 0,
{
    let mut r: Vec<WindowPlacement> = Vec::new();
    if players == 0 || screen_w <= 0 || screen_h <= 0 {
        assert(r@ =~= placements(players as nat, screen_w as int, screen_h as int));
        return r;
    }
    let height = ((screen_h as i64) * 82 / 100) as i32;
    let half_gap = (screen_h - height) / 2;
    let y = if half_gap > 0 { half_gap } else { 0 };
    if players == 1 {
        let width = ((screen_w as i64) * 72 / 100) as i32;
        r.push(WindowPlacement { x: (screen_w - width) / 2, y, width, height });
    } else {
        let width = screen_w / 2;
        r.push(WindowPlacement { x: 0, y, width, height });
        r.push(WindowPlacement { x: width, y, width, height });
    }
    assert(r@ =~= placements(players as nat, screen_w as int, screen_h as int));
    r
}

} // verus!
