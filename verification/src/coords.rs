use vstd::prelude::*;
use vstd::arithmetic::div_mod::{
    lemma_div_by_multiple, lemma_div_denominator, lemma_div_is_ordered,
    lemma_div_multiples_vanish_quotient, lemma_div_pos_is_pos, lemma_multiply_divide_le,
};

verus! {

/// Map one axis of a window-space position into grid space by the scale
/// ratio grid / window, truncated to a whole cell index: the exact
/// rational pos * grid / window, rounded toward zero.
pub open spec fn map_coord(pos: int, window: int, grid: int) -> int {
    (pos * grid) / window
}

/// The mapped coordinate never leaves the grid's extent: a position
/// within the window maps to at most the grid size.
pub proof fn lemma_map_coord_le_grid(pos: int, window: int, grid: int)
    requires
        1 <= window,
        0 <= pos <= window,
        0 <= grid,
    ensures
        0 <= map_coord(pos, window, grid) <= grid,
{
    assert(pos * grid <= window * grid) by (nonlinear_arith)
        requires
            0 <= pos <= window,
            0 <= grid,
    ;
    assert(window * grid == grid * window) by (nonlinear_arith);
    assert(0 <= pos * grid) by (nonlinear_arith)
        requires
            0 <= pos,
            0 <= grid,
    ;
    lemma_div_pos_is_pos(pos * grid, window);
    lemma_multiply_divide_le(pos * grid, window, grid);
}

/// The mapping sends the window's full extent to the grid's full extent:
/// mapping the position window itself yields exactly grid.
pub proof fn lemma_map_coord_full_extent(window: int, grid: int)
    requires
        1 <= window,
        0 <= grid,
    ensures
        map_coord(window, window, grid) == grid,
{
    assert(window * grid == grid * window) by (nonlinear_arith);
    lemma_div_by_multiple(grid, window);
}

/// The mapping is monotone along each axis: moving the input position
/// outward never moves the mapped cell inward.
pub proof fn lemma_map_coord_monotonic(pos1: int, pos2: int, window: int, grid: int)
    requires
        1 <= window,
        0 <= pos1 <= pos2,
        0 <= grid,
    ensures
        map_coord(pos1, window, grid) <= map_coord(pos2, window, grid),
{
    assert(pos1 * grid <= pos2 * grid) by (nonlinear_arith)
        requires
            0 <= pos1 <= pos2,
            0 <= grid,
    ;
    lemma_div_is_ordered(pos1 * grid, pos2 * grid, window);
}

/// The mapping scales proportionally with the grid: halving an
/// even-sized grid while holding the window fixed halves the mapped
/// coordinate of every fixed input position.
pub proof fn lemma_map_coord_halving(pos: int, window: int, grid: int)
    requires
        1 <= window,
        0 <= pos,
        0 <= grid,
        grid % 2 == 0,
    ensures
        map_coord(pos, window, grid / 2) == map_coord(pos, window, grid) / 2,
{
    let half = grid / 2;
    assert(grid == 2 * half);
    assert(pos * grid == 2 * (pos * half)) by (nonlinear_arith)
        requires
            grid == 2 * half,
    ;
    assert(0 <= pos * half) by (nonlinear_arith)
        requires
            0 <= pos,
            0 <= half,
    ;
    // pos * half / window == (2 * (pos * half)) / (2 * window)
    lemma_div_multiples_vanish_quotient(2, pos * half, window);
    // ((2 * (pos * half)) / window) / 2 == (2 * (pos * half)) / (window * 2)
    lemma_div_denominator(2 * (pos * half), window, 2);
    assert(window * 2 == 2 * window) by (nonlinear_arith);
}

/// Transform a window-space position into grid space, per axis, by the
/// scale ratio grid / window, truncating to whole cell indices. The
/// position must lie within the window; the result then lies within the
/// grid (a position on the window's far edge maps to the grid extent
/// itself, one past the last cell, which the cell-write path rejects).
pub fn window_to_grid(pos: (u32, u32), window: (u32, u32), grid: (u32, u32)) -> (r: (u32, u32))
    requires
        1 <= window.0,
        1 <= window.1,
        pos.0 <= window.0,
        pos.1 <= window.1,
    ensures
        r.0 == map_coord(pos.0 as int, window.0 as int, grid.0 as int),
        r.1 == map_coord(pos.1 as int, window.1 as int, grid.1 as int),
        r.0 <= grid.0,
        r.1 <= grid.1,
{
    proof {
        lemma_map_coord_le_grid(pos.0 as int, window.0 as int, grid.0 as int);
        lemma_map_coord_le_grid(pos.1 as int, window.1 as int, grid.1 as int);
        assert((pos.0 as int) * (grid.0 as int) <= 0xffff_ffff * 0xffff_ffff) by (nonlinear_arith)
            requires
                pos.0 as int <= 0xffff_ffff,
                grid.0 as int <= 0xffff_ffff,
        ;
        assert((pos.1 as int) * (grid.1 as int) <= 0xffff_ffff * 0xffff_ffff) by (nonlinear_arith)
            requires
                pos.1 as int <= 0xffff_ffff,
                grid.1 as int <= 0xffff_ffff,
        ;
    }
    let gx = (pos.0 as u64) * (grid.0 as u64) / (window.0 as u64);
    let gy = (pos.1 as u64) * (grid.1 as u64) / (window.1 as u64);
    (gx as u32, gy as u32)
}

} // verus!
