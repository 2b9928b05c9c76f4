use vstd::prelude::*;
use vstd::arithmetic::div_mod::{
    lemma_fundamental_div_mod_converse, lemma_mod_division_less_than_divisor,
    lemma_multiply_divide_lt,
};

verus! {

/// A cell byte is alive iff it is nonzero; a live cell is canonically 1.
pub open spec fn is_live(c: u8) -> bool {
    c != 0
}

/// Clamp a coordinate into [0, extent): an off-field sample reads the
/// nearest edge cell instead of wrapping around.
pub open spec fn clamped(i: int, extent: int) -> int {
    if i < 0 {
        0
    } else if i >= extent {
        extent - 1
    } else {
        i
    }
}

/// Row-major index of cell (x, y) in a field of the given width.
pub open spec fn cell_index(x: int, y: int, w: int) -> int {
    y * w + x
}

/// The byte sampled at (x, y) in a w × h field, with edge clamping.
pub open spec fn sample(cells: Seq<u8>, w: int, h: int, x: int, y: int) -> u8 {
    cells[cell_index(clamped(x, w), clamped(y, h), w)]
}

/// 1 if the clamped sample at (x, y) is alive, else 0.
pub open spec fn live_at(cells: Seq<u8>, w: int, h: int, x: int, y: int) -> nat {
    if is_live(sample(cells, w, h, x, y)) {
        1nat
    } else {
        0nat
    }
}

/// Number of live samples among the eight Moore neighbours of (x, y),
/// off-field neighbours reading the clamped edge cell.
pub open spec fn live_neighbors(cells: Seq<u8>, w: int, h: int, x: int, y: int) -> nat {
    live_at(cells, w, h, x - 1, y - 1) + live_at(cells, w, h, x, y - 1) + live_at(
        cells,
        w,
        h,
        x + 1,
        y - 1,
    ) + live_at(cells, w, h, x - 1, y) + live_at(cells, w, h, x + 1, y) + live_at(
        cells,
        w,
        h,
        x - 1,
        y + 1,
    ) + live_at(cells, w, h, x, y + 1) + live_at(cells, w, h, x + 1, y + 1)
}

/// The Game-of-Life rule for one cell: alive in the next generation iff
/// it has exactly three live neighbours, or is alive now and has exactly
/// two. The next generation holds canonical bytes (1 for alive, 0 for
/// dead) whatever nonzero bytes the current one held.
pub open spec fn next_cell(cells: Seq<u8>, w: int, h: int, x: int, y: int) -> u8 {
    let n = live_neighbors(cells, w, h, x, y);
    if n == 3 || (n == 2 && is_live(cells[cell_index(x, y, w)])) {
        1u8
    } else {
        0u8
    }
}

/// One whole transition: cell (x, y) of the result is `next_cell` of the
/// source field, for every position of the w × h grid.
pub open spec fn next_generation_spec(cells: Seq<u8>, w: int, h: int) -> Seq<u8> {
    Seq::new((w * h) as nat, |i: int| next_cell(cells, w, h, i % w, i / w))
}

/// Number of live cells in the whole field.
pub open spec fn live_count(cells: Seq<u8>) -> nat
    decreases cells.len(),
{
    if cells.len() == 0 {
        0nat
    } else {
        live_count(cells.drop_last()) + (if is_live(cells.last()) {
            1nat
        } else {
            0nat
        })
    }
}

/// Every cell of the field is dead.
pub open spec fn all_dead(cells: Seq<u8>) -> bool {
    forall|i: int| 0 <= i < cells.len() ==> cells[i] == 0
}

/// A field counts zero live cells exactly when every cell is dead, so a
/// zero count observed through the counting functions means the whole
/// field is dead.
pub proof fn lemma_live_count_zero_iff_all_dead(cells: Seq<u8>)
    ensures
        (live_count(cells) == 0) <==> all_dead(cells),
    decreases cells.len(),
{
    if cells.len() > 0 {
        let prefix = cells.drop_last();
        lemma_live_count_zero_iff_all_dead(prefix);
        assert(forall|i: int| 0 <= i < prefix.len() ==> prefix[i] == cells[i]);
        if live_count(cells) == 0 {
            assert forall|i: int| 0 <= i < cells.len() implies cells[i] == 0 by {
                if i < cells.len() - 1 {
                    assert(cells[i] == prefix[i]);
                } else {
                    assert(cells[i] == cells.last());
                }
            }
        } else {
            assert(all_dead(cells) ==> all_dead(prefix) && !is_live(cells.last()));
        }
    }
}

/// Row-major indexing stays inside the field and inverts by division:
/// the index of an in-range (x, y) lies in [0, w * h), has remainder x
/// and quotient y by the width.
pub proof fn lemma_cell_index_bounds(x: int, y: int, w: int, h: int)
    requires
        0 <= x < w,
        0 <= y < h,
    ensures
        0 <= cell_index(x, y, w) < w * h,
        cell_index(x, y, w) % w == x,
        cell_index(x, y, w) / w == y,
{
    assert(0 <= y * w + x < w * h) by (nonlinear_arith)
        requires
            0 <= x < w,
            0 <= y < h,
    ;
    lemma_fundamental_div_mod_converse(y * w + x, w, y, x);
}

/// Distinct in-range positions have distinct row-major indices.
pub proof fn lemma_cell_index_injective(x1: int, y1: int, x2: int, y2: int, w: int, h: int)
    requires
        0 <= x1 < w,
        0 <= y1 < h,
        0 <= x2 < w,
        0 <= y2 < h,
        cell_index(x1, y1, w) == cell_index(x2, y2, w),
    ensures
        x1 == x2,
        y1 == y2,
{
    lemma_cell_index_bounds(x1, y1, w, h);
    lemma_cell_index_bounds(x2, y2, w, h);
}

/// The byte sampled at (x, y) with edge clamping, as the shaders read it.
pub fn sample_at(cells: &Vec<u8>, w: u32, h: u32, x: i64, y: i64) -> (r: u8)
    requires
        1 <= w,
        1 <= h,
        cells@.len() == w * h,
    ensures
        r == sample(cells@, w as int, h as int, x as int, y as int),
{
    let cx: u32 = if x < 0 {
        0
    } else if x >= w as i64 {
        w - 1
    } else {
        x as u32
    };
    let cy: u32 = if y < 0 {
        0
    } else if y >= h as i64 {
        h - 1
    } else {
        y as u32
    };
    proof {
        lemma_cell_index_bounds(cx as int, cy as int, w as int, h as int);
    }
    let _n: usize = cells.len();
    cells[(cy as usize) * (w as usize) + (cx as usize)]
}

/// Count the live cells among the eight edge-clamped Moore neighbours of
/// the in-range cell (x, y).
pub fn count_live_neighbors(cells: &Vec<u8>, w: u32, h: u32, x: u32, y: u32) -> (n: u8)
    requires
        1 <= w,
        1 <= h,
        cells@.len() == w * h,
        x < w,
        y < h,
    ensures
        n as nat == live_neighbors(cells@, w as int, h as int, x as int, y as int),
        n <= 8,
{
    let xi = x as i64;
    let yi = y as i64;
    let mut n: u8 = 0;
    if sample_at(cells, w, h, xi - 1, yi - 1) != 0 {
        n = n + 1;
    }
    if sample_at(cells, w, h, xi, yi - 1) != 0 {
        n = n + 1;
    }
    if sample_at(cells, w, h, xi + 1, yi - 1) != 0 {
        n = n + 1;
    }
    if sample_at(cells, w, h, xi - 1, yi) != 0 {
        n = n + 1;
    }
    if sample_at(cells, w, h, xi + 1, yi) != 0 {
        n = n + 1;
    }
    if sample_at(cells, w, h, xi - 1, yi + 1) != 0 {
        n = n + 1;
    }
    if sample_at(cells, w, h, xi, yi + 1) != 0 {
        n = n + 1;
    }
    if sample_at(cells, w, h, xi + 1, yi + 1) != 0 {
        n = n + 1;
    }
    n
}

/// Compute one whole generation: the returned field holds, at every
/// position, the Game-of-Life successor of the source field. This is the
/// rule the mutate pass applies per pixel.
#[verifier::loop_isolation(false)]
pub fn next_generation(cells: &Vec<u8>, w: u32, h: u32) -> (out: Vec<u8>)
    requires
        1 <= w,
        1 <= h,
        cells@.len() == w * h,
    ensures
        out@ == next_generation_spec(cells@, w as int, h as int),
{
    let _n: usize = cells.len();
    let mut out: Vec<u8> = Vec::new();
    let mut y: u32 = 0;
    while y < h
        invariant
            y <= h,
            out@.len() == y * w,
            forall|i: int|
                0 <= i < out@.len() ==> out@[i] == next_cell(
                    cells@,
                    w as int,
                    h as int,
                    i % (w as int),
                    i / (w as int),
                ),
        decreases h - y,
    {
        let mut x: u32 = 0;
        proof {
            assert(y * w + w <= h * w) by (nonlinear_arith)
                requires
                    y < h,
                    1 <= w,
            ;
        }
        while x < w
            invariant
                x <= w,
                y < h,
                out@.len() == y * w + x,
                forall|i: int|
                    0 <= i < out@.len() ==> out@[i] == next_cell(
                        cells@,
                        w as int,
                        h as int,
                        i % (w as int),
                        i / (w as int),
                    ),
            decreases w - x,
        {
            let count = count_live_neighbors(cells, w, h, x, y);
            proof {
                lemma_cell_index_bounds(x as int, y as int, w as int, h as int);
            }
            let cur = cells[(y as usize) * (w as usize) + (x as usize)];
            let cell: u8 = if count == 3 || (count == 2 && cur != 0) {
                1
            } else {
                0
            };
            out.push(cell);
            x = x + 1;
        }
        proof {
            assert((y + 1) * w == y * w + w) by (nonlinear_arith);
        }
        y = y + 1;
    }
    proof {
        assert(h * w == w * h) by (nonlinear_arith);
        assert(out@ =~= next_generation_spec(cells@, w as int, h as int)) by {
            assert forall|i: int|
                0 <= i < w * h implies out@[i] == next_generation_spec(
                cells@,
                w as int,
                h as int,
            )[i] by {
                lemma_mod_division_less_than_divisor(i, w as int);
                lemma_multiply_divide_lt(i, w as int, h as int);
            }
        }
    }
    out
}

/// No spontaneous life: one transition of an all-dead field leaves every
/// cell dead, whatever the grid size. A mutate followed by a step on an
/// all-dead grid therefore presents an all-dead grid again.
pub proof fn lemma_dead_grid_stays_dead(cells: Seq<u8>, w: int, h: int)
    requires
        1 <= w,
        1 <= h,
        cells.len() == w * h,
        all_dead(cells),
    ensures
        all_dead(next_generation_spec(cells, w, h)),
{
    let next = next_generation_spec(cells, w, h);
    assert forall|i: int| 0 <= i < next.len() implies next[i] == 0 by {
        lemma_mod_division_less_than_divisor(i, w);
        lemma_multiply_divide_lt(i, w, h);
        let x = i % w;
        let y = i / w;
        assert forall|sx: int, sy: int| live_at(cells, w, h, sx, sy) == 0 by {
            lemma_cell_index_bounds(clamped(sx, w), clamped(sy, h), w, h);
        }
        assert(live_neighbors(cells, w, h, x, y) == 0);
        lemma_cell_index_bounds(x, y, w, h);
    }
}

/// The field holds exactly one live cell, at in-range position (cx, cy).
pub open spec fn lone_cell(cells: Seq<u8>, w: int, h: int, cx: int, cy: int) -> bool {
    &&& is_live(cells[cell_index(cx, cy, w)])
    &&& forall|i: int| 0 <= i < cells.len() && i != cell_index(cx, cy, w) ==> cells[i] == 0
}

/// In a field whose only live cell sits at (cx, cy), a clamped sample is
/// alive exactly when it lands on (cx, cy).
proof fn lemma_lone_sample(cells: Seq<u8>, w: int, h: int, cx: int, cy: int, sx: int, sy: int)
    requires
        1 <= w,
        1 <= h,
        cells.len() == w * h,
        0 <= cx < w,
        0 <= cy < h,
        lone_cell(cells, w, h, cx, cy),
    ensures
        live_at(cells, w, h, sx, sy) == if clamped(sx, w) == cx && clamped(sy, h) == cy {
            1nat
        } else {
            0nat
        },
{
    let ax = clamped(sx, w);
    let ay = clamped(sy, h);
    lemma_cell_index_bounds(ax, ay, w, h);
    lemma_cell_index_bounds(cx, cy, w, h);
    if cell_index(ax, ay, w) == cell_index(cx, cy, w) {
        lemma_cell_index_injective(ax, ay, cx, cy, w, h);
    }
}

/// A single isolated live cell dies after one transition, leaving the
/// whole field dead. This holds at every position of a grid at least
/// 2 × 2 except the four corners: at a corner the edge-clamped
/// neighbourhood samples the live cell itself three times, so the rule
/// keeps it alive there.
pub proof fn lemma_lone_cell_dies(cells: Seq<u8>, w: int, h: int, cx: int, cy: int)
    requires
        2 <= w,
        2 <= h,
        cells.len() == w * h,
        0 <= cx < w,
        0 <= cy < h,
        lone_cell(cells, w, h, cx, cy),
        !((cx == 0 || cx == w - 1) && (cy == 0 || cy == h - 1)),
    ensures
        all_dead(next_generation_spec(cells, w, h)),
{
    let next = next_generation_spec(cells, w, h);
    assert forall|i: int| 0 <= i < next.len() implies next[i] == 0 by {
        lemma_mod_division_less_than_divisor(i, w);
        lemma_multiply_divide_lt(i, w, h);
        let x = i % w;
        let y = i / w;
        lemma_lone_sample(cells, w, h, cx, cy, x - 1, y - 1);
        lemma_lone_sample(cells, w, h, cx, cy, x, y - 1);
        lemma_lone_sample(cells, w, h, cx, cy, x + 1, y - 1);
        lemma_lone_sample(cells, w, h, cx, cy, x - 1, y);
        lemma_lone_sample(cells, w, h, cx, cy, x + 1, y);
        lemma_lone_sample(cells, w, h, cx, cy, x - 1, y + 1);
        lemma_lone_sample(cells, w, h, cx, cy, x, y + 1);
        lemma_lone_sample(cells, w, h, cx, cy, x + 1, y + 1);
        lemma_cell_index_bounds(x, y, w, h);
        lemma_cell_index_bounds(cx, cy, w, h);
        if cell_index(x, y, w) == cell_index(cx, cy, w) {
            lemma_cell_index_injective(x, y, cx, cy, w, h);
        }
        let n = live_neighbors(cells, w, h, x, y);
        if x == cx && y == cy {
            assert(n <= 1);
        } else {
            assert(cells[cell_index(x, y, w)] == 0);
            assert(n != 3);
        }
    }
}

/// The field's live cells are exactly the four cells of the 2 × 2 block
/// whose low corner is (bx, by).
pub open spec fn block_at(cells: Seq<u8>, w: int, h: int, bx: int, by: int) -> bool {
    forall|x: int, y: int|
        0 <= x < w && 0 <= y < h ==> (is_live(cells[cell_index(x, y, w)]) <==> (bx <= x <= bx + 1
            && by <= y <= by + 1))
}

/// In a field holding exactly a 2 × 2 block, a clamped sample is alive
/// exactly when it lands inside the block.
proof fn lemma_block_sample(cells: Seq<u8>, w: int, h: int, bx: int, by: int, sx: int, sy: int)
    requires
        1 <= w,
        1 <= h,
        cells.len() == w * h,
        block_at(cells, w, h, bx, by),
    ensures
        live_at(cells, w, h, sx, sy) == if (bx <= clamped(sx, w) <= bx + 1 && by <= clamped(
            sy,
            h,
        ) <= by + 1) {
            1nat
        } else {
            0nat
        },
{
    lemma_cell_index_bounds(clamped(sx, w), clamped(sy, h), w, h);
}

/// A 2 × 2 block of live cells is stable: one transition of a field
/// holding exactly such a block, with the block at least one cell away
/// from every edge, holds exactly the same block again. Since the
/// conclusion re-establishes the hypothesis, the block stands unchanged
/// after any number of steps.
pub proof fn lemma_block_is_stable(cells: Seq<u8>, w: int, h: int, bx: int, by: int)
    requires
        cells.len() == w * h,
        1 <= bx,
        bx + 1 <= w - 2,
        1 <= by,
        by + 1 <= h - 2,
        block_at(cells, w, h, bx, by),
    ensures
        block_at(next_generation_spec(cells, w, h), w, h, bx, by),
{
    let next = next_generation_spec(cells, w, h);
    assert forall|x: int, y: int|
        0 <= x < w && 0 <= y < h implies (is_live(next[cell_index(x, y, w)]) <==> (bx <= x <= bx
        + 1 && by <= y <= by + 1)) by {
        lemma_cell_index_bounds(x, y, w, h);
        lemma_block_sample(cells, w, h, bx, by, x - 1, y - 1);
        lemma_block_sample(cells, w, h, bx, by, x, y - 1);
        lemma_block_sample(cells, w, h, bx, by, x + 1, y - 1);
        lemma_block_sample(cells, w, h, bx, by, x - 1, y);
        lemma_block_sample(cells, w, h, bx, by, x + 1, y);
        lemma_block_sample(cells, w, h, bx, by, x - 1, y + 1);
        lemma_block_sample(cells, w, h, bx, by, x, y + 1);
        lemma_block_sample(cells, w, h, bx, by, x + 1, y + 1);
        assert(next[cell_index(x, y, w)] == next_cell(cells, w, h, x, y));
    }
}

/// The field's live cells are exactly a horizontal three-cell line
/// centered at (cx, cy).
pub open spec fn horizontal_line_at(cells: Seq<u8>, w: int, h: int, cx: int, cy: int) -> bool {
    forall|x: int, y: int|
        0 <= x < w && 0 <= y < h ==> (is_live(cells[cell_index(x, y, w)]) <==> (y == cy && cx - 1
            <= x <= cx + 1))
}

/// The field's live cells are exactly a vertical three-cell line
/// centered at (cx, cy).
pub open spec fn vertical_line_at(cells: Seq<u8>, w: int, h: int, cx: int, cy: int) -> bool {
    forall|x: int, y: int|
        0 <= x < w && 0 <= y < h ==> (is_live(cells[cell_index(x, y, w)]) <==> (x == cx && cy - 1
            <= y <= cy + 1))
}

/// In a field holding exactly a horizontal three-cell line, a clamped
/// sample is alive exactly when it lands on the line.
proof fn lemma_horizontal_line_sample(
    cells: Seq<u8>,
    w: int,
    h: int,
    cx: int,
    cy: int,
    sx: int,
    sy: int,
)
    requires
        1 <= w,
        1 <= h,
        cells.len() == w * h,
        horizontal_line_at(cells, w, h, cx, cy),
    ensures
        live_at(cells, w, h, sx, sy) == if (clamped(sy, h) == cy && cx - 1 <= clamped(sx, w) <= cx
            + 1) {
            1nat
        } else {
            0nat
        },
{
    lemma_cell_index_bounds(clamped(sx, w), clamped(sy, h), w, h);
}

/// In a field holding exactly a vertical three-cell line, a clamped
/// sample is alive exactly when it lands on the line.
proof fn lemma_vertical_line_sample(
    cells: Seq<u8>,
    w: int,
    h: int,
    cx: int,
    cy: int,
    sx: int,
    sy: int,
)
    requires
        1 <= w,
        1 <= h,
        cells.len() == w * h,
        vertical_line_at(cells, w, h, cx, cy),
    ensures
        live_at(cells, w, h, sx, sy) == if (clamped(sx, w) == cx && cy - 1 <= clamped(sy, h) <= cy
            + 1) {
            1nat
        } else {
            0nat
        },
{
    lemma_cell_index_bounds(clamped(sx, w), clamped(sy, h), w, h);
}

/// One transition turns a horizontal blinker into the vertical one with
/// the same center, provided the oscillator's 3 × 3 bounding box stays
/// at least one cell away from every edge.
pub proof fn lemma_blinker_flips_to_vertical(cells: Seq<u8>, w: int, h: int, cx: int, cy: int)
    requires
        cells.len() == w * h,
        2 <= cx,
        cx + 1 <= w - 2,
        2 <= cy,
        cy + 1 <= h - 2,
        horizontal_line_at(cells, w, h, cx, cy),
    ensures
        vertical_line_at(next_generation_spec(cells, w, h), w, h, cx, cy),
{
    let next = next_generation_spec(cells, w, h);
    assert forall|x: int, y: int|
        0 <= x < w && 0 <= y < h implies (is_live(next[cell_index(x, y, w)]) <==> (x == cx && cy
        - 1 <= y <= cy + 1)) by {
        lemma_cell_index_bounds(x, y, w, h);
        lemma_horizontal_line_sample(cells, w, h, cx, cy, x - 1, y - 1);
        lemma_horizontal_line_sample(cells, w, h, cx, cy, x, y - 1);
        lemma_horizontal_line_sample(cells, w, h, cx, cy, x + 1, y - 1);
        lemma_horizontal_line_sample(cells, w, h, cx, cy, x - 1, y);
        lemma_horizontal_line_sample(cells, w, h, cx, cy, x + 1, y);
        lemma_horizontal_line_sample(cells, w, h, cx, cy, x - 1, y + 1);
        lemma_horizontal_line_sample(cells, w, h, cx, cy, x, y + 1);
        lemma_horizontal_line_sample(cells, w, h, cx, cy, x + 1, y + 1);
        assert(next[cell_index(x, y, w)] == next_cell(cells, w, h, x, y));
    }
}

/// One transition turns a vertical blinker back into the horizontal one
/// with the same center, under the same margin; with the flip above,
/// the three-cell line oscillates with period two.
pub proof fn lemma_blinker_flips_to_horizontal(cells: Seq<u8>, w: int, h: int, cx: int, cy: int)
    requires
        cells.len() == w * h,
        2 <= cx,
        cx + 1 <= w - 2,
        2 <= cy,
        cy + 1 <= h - 2,
        vertical_line_at(cells, w, h, cx, cy),
    ensures
        horizontal_line_at(next_generation_spec(cells, w, h), w, h, cx, cy),
{
    let next = next_generation_spec(cells, w, h);
    assert forall|x: int, y: int|
        0 <= x < w && 0 <= y < h implies (is_live(next[cell_index(x, y, w)]) <==> (y == cy && cx
        - 1 <= x <= cx + 1)) by {
        lemma_cell_index_bounds(x, y, w, h);
        lemma_vertical_line_sample(cells, w, h, cx, cy, x - 1, y - 1);
        lemma_vertical_line_sample(cells, w, h, cx, cy, x, y - 1);
        lemma_vertical_line_sample(cells, w, h, cx, cy, x + 1, y - 1);
        lemma_vertical_line_sample(cells, w, h, cx, cy, x - 1, y);
        lemma_vertical_line_sample(cells, w, h, cx, cy, x + 1, y);
        lemma_vertical_line_sample(cells, w, h, cx, cy, x - 1, y + 1);
        lemma_vertical_line_sample(cells, w, h, cx, cy, x, y + 1);
        lemma_vertical_line_sample(cells, w, h, cx, cy, x + 1, y + 1);
        assert(next[cell_index(x, y, w)] == next_cell(cells, w, h, x, y));
    }
}

} // verus!
