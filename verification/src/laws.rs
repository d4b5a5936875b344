//! General laws of the grid, proved over the model in [`crate::model`].

use vstd::prelude::*;

use crate::model::at;
use crate::model::cleared;
use crate::model::glider_fits;
use crate::model::idx;
use crate::model::in_range;
use crate::model::iterate;
use crate::model::lemma_idx_in_range;
use crate::model::live_neighbors;
use crate::model::next_state;
use crate::model::step;
use crate::model::toggled;
use crate::model::wf;
use crate::model::wrap_dec;
use crate::model::wrap_inc;
use crate::model::GridModel;

verus! {

/// Clearing a grid twice yields the very state one clearing yields.
pub proof fn lemma_reset_all_dead_idempotent(g: GridModel)
    ensures
        cleared(cleared(g)) == cleared(g),
{
    assert(cleared(cleared(g)).cells =~= cleared(g).cells);
    assert(cleared(cleared(g)) =~= cleared(g));
}

/// Toggling one cell twice restores the grid it started from.
pub proof fn lemma_toggle_twice_restores(g: GridModel, row: int, col: int)
    requires
        wf(g),
        in_range(g, row, col),
    ensures
        toggled(toggled(g, row, col), row, col) == g,
{
    lemma_idx_in_range(g, row, col);
    let i0 = idx(g, row, col);
    assert(toggled(toggled(g, row, col), row, col).cells =~= g.cells);
    assert(toggled(toggled(g, row, col), row, col) =~= g);
}

/// A glider stamp centered at the origin never fits: its box would extend
/// above and to the left of the grid, whatever the grid's size.
pub proof fn lemma_glider_at_origin_never_fits(g: GridModel)
    ensures
        !glider_fits(g, 0, 0),
{
}

/// Exactly one 2-by-2 block of live cells, its box at least one cell away
/// from every edge.
pub open spec fn lone_block(g: GridModel, row: int, col: int) -> bool {
    &&& 1 <= row && row + 3 <= g.height
    &&& 1 <= col && col + 3 <= g.width
    &&& forall|r: int, c: int|
        in_range(g, r, c) ==> (#[trigger] at(g, r, c) <==> (row <= r <= row + 1 && col <= c <= col
            + 1))
}

/// Every cell of a grid holding one interior 2-by-2 block keeps its state
/// over a step.
proof fn lemma_block_cell_unchanged(g: GridModel, row: int, col: int, r: int, c: int)
    requires
        wf(g),
        lone_block(g, row, col),
        in_range(g, r, c),
    ensures
        next_state(at(g, r, c), live_neighbors(g, r, c)) == at(g, r, c),
{
    let h = g.height as int;
    let w = g.width as int;
    let rn = wrap_dec(r, h);
    let rs = wrap_inc(r, h);
    let cw = wrap_dec(c, w);
    let ce = wrap_inc(c, w);
    assert(in_range(g, rn, cw) && in_range(g, rn, c) && in_range(g, rn, ce));
    assert(in_range(g, r, cw) && in_range(g, r, ce));
    assert(in_range(g, rs, cw) && in_range(g, rs, c) && in_range(g, rs, ce));
    assert(at(g, rn, cw) == (row <= rn <= row + 1 && col <= cw <= col + 1));
    assert(at(g, rn, c) == (row <= rn <= row + 1 && col <= c <= col + 1));
    assert(at(g, rn, ce) == (row <= rn <= row + 1 && col <= ce <= col + 1));
    assert(at(g, r, cw) == (row <= r <= row + 1 && col <= cw <= col + 1));
    assert(at(g, r, ce) == (row <= r <= row + 1 && col <= ce <= col + 1));
    assert(at(g, rs, cw) == (row <= rs <= row + 1 && col <= cw <= col + 1));
    assert(at(g, rs, c) == (row <= rs <= row + 1 && col <= c <= col + 1));
    assert(at(g, rs, ce) == (row <= rs <= row + 1 && col <= ce <= col + 1));
    assert(at(g, r, c) == (row <= r <= row + 1 && col <= c <= col + 1));
    assert(next_state(at(g, r, c), live_neighbors(g, r, c)) == at(g, r, c));
}

/// A 2-by-2 block of live cells away from every edge is a still life: one
/// step leaves the grid unchanged.
pub proof fn lemma_block_is_still_life(g: GridModel, row: int, col: int)
    requires
        wf(g),
        lone_block(g, row, col),
    ensures
        step(g) == g,
{
    assert forall|r: int, c: int| in_range(g, r, c) implies next_state(
        #[trigger] at(g, r, c),
        live_neighbors(g, r, c),
    ) == at(g, r, c) by {
        lemma_block_cell_unchanged(g, row, col, r, c);
    }
    lemma_step_matches(g, g);
}

/// Exactly one horizontal 3-cell line of live cells centered at
/// (`row`, `col`), far enough from every edge that neither it nor its
/// vertical counterpart touches a wrapping neighbor.
pub open spec fn lone_hline(g: GridModel, row: int, col: int) -> bool {
    &&& 2 <= row && row + 3 <= g.height
    &&& 2 <= col && col + 3 <= g.width
    &&& forall|r: int, c: int|
        in_range(g, r, c) ==> (#[trigger] at(g, r, c) <==> (r == row && col - 1 <= c <= col + 1))
}

/// Exactly one vertical 3-cell line of live cells centered at
/// (`row`, `col`), with the same margins as `lone_hline`.
pub open spec fn lone_vline(g: GridModel, row: int, col: int) -> bool {
    &&& 2 <= row && row + 3 <= g.height
    &&& 2 <= col && col + 3 <= g.width
    &&& forall|r: int, c: int|
        in_range(g, r, c) ==> (#[trigger] at(g, r, c) <==> (c == col && row - 1 <= r <= row + 1))
}

/// Every cell of a grid holding one horizontal blinker steps to its
/// vertical counterpart's state.
proof fn lemma_hline_cell(g: GridModel, row: int, col: int, r: int, c: int)
    requires
        wf(g),
        lone_hline(g, row, col),
        in_range(g, r, c),
    ensures
        next_state(at(g, r, c), live_neighbors(g, r, c)) == (c == col && row - 1 <= r <= row + 1),
{
    let h = g.height as int;
    let w = g.width as int;
    let rn = wrap_dec(r, h);
    let rs = wrap_inc(r, h);
    let cw = wrap_dec(c, w);
    let ce = wrap_inc(c, w);
    assert(in_range(g, rn, cw) && in_range(g, rn, c) && in_range(g, rn, ce));
    assert(in_range(g, r, cw) && in_range(g, r, ce));
    assert(in_range(g, rs, cw) && in_range(g, rs, c) && in_range(g, rs, ce));
    assert(at(g, rn, cw) == (rn == row && col - 1 <= cw <= col + 1));
    assert(at(g, rn, c) == (rn == row && col - 1 <= c <= col + 1));
    assert(at(g, rn, ce) == (rn == row && col - 1 <= ce <= col + 1));
    assert(at(g, r, cw) == (r == row && col - 1 <= cw <= col + 1));
    assert(at(g, r, ce) == (r == row && col - 1 <= ce <= col + 1));
    assert(at(g, rs, cw) == (rs == row && col - 1 <= cw <= col + 1));
    assert(at(g, rs, c) == (rs == row && col - 1 <= c <= col + 1));
    assert(at(g, rs, ce) == (rs == row && col - 1 <= ce <= col + 1));
    assert(at(g, r, c) == (r == row && col - 1 <= c <= col + 1));
    assert(next_state(at(g, r, c), live_neighbors(g, r, c)) == (c == col && row - 1 <= r <= row
        + 1));
}

/// Every cell of a grid holding one vertical blinker steps to its
/// horizontal counterpart's state.
proof fn lemma_vline_cell(g: GridModel, row: int, col: int, r: int, c: int)
    requires
        wf(g),
        lone_vline(g, row, col),
        in_range(g, r, c),
    ensures
        next_state(at(g, r, c), live_neighbors(g, r, c)) == (r == row && col - 1 <= c <= col + 1),
{
    let h = g.height as int;
    let w = g.width as int;
    let rn = wrap_dec(r, h);
    let rs = wrap_inc(r, h);
    let cw = wrap_dec(c, w);
    let ce = wrap_inc(c, w);
    assert(in_range(g, rn, cw) && in_range(g, rn, c) && in_range(g, rn, ce));
    assert(in_range(g, r, cw) && in_range(g, r, ce));
    assert(in_range(g, rs, cw) && in_range(g, rs, c) && in_range(g, rs, ce));
    assert(at(g, rn, cw) == (cw == col && row - 1 <= rn <= row + 1));
    assert(at(g, rn, c) == (c == col && row - 1 <= rn <= row + 1));
    assert(at(g, rn, ce) == (ce == col && row - 1 <= rn <= row + 1));
    assert(at(g, r, cw) == (cw == col && row - 1 <= r <= row + 1));
    assert(at(g, r, ce) == (ce == col && row - 1 <= r <= row + 1));
    assert(at(g, rs, cw) == (cw == col && row - 1 <= rs <= row + 1));
    assert(at(g, rs, c) == (c == col && row - 1 <= rs <= row + 1));
    assert(at(g, rs, ce) == (ce == col && row - 1 <= rs <= row + 1));
    assert(at(g, r, c) == (c == col && row - 1 <= r <= row + 1));
    assert(next_state(at(g, r, c), live_neighbors(g, r, c)) == (r == row && col - 1 <= c <= col
        + 1));
}

/// All cells of two equally sized grids agree when a pointwise argument
/// shows the step of the first matches the second.
proof fn lemma_step_matches(g: GridModel, g2: GridModel)
    requires
        wf(g),
        wf(g2),
        g.width == g2.width,
        g.height == g2.height,
        forall|r: int, c: int|
            in_range(g, r, c) ==> next_state(#[trigger] at(g, r, c), live_neighbors(g, r, c)) == at(
                g2,
                r,
                c,
            ),
    ensures
        step(g) == g2,
{
    let w = g.width as int;
    assert forall|i: int| 0 <= i < g.cells.len() implies #[trigger] step(g).cells[i]
        == g2.cells[i] by {
        vstd::arithmetic::div_mod::lemma_fundamental_div_mod(i, w);
        vstd::arithmetic::div_mod::lemma_mod_bound(i, w);
        let r = i / w;
        let c = i % w;
        assert(0 <= r) by (nonlinear_arith)
            requires
                0 <= i,
                0 < w,
                r == i / w,
        ;
        assert(r < g.height) by (nonlinear_arith)
            requires
                i < g.width * g.height,
                0 < w,
                w == g.width,
                0 <= c < w,
                i == w * r + c,
        ;
        assert(w * r == r * w) by (nonlinear_arith);
        assert(g.cells[i] == at(g, r, c));
        assert(g2.cells[i] == at(g2, r, c));
        assert(next_state(at(g, r, c), live_neighbors(g, r, c)) == at(g2, r, c));
    }
    assert(step(g).cells =~= g2.cells);
    assert(step(g) =~= g2);
}

/// A blinker is a period-2 oscillator: one step turns the horizontal
/// 3-cell line into the vertical line centered on the same middle cell,
/// and a second step restores the horizontal line.
pub proof fn lemma_blinker_period_two(g: GridModel, g2: GridModel, row: int, col: int)
    requires
        wf(g),
        wf(g2),
        g.width == g2.width,
        g.height == g2.height,
        lone_hline(g, row, col),
        lone_vline(g2, row, col),
    ensures
        step(g) == g2,
        step(step(g)) == g,
{
    assert forall|r: int, c: int| in_range(g, r, c) implies next_state(
        #[trigger] at(g, r, c),
        live_neighbors(g, r, c),
    ) == at(g2, r, c) by {
        lemma_hline_cell(g, row, col, r, c);
        assert(at(g2, r, c) == (c == col && row - 1 <= r <= row + 1));
    }
    lemma_step_matches(g, g2);
    assert forall|r: int, c: int| in_range(g2, r, c) implies next_state(
        #[trigger] at(g2, r, c),
        live_neighbors(g2, r, c),
    ) == at(g, r, c) by {
        lemma_vline_cell(g2, row, col, r, c);
        assert(at(g, r, c) == (r == row && col - 1 <= c <= col + 1));
    }
    lemma_step_matches(g2, g);
}

/// A 2-by-2 block of live cells away from every edge is unchanged by any
/// number of steps.
pub proof fn lemma_block_stable_forever(g: GridModel, row: int, col: int, n: nat)
    requires
        wf(g),
        lone_block(g, row, col),
    ensures
        iterate(g, n) == g,
    decreases n,
{
    if n > 0 {
        lemma_block_stable_forever(g, row, col, (n - 1) as nat);
        lemma_block_is_still_life(g, row, col);
    }
}

} // verus!
