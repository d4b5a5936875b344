//! The grid object and every operation on it: construction and reseeding,
//! geometry, neighbor counting, the `tick` transition, editing, pattern
//! stamps, and rendering.

use vstd::prelude::*;

use crate::bits::bits_of;
use crate::bits::bs_blocks;
use crate::bits::bs_get;
use crate::bits::bs_set;
use crate::bits::bs_with_capacity;
use crate::model::at;
use crate::model::cleared;
use crate::model::fits;
use crate::model::glider_fits;
use crate::model::glider_pat;
use crate::model::glider_stamped;
use crate::model::idx;
use crate::model::in_range;
use crate::model::lemma_stamped_n_complete;
use crate::model::lemma_stamped_n_extend;
use crate::model::lemma_stamped_n_zero;
use crate::model::lemma_with_alive_n_extend;
use crate::model::lemma_with_alive_n_zero;
use crate::model::live_neighbors;
use crate::model::next_state;
use crate::model::pulsar_fits;
use crate::model::pulsar_pat;
use crate::model::pulsar_stamped;
use crate::model::render_spec;
use crate::model::row_chars;
use crate::model::rows_chars;
use crate::model::stamped;
use crate::model::stamped_n;
use crate::model::step;
use crate::model::toggled;
use crate::model::wf;
use crate::model::with_alive;
use crate::model::with_alive_n;
use crate::model::GridModel;
use fixedbitset::FixedBitSet;

verus! {

/// The state of one cell.
#[derive(Clone, Copy, Debug, PartialEq, Eq, Structural)]
pub enum Cell {
    Dead,
    Alive,
}

/// The one error an operation reports: a coordinate outside the grid.
#[derive(Clone, Copy, Debug, PartialEq, Eq, Structural)]
pub enum GridError {
    OutOfBounds,
}

/// Whether the pulsar pattern is Alive at the given box offsets.
fn pulsar_alive(dr: u32, dc: u32) -> (b: bool)
    ensures
        b == pulsar_pat(dr as int, dc as int),
{
    let bar_r = dr == 1 || dr == 6 || dr == 8 || dr == 13;
    let span_r = (3 <= dr && dr <= 5) || (9 <= dr && dr <= 11);
    let bar_c = dc == 1 || dc == 6 || dc == 8 || dc == 13;
    let span_c = (3 <= dc && dc <= 5) || (9 <= dc && dc <= 11);
    (bar_r && span_c) || (bar_c && span_r)
}

/// A toroidal Game of Life grid: dimensions plus a bit-packed cell array of
/// `width * height` cells in row-major order.
pub struct Universe {
    width: u32,
    height: u32,
    cells: FixedBitSet,
}

impl View for Universe {
    type V = GridModel;

    closed spec fn view(&self) -> GridModel {
        GridModel {
            width: self.width as nat,
            height: self.height as nat,
            cells: bits_of(self.cells),
        }
    }
}

impl Universe {
    /// Builds a grid of the given dimensions whose cells take the supplied
    /// seed values, row-major; the seed decisions themselves are owned by
    /// the caller.
    pub fn new(width: u32, height: u32, seeds: Vec<bool>) -> (u: Universe)
        requires
            seeds@.len() == width * height,
            width * height <= usize::MAX,
        ensures
            u@.width == width,
            u@.height == height,
            u@.cells == seeds@,
            wf(u@),
            fits(u@),
    {
        let size = (width as usize) * (height as usize);
        let mut cells = bs_with_capacity(size);
        let mut i: usize = 0;
        while i < size
            invariant
                i <= size,
                size == width * height,
                seeds@.len() == size,
                bits_of(cells).len() == size,
                forall|j: int| 0 <= j < i ==> bits_of(cells)[j] == seeds@[j],
            decreases size - i,
        {
            bs_set(&mut cells, i, seeds[i]);
            i += 1;
        }
        let u = Universe { width, height, cells };
        proof {
            assert(u@.cells =~= seeds@);
        }
        u
    }

    pub fn width(&self) -> (w: u32)
        ensures
            w == self@.width,
    {
        self.width
    }

    pub fn height(&self) -> (h: u32)
        ensures
            h == self@.height,
    {
        self.height
    }

    /// Row-major index of an in-range coordinate pair.
    fn get_index(&self, row: u32, column: u32) -> (r: usize)
        requires
            wf(self@),
            fits(self@),
            row < self@.height,
            column < self@.width,
        ensures
            r == idx(self@, row as int, column as int),
            r < self@.cells.len(),
    {
        proof {
            let w = self.width as int;
            let h = self.height as int;
            assert((row as int) * w + (column as int) < w * h) by (nonlinear_arith)
                requires
                    0 <= (row as int),
                    (row as int) < h,
                    0 <= (column as int),
                    (column as int) < w,
            ;
            assert(self@.width * self@.height == w * h);
        }
        (row as usize) * (self.width as usize) + (column as usize)
    }

    /// Whether the cell at an in-range coordinate pair is Alive.
    fn is_alive_at(&self, row: u32, column: u32) -> (r: bool)
        requires
            wf(self@),
            fits(self@),
            row < self@.height,
            column < self@.width,
        ensures
            r == at(self@, row as int, column as int),
    {
        let i = self.get_index(row, column);
        bs_get(&self.cells, i)
    }

    /// The number of live cells among the eight toroidally wrapped
    /// neighbors: the neighbor row is taken modulo the height and the
    /// neighbor column modulo the width.
    pub fn live_neighbor_count(&self, row: u32, column: u32) -> (count: u8)
        requires
            wf(self@),
            fits(self@),
            row < self@.height,
            column < self@.width,
        ensures
            count as int == live_neighbors(self@, row as int, column as int),
            count <= 8,
    {
        let rn = if row == 0 {
            self.height - 1
        } else {
            row - 1
        };
        let rs = if row + 1 == self.height {
            0
        } else {
            row + 1
        };
        let cw = if column == 0 {
            self.width - 1
        } else {
            column - 1
        };
        let ce = if column + 1 == self.width {
            0
        } else {
            column + 1
        };
        let mut count: u8 = 0;
        if self.is_alive_at(rn, cw) {
            count += 1;
        }
        if self.is_alive_at(rn, column) {
            count += 1;
        }
        if self.is_alive_at(rn, ce) {
            count += 1;
        }
        if self.is_alive_at(row, cw) {
            count += 1;
        }
        if self.is_alive_at(row, ce) {
            count += 1;
        }
        if self.is_alive_at(rs, cw) {
            count += 1;
        }
        if self.is_alive_at(rs, column) {
            count += 1;
        }
        if self.is_alive_at(rs, ce) {
            count += 1;
        }
        count
    }

    /// Advances one generation synchronously: every cell's next state is
    /// computed from the current generation's neighbor counts alone, into a
    /// second buffer, and the cell array is then replaced whole.
    pub fn tick(&mut self)
        requires
            wf(old(self)@),
            fits(old(self)@),
        ensures
            final(self)@ == step(old(self)@),
    {
        let w = self.width;
        let h = self.height;
        let size = (w as usize) * (h as usize);
        let mut next = bs_with_capacity(size);
        let mut row: u32 = 0;
        while row < h
            invariant
                *self == *old(self),
                wf(self@),
                fits(self@),
                w == self@.width,
                h == self@.height,
                size == self@.cells.len(),
                row <= h,
                bits_of(next).len() == size,
                forall|i: int|
                    0 <= i < (row as int) * (w as int) ==> bits_of(next)[i] == step(self@).cells[i],
            decreases h - row,
        {
            let mut col: u32 = 0;
            while col < w
                invariant
                    *self == *old(self),
                    wf(self@),
                    fits(self@),
                    w == self@.width,
                    h == self@.height,
                    size == self@.cells.len(),
                    row < h,
                    col <= w,
                    bits_of(next).len() == size,
                    forall|i: int|
                        0 <= i < (row as int) * (w as int) + col ==> bits_of(next)[i] == step(
                            self@,
                        ).cells[i],
                decreases w - col,
            {
                let cell_idx = self.get_index(row, col);
                let cur = bs_get(&self.cells, cell_idx);
                let n = self.live_neighbor_count(row, col);
                let next_value = if cur {
                    n == 2 || n == 3
                } else {
                    n == 3
                };
                proof {
                    vstd::arithmetic::div_mod::lemma_fundamental_div_mod_converse(
                        cell_idx as int,
                        w as int,
                        row as int,
                        col as int,
                    );
                    assert(step(self@).cells[cell_idx as int] == next_state(
                        self@.cells[cell_idx as int],
                        live_neighbors(self@, row as int, col as int),
                    ));
                }
                bs_set(&mut next, cell_idx, next_value);
                col += 1;
            }
            proof {
                assert(((row as int) + 1) * (w as int) == (row as int) * (w as int) + (w as int))
                    by (nonlinear_arith);
            }
            row += 1;
        }
        proof {
            assert((row as int) * (w as int) == (h as int) * (w as int));
            assert(self@.width * self@.height == (w as int) * (h as int));
            assert((h as int) * (w as int) == (w as int) * (h as int)) by (nonlinear_arith);
        }
        self.cells = next;
        proof {
            assert(self@.cells =~= step(old(self)@).cells);
            assert(self@ =~= step(old(self)@));
        }
    }

    /// Sets the width and reallocates the cell array at the new size with
    /// every cell Dead: resizing resets the grid, it does not migrate old
    /// content.
    pub fn set_width(&mut self, width: u32)
        requires
            wf(old(self)@),
            width * old(self)@.height <= usize::MAX,
        ensures
            final(self)@.width == width,
            final(self)@.height == old(self)@.height,
            final(self)@.cells == Seq::new((width * old(self)@.height) as nat, |i: int| false),
            wf(final(self)@),
            fits(final(self)@),
    {
        let size = (width as usize) * (self.height as usize);
        self.width = width;
        self.cells = bs_with_capacity(size);
        proof {
            assert(self@.cells =~= Seq::new((width * self@.height) as nat, |i: int| false));
        }
    }

    /// Sets the height and reallocates the cell array at the new size with
    /// every cell Dead: resizing resets the grid, it does not migrate old
    /// content.
    pub fn set_height(&mut self, height: u32)
        requires
            wf(old(self)@),
            old(self)@.width * height <= usize::MAX,
        ensures
            final(self)@.width == old(self)@.width,
            final(self)@.height == height,
            final(self)@.cells == Seq::new((old(self)@.width * height) as nat, |i: int| false),
            wf(final(self)@),
            fits(final(self)@),
    {
        let size = (self.width as usize) * (height as usize);
        self.height = height;
        self.cells = bs_with_capacity(size);
        proof {
            assert(self@.cells =~= Seq::new((self@.width * height) as nat, |i: int| false));
        }
    }

    /// Reseeds every cell from the supplied values, row-major; the seed
    /// decisions themselves are owned by the caller.
    pub fn reset(&mut self, seeds: Vec<bool>)
        requires
            wf(old(self)@),
            fits(old(self)@),
            seeds@.len() == old(self)@.width * old(self)@.height,
        ensures
            final(self)@.width == old(self)@.width,
            final(self)@.height == old(self)@.height,
            final(self)@.cells == seeds@,
    {
        let size = (self.width as usize) * (self.height as usize);
        let mut i: usize = 0;
        while i < size
            invariant
                self.width == old(self).width,
                self.height == old(self).height,
                wf(self@),
                size == self@.cells.len(),
                seeds@.len() == size,
                i <= size,
                forall|j: int| 0 <= j < i ==> self@.cells[j] == seeds@[j],
            decreases size - i,
        {
            bs_set(&mut self.cells, i, seeds[i]);
            i += 1;
        }
        proof {
            assert(self@.cells =~= seeds@);
        }
    }

    /// Sets every cell to Dead, leaving the dimensions unchanged.
    pub fn reset_all_dead(&mut self)
        requires
            wf(old(self)@),
            fits(old(self)@),
        ensures
            final(self)@ == cleared(old(self)@),
    {
        let size = (self.width as usize) * (self.height as usize);
        self.cells = bs_with_capacity(size);
        proof {
            assert(self@.cells =~= cleared(old(self)@).cells);
            assert(self@ =~= cleared(old(self)@));
        }
    }

    /// Flips a single cell; a coordinate outside the grid is reported and
    /// leaves the grid unchanged.
    pub fn toggle_cell(&mut self, row: u32, column: u32) -> (r: Result<(), GridError>)
        requires
            wf(old(self)@),
            fits(old(self)@),
        ensures
            match r {
                Ok(_) => in_range(old(self)@, row as int, column as int) && final(self)@ == toggled(
                    old(self)@,
                    row as int,
                    column as int,
                ),
                Err(e) => e == GridError::OutOfBounds && !in_range(
                    old(self)@,
                    row as int,
                    column as int,
                ) && final(self)@ == old(self)@,
            },
    {
        if row < self.height && column < self.width {
            let i = self.get_index(row, column);
            let cur = bs_get(&self.cells, i);
            bs_set(&mut self.cells, i, !cur);
            proof {
                assert(self@ =~= toggled(old(self)@, row as int, column as int));
            }
            Ok(())
        } else {
            Err(GridError::OutOfBounds)
        }
    }

    /// Reads a single cell; a coordinate outside the grid is reported.
    pub fn get_cell(&self, row: u32, column: u32) -> (r: Result<Cell, GridError>)
        requires
            wf(self@),
            fits(self@),
        ensures
            match r {
                Ok(c) => in_range(self@, row as int, column as int) && (c == Cell::Alive <==> at(
                    self@,
                    row as int,
                    column as int,
                )),
                Err(e) => e == GridError::OutOfBounds && !in_range(
                    self@,
                    row as int,
                    column as int,
                ),
            },
    {
        if row < self.height && column < self.width {
            if self.is_alive_at(row, column) {
                Ok(Cell::Alive)
            } else {
                Ok(Cell::Dead)
            }
        } else {
            Err(GridError::OutOfBounds)
        }
    }

    /// Marks every listed (row, column) coordinate Alive and leaves all
    /// other cells unchanged. If any coordinate lies outside the grid the
    /// whole operation is rejected and nothing is mutated.
    pub fn set_cells(&mut self, cells: &[(u32, u32)]) -> (r: Result<(), GridError>)
        requires
            wf(old(self)@),
            fits(old(self)@),
        ensures
            match r {
                Ok(_) => (forall|k: int|
                    0 <= k < cells@.len() ==> in_range(
                        old(self)@,
                        (#[trigger] cells@[k]).0 as int,
                        cells@[k].1 as int,
                    )) && final(self)@ == with_alive(old(self)@, cells@),
                Err(e) => e == GridError::OutOfBounds && !(forall|k: int|
                    0 <= k < cells@.len() ==> in_range(
                        old(self)@,
                        (#[trigger] cells@[k]).0 as int,
                        cells@[k].1 as int,
                    )) && final(self)@ == old(self)@,
            },
    {
        let mut k: usize = 0;
        while k < cells.len()
            invariant
                *self == *old(self),
                wf(self@),
                fits(self@),
                k <= cells@.len(),
                forall|j: int|
                    0 <= j < k ==> in_range(
                        self@,
                        (#[trigger] cells@[j]).0 as int,
                        cells@[j].1 as int,
                    ),
            decreases cells@.len() - k,
        {
            let pair = vstd::slice::slice_index_get(cells, k);
            if !(pair.0 < self.height && pair.1 < self.width) {
                return Err(GridError::OutOfBounds);
            }
            k += 1;
        }
        let ghost g0 = self@;
        proof {
            lemma_with_alive_n_zero(g0, cells@);
        }
        let mut k: usize = 0;
        while k < cells.len()
            invariant
                self.width == old(self).width,
                self.height == old(self).height,
                g0 == old(self)@,
                wf(self@),
                fits(self@),
                self@.width == g0.width,
                self@.height == g0.height,
                self@.cells.len() == g0.cells.len(),
                k <= cells@.len(),
                forall|j: int|
                    0 <= j < cells@.len() ==> in_range(
                        g0,
                        (#[trigger] cells@[j]).0 as int,
                        cells@[j].1 as int,
                    ),
                self@.cells == with_alive_n(g0, cells@, k as int).cells,
            decreases cells@.len() - k,
        {
            let pair = vstd::slice::slice_index_get(cells, k);
            let row = pair.0;
            let column = pair.1;
            let i = self.get_index(row, column);
            proof {
                assert(cells@[k as int] == (row, column));
                assert(idx(g0, row as int, column as int) == i as int);
                lemma_with_alive_n_extend(g0, cells@, k as int);
            }
            bs_set(&mut self.cells, i, true);
            k += 1;
        }
        proof {
            assert(self@ =~= with_alive(g0, cells@));
        }
        Ok(())
    }

    /// Read-only view of the packed cell buffer: `u32` blocks, cell `i`
    /// stored as bit `i % 32` of block `i / 32`.
    pub fn cells(&self) -> (r: &[u32])
        ensures
            r@.len() == (self@.cells.len() + 31) / 32,
            forall|i: int|
                0 <= i < self@.cells.len() ==> (self@.cells[i] == (((#[trigger] r@[i / 32] >> ((i
                    % 32) as u32)) & 1u32) == 1u32)),
    {
        bs_blocks(&self.cells)
    }

    /// The dead and alive values of the entire grid, in the same packed
    /// form as `cells`.
    pub fn get_cells(&self) -> (r: &[u32])
        ensures
            r@.len() == (self@.cells.len() + 31) / 32,
            forall|i: int|
                0 <= i < self@.cells.len() ==> (self@.cells[i] == (((#[trigger] r@[i / 32] >> ((i
                    % 32) as u32)) & 1u32) == 1u32)),
    {
        bs_blocks(&self.cells)
    }

    /// Overwrites the `side`-by-`side` box whose top-left corner is at
    /// (`top`, `left`) with the pattern values, row-major within the box.
    fn stamp(&mut self, top: u32, left: u32, side: u32, pat: &Vec<bool>)
        requires
            wf(old(self)@),
            fits(old(self)@),
            0 < side,
            pat@.len() == side * side,
            top + side <= old(self)@.height,
            left + side <= old(self)@.width,
        ensures
            final(self)@ == stamped(
                old(self)@,
                top as int,
                left as int,
                side as int,
                (|dr: int, dc: int| pat@[dr * (side as int) + dc]),
            ),
    {
        let ghost g0 = self@;
        let ghost patf = |dr: int, dc: int| pat@[dr * (side as int) + dc];
        proof {
            lemma_stamped_n_zero(g0, top as int, left as int, side as int, patf);
            assert((side as int) * (side as int) <= g0.width * g0.height) by (nonlinear_arith)
                requires
                    0 < side as int,
                    side as int <= g0.height,
                    side as int <= g0.width,
            ;
        }
        let size = (side as usize) * (side as usize);
        let mut n: usize = 0;
        while n < size
            invariant
                self.width == old(self).width,
                self.height == old(self).height,
                g0 == old(self)@,
                wf(g0),
                fits(g0),
                0 < side,
                pat@.len() == side * side,
                top + side <= g0.height,
                left + side <= g0.width,
                size == side * side,
                self@.width == g0.width,
                self@.height == g0.height,
                n <= size,
                self@.cells == stamped_n(
                    g0,
                    top as int,
                    left as int,
                    side as int,
                    patf,
                    n as int,
                ).cells,
                patf == (|dr: int, dc: int| pat@[dr * (side as int) + dc]),
            decreases size - n,
        {
            proof {
                lemma_stamped_n_extend(g0, top as int, left as int, side as int, patf, n as int);
            }
            let dr = n / (side as usize);
            let dc = n % (side as usize);
            let row = top + (dr as u32);
            let column = left + (dc as u32);
            let i = self.get_index(row, column);
            proof {
                assert(i as int == idx(g0, top + dr as int, left + dc as int));
                assert(patf(n as int / side as int, n as int % side as int) == pat@[n as int]);
            }
            bs_set(&mut self.cells, i, pat[n]);
            n += 1;
        }
        proof {
            lemma_stamped_n_complete(g0, top as int, left as int, side as int, patf);
            assert(self@ =~= stamped(
                g0,
                top as int,
                left as int,
                side as int,
                (|dr: int, dc: int| pat@[dr * (side as int) + dc]),
            ));
        }
    }

    /// Stamps the fixed 3-by-3 glider pattern centered at (`row`, `column`),
    /// overwriting the whole box. A box that would extend outside the grid
    /// makes the call a silent no-op; stamping never wraps.
    pub fn insert_glider(&mut self, row: u32, column: u32)
        requires
            wf(old(self)@),
            fits(old(self)@),
        ensures
            glider_fits(old(self)@, row as int, column as int) ==> final(self)@ == glider_stamped(
                old(self)@,
                row as int,
                column as int,
            ),
            !glider_fits(old(self)@, row as int, column as int) ==> final(self)@ == old(self)@,
    {
        if row >= 1 && column >= 1 && (row as u64) + 2 <= (self.height as u64) && (column as u64)
            + 2 <= (self.width as u64) {
            let mut pat: Vec<bool> = Vec::new();
            pat.push(false);
            pat.push(true);
            pat.push(false);
            pat.push(false);
            pat.push(false);
            pat.push(true);
            pat.push(true);
            pat.push(true);
            pat.push(true);
            let ghost g0 = self@;
            self.stamp(row - 1, column - 1, 3, &pat);
            proof {
                assert forall|dr: int, dc: int| 0 <= dr < 3 && 0 <= dc < 3 implies (
                #[trigger] pat@[dr * 3 + dc]) == glider_pat(dr, dc) by {
                    assert(0 <= dr * 3 + dc < 9);
                }
                assert(self@.cells =~= glider_stamped(g0, row as int, column as int).cells);
                assert(self@ =~= glider_stamped(g0, row as int, column as int));
            }
        }
    }

    /// Stamps the fixed 15-by-15 pulsar pattern centered at
    /// (`row`, `column`), overwriting the whole box. A box that would
    /// extend outside the grid makes the call a silent no-op; stamping
    /// never wraps.
    pub fn insert_pulsar(&mut self, row: u32, column: u32)
        requires
            wf(old(self)@),
            fits(old(self)@),
        ensures
            pulsar_fits(old(self)@, row as int, column as int) ==> final(self)@ == pulsar_stamped(
                old(self)@,
                row as int,
                column as int,
            ),
            !pulsar_fits(old(self)@, row as int, column as int) ==> final(self)@ == old(self)@,
    {
        if row >= 7 && column >= 7 && (row as u64) + 8 <= (self.height as u64) && (column as u64)
            + 8 <= (self.width as u64) {
            let mut pat: Vec<bool> = Vec::new();
            let mut n: usize = 0;
            while n < 225
                invariant
                    pat@.len() == n,
                    n <= 225,
                    forall|k: int| 0 <= k < n ==> pat@[k] == pulsar_pat(k / 15, k % 15),
                decreases 225 - n,
            {
                let dr = n / 15;
                let dc = n % 15;
                pat.push(pulsar_alive(dr as u32, dc as u32));
                n += 1;
            }
            let ghost g0 = self@;
            self.stamp(row - 7, column - 7, 15, &pat);
            proof {
                assert forall|dr: int, dc: int| 0 <= dr < 15 && 0 <= dc < 15 implies (
                #[trigger] pat@[dr * 15 + dc]) == pulsar_pat(dr, dc) by {
                    vstd::arithmetic::div_mod::lemma_fundamental_div_mod_converse(
                        dr * 15 + dc,
                        15,
                        dr,
                        dc,
                    );
                }
                assert(self@.cells =~= pulsar_stamped(g0, row as int, column as int).cells);
                assert(self@ =~= pulsar_stamped(g0, row as int, column as int));
            }
        }
    }

    /// Renders the grid as text: one line per row, one glyph per cell,
    /// every row ended by a newline.
    pub fn render(&self) -> (r: String)
        requires
            wf(self@),
            fits(self@),
        ensures
            r@ == render_spec(self@),
    {
        let mut s = String::new();
        let mut row: u32 = 0;
        while row < self.height
            invariant
                wf(self@),
                fits(self@),
                row <= self@.height,
                s@ == rows_chars(self@, row as nat),
            decreases self@.height - row,
        {
            let mut col: u32 = 0;
            while col < self.width
                invariant
                    wf(self@),
                    fits(self@),
                    row < self@.height,
                    col <= self@.width,
                    s@ == rows_chars(self@, row as nat) + row_chars(self@, row as int, col as nat),
                decreases self@.width - col,
            {
                if self.is_alive_at(row, col) {
                    s.append("◼");
                    proof {
                        reveal_strlit("◼");
                        assert("◼"@ =~= seq!['◼']);
                    }
                } else {
                    s.append("◻");
                    proof {
                        reveal_strlit("◻");
                        assert("◻"@ =~= seq!['◻']);
                    }
                }
                proof {
                    assert(s@ =~= rows_chars(self@, row as nat) + row_chars(
                        self@,
                        row as int,
                        (col + 1) as nat,
                    ));
                }
                col += 1;
            }
            s.append("\n");
            proof {
                reveal_strlit("\n");
                assert("\n"@ =~= seq!['\n']);
                assert(s@ =~= rows_chars(self@, (row + 1) as nat));
            }
            row += 1;
        }
        s
    }
}

} // verus!
