//! The mathematical model of the grid and of every operation on it.
//!
//! A grid is a pair of dimensions plus the flat row-major sequence of cell
//! states, `true` standing for Alive. The neighbor relation is toroidal:
//! rows wrap modulo the height and columns modulo the width, so every cell
//! has exactly eight neighbors.

use vstd::prelude::*;

verus! {

/// Dimensions plus the flat row-major sequence of cell states.
#[verifier::ext_equal]
pub struct GridModel {
    pub width: nat,
    pub height: nat,
    pub cells: Seq<bool>,
}

/// The structural invariant: one cell per grid position.
pub open spec fn wf(g: GridModel) -> bool {
    g.cells.len() == g.width * g.height
}

/// The cell count fits the machine's address arithmetic.
pub open spec fn fits(g: GridModel) -> bool {
    g.width * g.height <= usize::MAX
}

/// Row-major index of a coordinate pair.
pub open spec fn idx(g: GridModel, row: int, col: int) -> int {
    row * g.width + col
}

pub open spec fn in_range(g: GridModel, row: int, col: int) -> bool {
    0 <= row < g.height && 0 <= col < g.width
}

/// The state of the cell at a coordinate pair.
pub open spec fn at(g: GridModel, row: int, col: int) -> bool {
    g.cells[idx(g, row, col)]
}

/// One toroidal step towards smaller coordinates: `(x + m - 1) % m`
/// for `0 <= x < m`, written without `%` (see `lemma_wrap_dec_is_mod`).
pub open spec fn wrap_dec(x: int, m: int) -> int {
    if x == 0 {
        m - 1
    } else {
        x - 1
    }
}

/// One toroidal step towards larger coordinates: `(x + 1) % m`
/// for `0 <= x < m`, written without `%` (see `lemma_wrap_inc_is_mod`).
pub open spec fn wrap_inc(x: int, m: int) -> int {
    if x + 1 == m {
        0
    } else {
        x + 1
    }
}

/// The wrap-down step is exactly the modulo rule `(x + m - 1) % m`.
pub proof fn lemma_wrap_dec_is_mod(x: int, m: int)
    requires
        0 <= x < m,
    ensures
        wrap_dec(x, m) == (x + m - 1) % m,
{
    if x == 0 {
        vstd::arithmetic::div_mod::lemma_small_mod((m - 1) as nat, m as nat);
    } else {
        vstd::arithmetic::div_mod::lemma_mod_add_multiples_vanish(x - 1, m);
        vstd::arithmetic::div_mod::lemma_small_mod((x - 1) as nat, m as nat);
    }
}

/// The wrap-up step is exactly the modulo rule `(x + 1) % m`.
pub proof fn lemma_wrap_inc_is_mod(x: int, m: int)
    requires
        0 <= x < m,
    ensures
        wrap_inc(x, m) == (x + 1) % m,
{
    if x + 1 == m {
        vstd::arithmetic::div_mod::lemma_mod_self_0(m);
    } else {
        vstd::arithmetic::div_mod::lemma_small_mod((x + 1) as nat, m as nat);
    }
}

pub open spec fn b2i(b: bool) -> int {
    if b {
        1
    } else {
        0
    }
}

/// The number of live cells among the eight toroidally wrapped neighbors.
/// On a 1-wide or 1-tall grid distinct wrap directions may reach the same
/// cell, which is then counted once per direction.
pub open spec fn live_neighbors(g: GridModel, row: int, col: int) -> int {
    let rn = wrap_dec(row, g.height as int);
    let rs = wrap_inc(row, g.height as int);
    let cw = wrap_dec(col, g.width as int);
    let ce = wrap_inc(col, g.width as int);
    b2i(at(g, rn, cw)) + b2i(at(g, rn, col)) + b2i(at(g, rn, ce)) + b2i(at(g, row, cw)) + b2i(
        at(g, row, ce),
    ) + b2i(at(g, rs, cw)) + b2i(at(g, rs, col)) + b2i(at(g, rs, ce))
}

/// The four Life rules: a live cell survives with two or three live
/// neighbors, a dead cell is born with exactly three.
pub open spec fn next_state(cur: bool, neighbors: int) -> bool {
    if cur {
        neighbors == 2 || neighbors == 3
    } else {
        neighbors == 3
    }
}

/// One synchronous generation: every cell's next state is a function of the
/// current generation alone.
pub open spec fn step(g: GridModel) -> GridModel {
    GridModel {
        width: g.width,
        height: g.height,
        cells: Seq::new(
            g.cells.len(),
            |i: int| next_state(g.cells[i], live_neighbors(g, i / g.width as int, i % g.width as int)),
        ),
    }
}

/// `n` generations.
pub open spec fn iterate(g: GridModel, n: nat) -> GridModel
    decreases n,
{
    if n == 0 {
        g
    } else {
        step(iterate(g, (n - 1) as nat))
    }
}

/// The grid with one cell flipped.
pub open spec fn toggled(g: GridModel, row: int, col: int) -> GridModel {
    GridModel {
        width: g.width,
        height: g.height,
        cells: g.cells.update(idx(g, row, col), !at(g, row, col)),
    }
}

/// The grid with every cell Dead.
pub open spec fn cleared(g: GridModel) -> GridModel {
    GridModel {
        width: g.width,
        height: g.height,
        cells: Seq::new(g.cells.len(), |i: int| false),
    }
}

/// Whether one of the first `n` listed coordinates indexes cell `i`.
pub open spec fn listed(g: GridModel, coords: Seq<(u32, u32)>, n: int, i: int) -> bool {
    exists|k: int|
        0 <= k < n && idx(g, (#[trigger] coords[k]).0 as int, coords[k].1 as int) == i
}

/// Listing one more coordinate covers exactly one more index.
pub proof fn lemma_listed_extend(g: GridModel, coords: Seq<(u32, u32)>, n: int, i: int)
    requires
        0 <= n < coords.len(),
    ensures
        listed(g, coords, n + 1, i) == (listed(g, coords, n, i) || idx(
            g,
            coords[n].0 as int,
            coords[n].1 as int,
        ) == i),
{
    if listed(g, coords, n + 1, i) {
        let k = choose|k: int|
            0 <= k < n + 1 && idx(g, (#[trigger] coords[k]).0 as int, coords[k].1 as int) == i;
        if k < n {
            assert(listed(g, coords, n, i));
        }
    }
    if listed(g, coords, n, i) {
        let k = choose|k: int|
            0 <= k < n && idx(g, (#[trigger] coords[k]).0 as int, coords[k].1 as int) == i;
        assert(0 <= k < n + 1 && idx(g, (coords[k]).0 as int, coords[k].1 as int) == i);
        assert(listed(g, coords, n + 1, i));
    }
    if idx(g, coords[n].0 as int, coords[n].1 as int) == i {
        assert(0 <= n < n + 1 && idx(g, (coords[n]).0 as int, coords[n].1 as int) == i);
        assert(listed(g, coords, n + 1, i));
    }
}

/// The grid with the first `n` listed coordinates set Alive and all other
/// cells unchanged.
pub open spec fn with_alive_n(g: GridModel, coords: Seq<(u32, u32)>, n: int) -> GridModel {
    GridModel {
        width: g.width,
        height: g.height,
        cells: Seq::new(g.cells.len(), |i: int| g.cells[i] || listed(g, coords, n, i)),
    }
}

/// The grid with every listed coordinate set Alive and all others unchanged.
pub open spec fn with_alive(g: GridModel, coords: Seq<(u32, u32)>) -> GridModel {
    with_alive_n(g, coords, coords.len() as int)
}

/// An in-range coordinate pair indexes a cell of a well-formed grid.
pub proof fn lemma_idx_in_range(g: GridModel, row: int, col: int)
    requires
        wf(g),
        in_range(g, row, col),
    ensures
        0 <= idx(g, row, col) < g.cells.len(),
{
    assert(row * g.width + col < g.height * g.width) by (nonlinear_arith)
        requires
            0 <= row < g.height,
            0 <= col < g.width,
    ;
    assert(g.height * g.width == g.width * g.height) by (nonlinear_arith);
}

/// Marking the first `n + 1` listed coordinates is marking the first `n`
/// and then writing coordinate `n` Alive.
pub proof fn lemma_with_alive_n_extend(g: GridModel, coords: Seq<(u32, u32)>, n: int)
    requires
        wf(g),
        0 <= n < coords.len(),
        in_range(g, coords[n].0 as int, coords[n].1 as int),
    ensures
        with_alive_n(g, coords, n + 1).cells == with_alive_n(g, coords, n).cells.update(
            idx(g, coords[n].0 as int, coords[n].1 as int),
            true,
        ),
{
    lemma_idx_in_range(g, coords[n].0 as int, coords[n].1 as int);
    let i0 = idx(g, coords[n].0 as int, coords[n].1 as int);
    assert forall|i: int| 0 <= i < g.cells.len() implies with_alive_n(g, coords, n + 1).cells[i]
        == with_alive_n(g, coords, n).cells.update(i0, true)[i] by {
        lemma_listed_extend(g, coords, n, i);
        if i == i0 {
            assert(listed(g, coords, n + 1, i));
        }
    }
    assert(with_alive_n(g, coords, n + 1).cells =~= with_alive_n(g, coords, n).cells.update(
        i0,
        true,
    ));
}

/// Marking no coordinates changes nothing.
pub proof fn lemma_with_alive_n_zero(g: GridModel, coords: Seq<(u32, u32)>)
    ensures
        with_alive_n(g, coords, 0).cells == g.cells,
{
    assert(with_alive_n(g, coords, 0).cells =~= g.cells);
}

/// The grid with the `side`-by-`side` box at (`top`, `left`) overwritten by
/// the pattern and every cell outside the box unchanged. The box must not
/// wrap: stamping is defined only for boxes that lie fully inside the grid.
pub open spec fn stamped(
    g: GridModel,
    top: int,
    left: int,
    side: int,
    pat: spec_fn(int, int) -> bool,
) -> GridModel {
    GridModel {
        width: g.width,
        height: g.height,
        cells: Seq::new(
            g.cells.len(),
            |i: int|
                {
                    let r = i / g.width as int;
                    let c = i % g.width as int;
                    if top <= r < top + side && left <= c < left + side {
                        pat(r - top, c - left)
                    } else {
                        g.cells[i]
                    }
                },
        ),
    }
}

/// The grid with the first `n` box positions (row-major within the box)
/// overwritten by the pattern and every other cell unchanged.
pub open spec fn stamped_n(
    g: GridModel,
    top: int,
    left: int,
    side: int,
    pat: spec_fn(int, int) -> bool,
    n: int,
) -> GridModel {
    GridModel {
        width: g.width,
        height: g.height,
        cells: Seq::new(
            g.cells.len(),
            |i: int|
                {
                    let r = i / g.width as int;
                    let c = i % g.width as int;
                    if top <= r < top + side && left <= c < left + side && (r - top) * side + (c
                        - left) < n {
                        pat(r - top, c - left)
                    } else {
                        g.cells[i]
                    }
                },
        ),
    }
}

/// Stamping no box positions changes nothing.
pub proof fn lemma_stamped_n_zero(
    g: GridModel,
    top: int,
    left: int,
    side: int,
    pat: spec_fn(int, int) -> bool,
)
    requires
        0 < side,
    ensures
        stamped_n(g, top, left, side, pat, 0).cells == g.cells,
{
    assert forall|i: int| 0 <= i < g.cells.len() implies stamped_n(
        g,
        top,
        left,
        side,
        pat,
        0,
    ).cells[i] == g.cells[i] by {
        let r = i / g.width as int;
        let c = i % g.width as int;
        if top <= r < top + side && left <= c < left + side {
            assert((r - top) * side + (c - left) >= 0) by (nonlinear_arith)
                requires
                    0 <= r - top,
                    0 <= c - left,
                    0 < side,
            ;
        }
    }
    assert(stamped_n(g, top, left, side, pat, 0).cells =~= g.cells);
}

/// Stamping one more box position is one more single-cell write.
pub proof fn lemma_stamped_n_extend(
    g: GridModel,
    top: int,
    left: int,
    side: int,
    pat: spec_fn(int, int) -> bool,
    n: int,
)
    requires
        wf(g),
        0 <= top,
        0 <= left,
        0 < side,
        top + side <= g.height,
        left + side <= g.width,
        0 <= n < side * side,
    ensures
        0 <= n / side < side,
        0 <= n % side < side,
        (n / side) * side + n % side == n,
        0 <= idx(g, top + n / side, left + n % side) < g.cells.len(),
        stamped_n(g, top, left, side, pat, n + 1).cells == stamped_n(
            g,
            top,
            left,
            side,
            pat,
            n,
        ).cells.update(idx(g, top + n / side, left + n % side), pat(n / side, n % side)),
{
    let w = g.width as int;
    let q = n / side;
    let rem = n % side;
    vstd::arithmetic::div_mod::lemma_fundamental_div_mod(n, side);
    vstd::arithmetic::div_mod::lemma_mod_bound(n, side);
    assert(0 <= q && q < side) by (nonlinear_arith)
        requires
            n == side * q + rem,
            0 <= rem < side,
            0 <= n < side * side,
    ;
    assert(q * side == side * q) by (nonlinear_arith);
    let r0 = top + q;
    let c0 = left + rem;
    lemma_idx_in_range(g, r0, c0);
    let i0 = idx(g, r0, c0);
    vstd::arithmetic::div_mod::lemma_fundamental_div_mod_converse(i0, w, r0, c0);
    assert forall|i: int| 0 <= i < g.cells.len() implies #[trigger] stamped_n(
        g,
        top,
        left,
        side,
        pat,
        n + 1,
    ).cells[i] == stamped_n(g, top, left, side, pat, n).cells.update(i0, pat(q, rem))[i] by {
        let r = i / w;
        let c = i % w;
        if i == i0 {
            assert(q * side == side * q) by (nonlinear_arith);
            assert((r - top) * side + (c - left) == n);
        } else {
            if top <= r < top + side && left <= c < left + side && (r - top) * side + (c - left)
                == n {
                vstd::arithmetic::div_mod::lemma_fundamental_div_mod_converse(
                    n,
                    side,
                    r - top,
                    c - left,
                );
                vstd::arithmetic::div_mod::lemma_fundamental_div_mod(i, w);
                assert(w * r == r * w) by (nonlinear_arith);
                assert(i == i0);
            }
        }
    }
    assert(stamped_n(g, top, left, side, pat, n + 1).cells =~= stamped_n(
        g,
        top,
        left,
        side,
        pat,
        n,
    ).cells.update(i0, pat(q, rem)));
}

/// Stamping every box position is the whole stamp.
pub proof fn lemma_stamped_n_complete(
    g: GridModel,
    top: int,
    left: int,
    side: int,
    pat: spec_fn(int, int) -> bool,
)
    requires
        0 < side,
    ensures
        stamped_n(g, top, left, side, pat, side * side).cells == stamped(
            g,
            top,
            left,
            side,
            pat,
        ).cells,
{
    assert forall|i: int| 0 <= i < g.cells.len() implies stamped_n(
        g,
        top,
        left,
        side,
        pat,
        side * side,
    ).cells[i] == stamped(g, top, left, side, pat).cells[i] by {
        let r = i / g.width as int;
        let c = i % g.width as int;
        if top <= r < top + side && left <= c < left + side {
            assert((r - top) * side + (c - left) < side * side) by (nonlinear_arith)
                requires
                    0 <= r - top < side,
                    0 <= c - left < side,
                    0 < side,
            ;
        }
    }
    assert(stamped_n(g, top, left, side, pat, side * side).cells =~= stamped(
        g,
        top,
        left,
        side,
        pat,
    ).cells);
}

/// The fixed 3-by-3 glider pattern, indexed by offsets within its box.
pub open spec fn glider_pat(dr: int, dc: int) -> bool {
    (dr == 0 && dc == 1) || (dr == 1 && dc == 2) || (dr == 2 && 0 <= dc <= 2)
}

/// A glider stamp centered at (`row`, `col`) fits only with its whole
/// 3-by-3 box inside the grid: `1 <= row <= height - 2` and
/// `1 <= col <= width - 2`.
pub open spec fn glider_fits(g: GridModel, row: int, col: int) -> bool {
    1 <= row && row + 2 <= g.height && 1 <= col && col + 2 <= g.width
}

pub open spec fn glider_stamped(g: GridModel, row: int, col: int) -> GridModel {
    stamped(g, row - 1, col - 1, 3, |dr: int, dc: int| glider_pat(dr, dc))
}

/// The rows of the 15-by-15 pulsar box holding its horizontal bars.
pub open spec fn pulsar_bar(x: int) -> bool {
    x == 1 || x == 6 || x == 8 || x == 13
}

/// The columns of the 15-by-15 pulsar box spanned by each bar.
pub open spec fn pulsar_span(x: int) -> bool {
    3 <= x <= 5 || 9 <= x <= 11
}

/// The fixed 15-by-15 pulsar pattern, indexed by offsets within its box.
pub open spec fn pulsar_pat(dr: int, dc: int) -> bool {
    (pulsar_bar(dr) && pulsar_span(dc)) || (pulsar_bar(dc) && pulsar_span(dr))
}

/// A pulsar stamp centered at (`row`, `col`) fits only with its whole
/// 15-by-15 box inside the grid: `7 <= row <= height - 8` and
/// `7 <= col <= width - 8`.
pub open spec fn pulsar_fits(g: GridModel, row: int, col: int) -> bool {
    7 <= row && row + 8 <= g.height && 7 <= col && col + 8 <= g.width
}

pub open spec fn pulsar_stamped(g: GridModel, row: int, col: int) -> GridModel {
    stamped(g, row - 7, col - 7, 15, |dr: int, dc: int| pulsar_pat(dr, dc))
}

/// The glyph a rendered cell shows.
pub open spec fn glyph(b: bool) -> char {
    if b {
        '◼'
    } else {
        '◻'
    }
}

/// The first `n` glyphs of one rendered row.
pub open spec fn row_chars(g: GridModel, row: int, n: nat) -> Seq<char>
    decreases n,
{
    if n == 0 {
        Seq::empty()
    } else {
        row_chars(g, row, (n - 1) as nat).push(glyph(at(g, row, n - 1)))
    }
}

/// The first `n` rendered rows, each ended by a newline.
pub open spec fn rows_chars(g: GridModel, n: nat) -> Seq<char>
    decreases n,
{
    if n == 0 {
        Seq::empty()
    } else {
        rows_chars(g, (n - 1) as nat) + row_chars(g, n - 1, g.width).push('\n')
    }
}

/// The whole rendering: one line per row, one glyph per cell.
pub open spec fn render_spec(g: GridModel) -> Seq<char> {
    rows_chars(g, g.height)
}

} // verus!
