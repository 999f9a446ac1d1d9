//! The simulation engine: a toroidal grid of binary cells plus the
//! B3/S23 transition rule.

use vstd::prelude::*;
use vstd::arithmetic::div_mod::lemma_fundamental_div_mod;
use vstd::arithmetic::div_mod::lemma_fundamental_div_mod_converse_mod;
use vstd::arithmetic::div_mod::lemma_mod_division_less_than_divisor;
use vstd::arithmetic::div_mod::lemma_small_mod;

use vstd::string::StringExecFns;

use crate::bitset::bits_of;
use crate::bitset::bitset_contains;
use crate::bitset::bitset_new;
use crate::bitset::bitset_set;
use crate::bitset::bitset_toggle;
use crate::wrap;

verus! {

/// The wrapped value always lands inside the grid axis.
pub proof fn lemma_wrap_range(v: int, dim: int)
    requires
        dim > 0,
    ensures
        0 <= wrap(v, dim) < dim,
{
    lemma_mod_division_less_than_divisor(v, dim);
}

/// Wrapping fixes values that are already inside the axis.
pub proof fn lemma_wrap_fixed(v: int, dim: int)
    requires
        dim > 0,
        0 <= v < dim,
    ensures
        wrap(v, dim) == v,
{
    lemma_small_mod(v as nat, dim as nat);
}

/// How the two toroidal neighbours of an in-range value wrap: one step
/// down from 0 lands on `dim - 1`, one step up from `dim - 1` lands on 0,
/// and every other step stays direct.
pub proof fn lemma_wrap_adjacent(v: int, dim: int)
    requires
        dim > 0,
        0 <= v < dim,
    ensures
        wrap(v, dim) == v,
        wrap(v - 1, dim) == if v == 0 { dim - 1 } else { v - 1 },
        wrap(v + 1, dim) == if v == dim - 1 { 0 } else { v + 1 },
{
    lemma_wrap_fixed(v, dim);
    if v == 0 {
        assert(v - 1 == (-1) * dim + (dim - 1)) by (nonlinear_arith)
            requires
                v == 0,
        ;
        lemma_fundamental_div_mod_converse_mod(v - 1, dim, -1, dim - 1);
    } else {
        assert(v - 1 == 0 * dim + (v - 1)) by (nonlinear_arith);
        lemma_fundamental_div_mod_converse_mod(v - 1, dim, 0, v - 1);
    }
    if v == dim - 1 {
        assert(v + 1 == 1 * dim + 0) by (nonlinear_arith)
            requires
                v == dim - 1,
        ;
        lemma_fundamental_div_mod_converse_mod(v + 1, dim, 1, 0);
    } else {
        assert(v + 1 == 0 * dim + (v + 1)) by (nonlinear_arith);
        lemma_fundamental_div_mod_converse_mod(v + 1, dim, 0, v + 1);
    }
}

/// A direct (row, col) address stays inside the flat cell array.
pub proof fn lemma_flat_index_in_range(w: int, h: int, r: int, c: int)
    requires
        0 <= r < h,
        0 <= c < w,
    ensures
        0 <= r * w + c < w * h,
        r * w <= w * h - w,
{
    assert(0 <= r * w + c < w * h && r * w <= w * h - w) by (nonlinear_arith)
        requires
            0 <= r < h,
            0 <= c < w,
    ;
}

/// Distinct direct addresses have distinct flat indices.
pub proof fn lemma_flat_index_injective(w: int, r1: int, c1: int, r2: int, c2: int)
    requires
        0 <= c1 < w,
        0 <= c2 < w,
        r1 * w + c1 == r2 * w + c2,
    ensures
        r1 == r2,
        c1 == c2,
{
    assert(r1 == r2 && c1 == c2) by (nonlinear_arith)
        requires
            0 <= c1 < w,
            0 <= c2 < w,
            r1 * w + c1 == r2 * w + c2,
    ;
}

/// Whether one of the signed points in `pts`, wrapped toroidally onto a
/// grid of the given dimensions, lands on cell `(r, c)`.
pub open spec fn hits(pts: Seq<(i32, i32)>, height: int, width: int, r: int, c: int) -> bool {
    exists|k: int|
        0 <= k < pts.len() && wrap((#[trigger] pts[k]).0 as int, height) == r && wrap(
            pts[k].1 as int,
            width,
        ) == c
}

/// Taking one more point into account hits exactly the cells hit before,
/// plus the cell the new point wraps onto.
pub proof fn lemma_hits_extend(pts: Seq<(i32, i32)>, n: int, height: int, width: int, r: int, c: int)
    requires
        0 <= n < pts.len(),
    ensures
        hits(pts.take(n + 1), height, width, r, c) <==> (hits(pts.take(n), height, width, r, c)
            || (wrap(pts[n].0 as int, height) == r && wrap(pts[n].1 as int, width) == c)),
{
    if hits(pts.take(n + 1), height, width, r, c) {
        let i = choose|i: int|
            0 <= i < pts.take(n + 1).len() && wrap((#[trigger] pts.take(n + 1)[i]).0 as int, height)
                == r && wrap(pts.take(n + 1)[i].1 as int, width) == c;
        assert(pts.take(n + 1)[i] == pts[i]);
        if i < n {
            assert(pts.take(n)[i] == pts[i]);
            assert(hits(pts.take(n), height, width, r, c));
        }
    }
    if hits(pts.take(n), height, width, r, c) {
        let i = choose|i: int|
            0 <= i < pts.take(n).len() && wrap((#[trigger] pts.take(n)[i]).0 as int, height) == r
                && wrap(pts.take(n)[i].1 as int, width) == c;
        assert(pts.take(n + 1)[i] == pts[i]);
        assert(hits(pts.take(n + 1), height, width, r, c));
    }
    if wrap(pts[n].0 as int, height) == r && wrap(pts[n].1 as int, width) == c {
        assert(pts.take(n + 1)[n] == pts[n]);
        assert(hits(pts.take(n + 1), height, width, r, c));
    }
}

/// Normalizes a signed coordinate onto an axis of positive length `dim` by
/// floored modulo, so that any integer resolves to a valid position.
fn wrap_coord(v: i32, dim: u32) -> (r: u32)
    requires
        dim > 0,
    ensures
        r < dim,
        r as int == wrap(v as int, dim as int),
{
    let d = dim as u64;
    if v >= 0 {
        let m = (v as u64) % d;
        proof {
            lemma_mod_division_less_than_divisor(v as int, dim as int);
        }
        m as u32
    } else {
        let a = (-(v as i64)) as u64;
        let rem = a % d;
        let res: u64 = if rem == 0 {
            0
        } else {
            d - rem
        };
        proof {
            let av = a as int;
            let dv = dim as int;
            lemma_fundamental_div_mod(av, dv);
            let q = av / dv;
            if rem == 0 {
                assert(v as int == (-q) * dv + 0) by (nonlinear_arith)
                    requires
                        av == dv * q + rem as int,
                        rem as int == 0,
                        v as int == -av,
                ;
                lemma_fundamental_div_mod_converse_mod(v as int, dv, -q, 0);
            } else {
                assert(v as int == (-q - 1) * dv + (dv - rem as int)) by (nonlinear_arith)
                    requires
                        av == dv * q + rem as int,
                        v as int == -av,
                ;
                lemma_fundamental_div_mod_converse_mod(v as int, dv, -q - 1, dv - rem as int);
            }
        }
        res as u32
    }
}

/// The five cells of a glider, as signed coordinates around a centre.
pub open spec fn glider_points(row: int, col: int) -> Seq<(i32, i32)> {
    seq![
        (row as i32, col as i32),
        ((row - 1) as i32, (col - 1) as i32),
        (row as i32, (col + 1) as i32),
        ((row + 1) as i32, col as i32),
        ((row + 1) as i32, (col - 1) as i32),
    ]
}

/// The 48 cells of a pulsar, as signed coordinates around a centre.
pub open spec fn pulsar_points(row: int, col: int) -> Seq<(i32, i32)> {
    seq![
        ((row - 6) as i32, (col - 4) as i32),
        ((row - 6) as i32, (col - 3) as i32),
        ((row - 6) as i32, (col - 2) as i32),
        ((row - 6) as i32, (col + 4) as i32),
        ((row - 6) as i32, (col + 3) as i32),
        ((row - 6) as i32, (col + 2) as i32),
        ((row - 4) as i32, (col - 6) as i32),
        ((row - 4) as i32, (col - 1) as i32),
        ((row - 4) as i32, (col + 1) as i32),
        ((row - 4) as i32, (col + 6) as i32),
        ((row - 3) as i32, (col - 6) as i32),
        ((row - 3) as i32, (col - 1) as i32),
        ((row - 3) as i32, (col + 1) as i32),
        ((row - 3) as i32, (col + 6) as i32),
        ((row - 2) as i32, (col - 6) as i32),
        ((row - 2) as i32, (col - 1) as i32),
        ((row - 2) as i32, (col + 1) as i32),
        ((row - 2) as i32, (col + 6) as i32),
        ((row - 1) as i32, (col - 4) as i32),
        ((row - 1) as i32, (col - 3) as i32),
        ((row - 1) as i32, (col - 2) as i32),
        ((row - 1) as i32, (col + 4) as i32),
        ((row - 1) as i32, (col + 3) as i32),
        ((row - 1) as i32, (col + 2) as i32),
        ((row + 1) as i32, (col - 4) as i32),
        ((row + 1) as i32, (col - 3) as i32),
        ((row + 1) as i32, (col - 2) as i32),
        ((row + 1) as i32, (col + 4) as i32),
        ((row + 1) as i32, (col + 3) as i32),
        ((row + 1) as i32, (col + 2) as i32),
        ((row + 2) as i32, (col - 6) as i32),
        ((row + 2) as i32, (col - 1) as i32),
        ((row + 2) as i32, (col + 1) as i32),
        ((row + 2) as i32, (col + 6) as i32),
        ((row + 3) as i32, (col - 6) as i32),
        ((row + 3) as i32, (col - 1) as i32),
        ((row + 3) as i32, (col + 1) as i32),
        ((row + 3) as i32, (col + 6) as i32),
        ((row + 4) as i32, (col - 6) as i32),
        ((row + 4) as i32, (col - 1) as i32),
        ((row + 4) as i32, (col + 1) as i32),
        ((row + 4) as i32, (col + 6) as i32),
        ((row + 6) as i32, (col - 4) as i32),
        ((row + 6) as i32, (col - 3) as i32),
        ((row + 6) as i32, (col - 2) as i32),
        ((row + 6) as i32, (col + 4) as i32),
        ((row + 6) as i32, (col + 3) as i32),
        ((row + 6) as i32, (col + 2) as i32),
    ]
}

/// The copperhead spaceship's 28 cells, at its fixed offset from the
/// grid's top-left corner.
pub open spec fn copperhead_points() -> Seq<(i32, i32)> {
    seq![
        (33i32, 34i32),
        (33i32, 35i32),
        (33i32, 38i32),
        (33i32, 39i32),
        (34i32, 36i32),
        (34i32, 37i32),
        (35i32, 36i32),
        (35i32, 37i32),
        (36i32, 33i32),
        (36i32, 35i32),
        (36i32, 38i32),
        (36i32, 40i32),
        (37i32, 33i32),
        (37i32, 40i32),
        (39i32, 33i32),
        (39i32, 40i32),
        (40i32, 34i32),
        (40i32, 35i32),
        (40i32, 38i32),
        (40i32, 39i32),
        (41i32, 35i32),
        (41i32, 36i32),
        (41i32, 37i32),
        (41i32, 38i32),
        (43i32, 36i32),
        (43i32, 37i32),
        (44i32, 36i32),
        (44i32, 37i32),
    ]
}

/// The symbol a cell renders as.
pub open spec fn symbol(alive: bool) -> char {
    if alive {
        '◼'
    } else {
        '◻'
    }
}

/// The B3/S23 rule for one cell: a live cell survives with two or three
/// live neighbours and otherwise dies (underpopulation below two,
/// overpopulation above three); a dead cell becomes alive with exactly
/// three live neighbours and otherwise stays dead.
pub open spec fn next_cell(alive: bool, live_neighbors: int) -> bool {
    if alive {
        live_neighbors == 2 || live_neighbors == 3
    } else {
        live_neighbors == 3
    }
}

/// One generation: `post` is `pre` with the rule applied to every cell
/// simultaneously, each neighbour count taken against `pre`.
pub open spec fn ticked(pre: Universe, post: Universe) -> bool {
    &&& post.spec_width() == pre.spec_width()
    &&& post.spec_height() == pre.spec_height()
    &&& post@.len() == pre@.len()
    &&& forall|r: int, c: int|
        pre.in_bounds(r, c) ==> #[trigger] post.cell_at(r, c) == next_cell(
            pre.cell_at(r, c),
            pre.neighbor_count(r, c),
        )
}

/// A toroidal grid of cells, each alive or dead, in row-major order.
///
/// The view of a universe is the flat sequence of its cells:
/// `self@[r * width + c]` is cell `(r, c)`.
pub struct Universe {
    width: u32,
    height: u32,
    cells: fixedbitset::FixedBitSet,
}

impl View for Universe {
    type V = Seq<bool>;

    closed spec fn view(&self) -> Seq<bool> {
        bits_of(self.cells)
    }
}

impl Universe {
    /// The grid's width, as a mathematical integer.
    pub closed spec fn spec_width(self) -> int {
        self.width as int
    }

    /// The grid's height, as a mathematical integer.
    pub closed spec fn spec_height(self) -> int {
        self.height as int
    }

    /// Well-formedness: the cell array has one bit per grid position, and
    /// the grid's area fits the flat `u32` indexing arithmetic.
    pub open spec fn wf(self) -> bool {
        &&& 0 <= self.spec_width()
        &&& 0 <= self.spec_height()
        &&& self@.len() == self.spec_width() * self.spec_height()
        &&& self.spec_width() * self.spec_height() <= u32::MAX as int
    }

    /// Whether `(r, c)` addresses a cell directly, without wrapping.
    pub open spec fn in_bounds(self, r: int, c: int) -> bool {
        &&& 0 <= r < self.spec_height()
        &&& 0 <= c < self.spec_width()
    }

    /// The state of cell `(r, c)`: true when alive.
    pub open spec fn cell_at(self, r: int, c: int) -> bool
        recommends
            self.wf(),
            self.in_bounds(r, c),
    {
        self@[r * self.spec_width() + c]
    }

    /// Every cell of the grid is dead.
    pub open spec fn all_dead(self) -> bool {
        forall|k: int| 0 <= k < self@.len() ==> !self@[k]
    }

    /// How many of the eight toroidally adjacent cells of `(r, c)` are
    /// alive. On a degenerate axis a cell can be its own neighbour; the
    /// eight wrapped offsets are counted as the grid stores them.
    pub open spec fn neighbor_count(self, r: int, c: int) -> int
        recommends
            self.wf(),
            self.in_bounds(r, c),
    {
        let h = self.spec_height();
        let w = self.spec_width();
        (if self.cell_at(wrap(r - 1, h), wrap(c - 1, w)) {
            1int
        } else {
            0
        }) + (if self.cell_at(wrap(r - 1, h), c) {
            1int
        } else {
            0
        }) + (if self.cell_at(wrap(r - 1, h), wrap(c + 1, w)) {
            1int
        } else {
            0
        }) + (if self.cell_at(r, wrap(c - 1, w)) {
            1int
        } else {
            0
        }) + (if self.cell_at(r, wrap(c + 1, w)) {
            1int
        } else {
            0
        }) + (if self.cell_at(wrap(r + 1, h), wrap(c - 1, w)) {
            1int
        } else {
            0
        }) + (if self.cell_at(wrap(r + 1, h), c) {
            1int
        } else {
            0
        }) + (if self.cell_at(wrap(r + 1, h), wrap(c + 1, w)) {
            1int
        } else {
            0
        })
    }

    /// One rendered grid row: the symbols of the row's cells in column
    /// order, terminated by a newline.
    pub open spec fn render_row(self, r: int) -> Seq<char>
        recommends
            self.wf(),
            0 <= r < self.spec_height(),
    {
        Seq::new(
            (self.spec_width() + 1) as nat,
            |j: int|
                if j == self.spec_width() {
                    '\n'
                } else {
                    symbol(self.cell_at(r, j))
                },
        )
    }

    /// The first `n` rendered rows, concatenated in row order.
    pub open spec fn render_rows(self, n: int) -> Seq<char>
        decreases n,
    {
        if n <= 0 {
            Seq::empty()
        } else {
            self.render_rows(n - 1) + self.render_row(n - 1)
        }
    }

    /// The whole rendering: every grid row as one symbol per cell,
    /// row-major, each row ended by a newline.
    pub open spec fn render_spec(self) -> Seq<char> {
        self.render_rows(self.spec_height())
    }

    /// A universe of the given dimensions with every cell dead.
    ///
    /// A zero width or height gives a valid, degenerate universe with no
    /// cells.
    pub fn new_empty(width: u32, height: u32) -> (u: Universe)
        requires
            width as int * height as int <= u32::MAX as int,
        ensures
            u.wf(),
            u.spec_width() == width as int,
            u.spec_height() == height as int,
            u.all_dead(),
    {
        proof {
            assert(width as int * height as int >= 0) by (nonlinear_arith);
        }
        let size = (width as usize) * (height as usize);
        let cells = bitset_new(size);
        Universe { width, height, cells }
    }

    /// The grid's width.
    pub fn width(&self) -> (w: u32)
        ensures
            w as int == self.spec_width(),
    {
        self.width
    }

    /// The grid's height.
    pub fn height(&self) -> (h: u32)
        ensures
            h as int == self.spec_height(),
    {
        self.height
    }

    /// A read-only view of the raw bit-per-cell array, row-major, for hosts
    /// that render by direct memory access.
    pub fn get_cells(&self) -> (r: &fixedbitset::FixedBitSet)
        ensures
            bits_of(*r) == self@,
    {
        &self.cells
    }

    /// Renders the whole grid as text: one symbol per cell, row-major, each
    /// row terminated by a newline. A pure read; the universe is unchanged.
    pub fn render(&self) -> (s: String)
        requires
            self.wf(),
        ensures
            s@ == self.render_spec(),
    {
        let mut s = String::new();
        let mut row: u32 = 0;
        while row < self.height
            invariant
                self.wf(),
                row <= self.height,
                s@ == self.render_rows(row as int),
            decreases self.spec_height() - row as int,
        {
            let mut col: u32 = 0;
            while col < self.width
                invariant
                    self.wf(),
                    row < self.height,
                    col <= self.width,
                    s@ == self.render_rows(row as int) + self.render_row(row as int).take(
                        col as int,
                    ),
                decreases self.spec_width() - col as int,
            {
                let ghost prev = s@;
                if self.is_alive(row, col) {
                    s.append("◼");
                } else {
                    s.append("◻");
                }
                proof {
                    reveal_strlit("◼");
                    reveal_strlit("◻");
                    assert(s@ =~= self.render_rows(row as int) + self.render_row(
                        row as int,
                    ).take(col as int + 1));
                }
                col += 1;
            }
            s.append("\n");
            proof {
                reveal_strlit("\n");
                assert(s@ =~= self.render_rows(row as int) + self.render_row(row as int));
                assert(s@ == self.render_rows(row as int + 1));
            }
            row += 1;
        }
        s
    }

    /// The count (0 to 8) of live cells among the eight toroidally adjacent
    /// cells of `(row, col)`, each edge wrapping to the opposite edge.
    pub fn live_neighbor_count(&self, row: u32, col: u32) -> (count: u8)
        requires
            self.wf(),
            self.in_bounds(row as int, col as int),
        ensures
            count as int == self.neighbor_count(row as int, col as int),
    {
        let north = if row == 0 {
            self.height - 1
        } else {
            row - 1
        };
        let south = if row == self.height - 1 {
            0
        } else {
            row + 1
        };
        let west = if col == 0 {
            self.width - 1
        } else {
            col - 1
        };
        let east = if col == self.width - 1 {
            0
        } else {
            col + 1
        };
        proof {
            lemma_wrap_adjacent(row as int, self.spec_height());
            lemma_wrap_adjacent(col as int, self.spec_width());
        }
        let mut count: u8 = 0;
        if self.is_alive(north, west) {
            count += 1;
        }
        if self.is_alive(north, col) {
            count += 1;
        }
        if self.is_alive(north, east) {
            count += 1;
        }
        if self.is_alive(row, west) {
            count += 1;
        }
        if self.is_alive(row, east) {
            count += 1;
        }
        if self.is_alive(south, west) {
            count += 1;
        }
        if self.is_alive(south, col) {
            count += 1;
        }
        if self.is_alive(south, east) {
            count += 1;
        }
        count
    }

    /// Advances the universe by one generation: every cell transitions by
    /// the B3/S23 rule against a snapshot of the current state, so no cell
    /// reads a value already overwritten in the same pass.
    pub fn tick(&mut self)
        requires
            old(self).wf(),
        ensures
            final(self).wf(),
            ticked(*old(self), *final(self)),
    {
        proof {
            assert(self.spec_width() * self.spec_height() >= 0) by (nonlinear_arith);
        }
        let size = (self.width as usize) * (self.height as usize);
        let mut next = bitset_new(size);
        let mut row: u32 = 0;
        while row < self.height
            invariant
                *self == *old(self),
                self.wf(),
                row <= self.height,
                bits_of(next).len() == self@.len(),
                forall|r: int, c: int|
                    self.in_bounds(r, c) && r < row as int ==> #[trigger] bits_of(next)[r
                        * self.spec_width() + c] == next_cell(
                        self.cell_at(r, c),
                        self.neighbor_count(r, c),
                    ),
            decreases self.spec_height() - row as int,
        {
            let mut col: u32 = 0;
            while col < self.width
                invariant
                    *self == *old(self),
                    self.wf(),
                    row < self.height,
                    col <= self.width,
                    bits_of(next).len() == self@.len(),
                    forall|r: int, c: int|
                        self.in_bounds(r, c) && (r < row as int || (r == row as int && c
                            < col as int)) ==> #[trigger] bits_of(next)[r * self.spec_width() + c]
                            == next_cell(self.cell_at(r, c), self.neighbor_count(r, c)),
                decreases self.spec_width() - col as int,
            {
                let live_cnt = self.live_neighbor_count(row, col);
                let alive = self.is_alive(row, col);
                let idx = self.get_index(row, col);
                let state = if alive {
                    live_cnt == 2 || live_cnt == 3
                } else {
                    live_cnt == 3
                };
                let ghost prev = bits_of(next);
                bitset_set(&mut next, idx, state);
                proof {
                    assert forall|r: int, c: int|
                        self.in_bounds(r, c) && (r < row as int || (r == row as int && c < col
                            as int + 1)) implies #[trigger] bits_of(next)[r * self.spec_width() + c]
                        == next_cell(self.cell_at(r, c), self.neighbor_count(r, c)) by {
                        lemma_flat_index_in_range(self.spec_width(), self.spec_height(), r, c);
                        if r == row as int && c == col as int {
                        } else {
                            if r * self.spec_width() + c == idx as int {
                                lemma_flat_index_injective(
                                    self.spec_width(),
                                    r,
                                    c,
                                    row as int,
                                    col as int,
                                );
                            }
                            assert(bits_of(next)[r * self.spec_width() + c] == prev[r
                                * self.spec_width() + c]);
                        }
                    }
                }
                col += 1;
            }
            row += 1;
        }
        self.cells = next;
    }

    /// Flips one cell between alive and dead.
    pub fn toggle_cell(&mut self, row: u32, col: u32)
        requires
            old(self).wf(),
            old(self).in_bounds(row as int, col as int),
        ensures
            final(self).wf(),
            final(self).spec_width() == old(self).spec_width(),
            final(self).spec_height() == old(self).spec_height(),
            final(self)@ == old(self)@.update(
                row as int * old(self).spec_width() + col as int,
                !old(self).cell_at(row as int, col as int),
            ),
    {
        let idx = self.get_index(row, col);
        bitset_toggle(&mut self.cells, idx);
    }

    /// Sets the width of the universe, resetting every cell to dead.
    pub fn set_width(&mut self, width: u32)
        requires
            width as int * old(self).spec_height() <= u32::MAX as int,
        ensures
            final(self).wf(),
            final(self).spec_width() == width as int,
            final(self).spec_height() == old(self).spec_height(),
            final(self).all_dead(),
    {
        proof {
            assert(width as int * self.spec_height() >= 0) by (nonlinear_arith);
        }
        self.width = width;
        self.cells = bitset_new((width as usize) * (self.height as usize));
    }

    /// Sets the height of the universe, resetting every cell to dead.
    pub fn set_height(&mut self, height: u32)
        requires
            old(self).spec_width() * height as int <= u32::MAX as int,
        ensures
            final(self).wf(),
            final(self).spec_width() == old(self).spec_width(),
            final(self).spec_height() == height as int,
            final(self).all_dead(),
    {
        proof {
            assert(self.spec_width() * height as int >= 0) by (nonlinear_arith);
        }
        self.height = height;
        self.cells = bitset_new((self.width as usize) * (height as usize));
    }

    /// Sets every listed cell alive, leaving all other cells as they are.
    /// Each `(row, col)` pair may be any signed coordinates: both axes wrap
    /// toroidally. On a zero-width or zero-height universe there is no cell
    /// to set and the grid is left unchanged.
    pub fn set_cells(&mut self, cells: &[(i32, i32)])
        requires
            old(self).wf(),
        ensures
            final(self).wf(),
            final(self).spec_width() == old(self).spec_width(),
            final(self).spec_height() == old(self).spec_height(),
            old(self).spec_width() == 0 || old(self).spec_height() == 0 ==> final(self)@ == old(
                self,
            )@,
            old(self).spec_width() > 0 && old(self).spec_height() > 0 ==> forall|r: int, c: int|
                old(self).in_bounds(r, c) ==> #[trigger] final(self).cell_at(r, c) == (old(
                    self,
                ).cell_at(r, c) || hits(
                    cells@,
                    old(self).spec_height(),
                    old(self).spec_width(),
                    r,
                    c,
                )),
    {
        if self.width == 0 || self.height == 0 {
            return ;
        }
        let ghost w = self.spec_width();
        let ghost h = self.spec_height();
        let mut k: usize = 0;
        while k < cells.len()
            invariant
                self.wf(),
                self.spec_width() == w,
                self.spec_height() == h,
                w > 0,
                h > 0,
                old(self).wf(),
                old(self).spec_width() == w,
                old(self).spec_height() == h,
                k <= cells@.len(),
                forall|r: int, c: int|
                    old(self).in_bounds(r, c) ==> #[trigger] self.cell_at(r, c) == (old(
                        self,
                    ).cell_at(r, c) || hits(cells@.take(k as int), h, w, r, c)),
            decreases cells@.len() - k as int,
        {
            let (row, col) = cells[k];
            let idx = self.get_index_signed(row, col);
            let ghost prev = *self;
            bitset_set(&mut self.cells, idx, true);
            proof {
                let wr = wrap(row as int, h);
                let wc = wrap(col as int, w);
                assert(cells@[k as int] == (row, col));
                assert forall|r: int, c: int| old(self).in_bounds(r, c) implies #[trigger] self.cell_at(
                    r,
                    c,
                ) == (old(self).cell_at(r, c) || hits(cells@.take(k as int + 1), h, w, r, c)) by {
                    lemma_flat_index_in_range(w, h, r, c);
                    lemma_hits_extend(cells@, k as int, h, w, r, c);
                    if r == wr && c == wc {
                        assert(self.cell_at(r, c));
                    } else {
                        if r * w + c == idx as int {
                            lemma_flat_index_injective(w, r, c, wr, wc);
                        }
                        assert(self.cell_at(r, c) == prev.cell_at(r, c));
                    }
                }
            }
            k += 1;
        }
        proof {
            assert(cells@.take(cells@.len() as int) =~= cells@);
        }
    }

    /// Stamps a glider centred on `(center_row, center_col)`. The shape's
    /// cells wrap toroidally; every other cell keeps its state.
    pub fn draw_glider(&mut self, center_row: u32, center_col: u32)
        requires
            old(self).wf(),
            center_row as int + 1 <= i32::MAX as int,
            center_col as int + 1 <= i32::MAX as int,
        ensures
            final(self).wf(),
            final(self).spec_width() == old(self).spec_width(),
            final(self).spec_height() == old(self).spec_height(),
            old(self).spec_width() == 0 || old(self).spec_height() == 0 ==> final(self)@ == old(
                self,
            )@,
            old(self).spec_width() > 0 && old(self).spec_height() > 0 ==> forall|r: int, c: int|
                old(self).in_bounds(r, c) ==> #[trigger] final(self).cell_at(r, c) == (old(
                    self,
                ).cell_at(r, c) || hits(
                    glider_points(center_row as int, center_col as int),
                    old(self).spec_height(),
                    old(self).spec_width(),
                    r,
                    c,
                )),
    {
        let row = center_row as i32;
        let col = center_col as i32;
        let mut pts: Vec<(i32, i32)> = Vec::new();
        pts.push((row, col));
        pts.push((row - 1, col - 1));
        pts.push((row, col + 1));
        pts.push((row + 1, col));
        pts.push((row + 1, col - 1));
        proof {
            assert(pts@ =~= glider_points(center_row as int, center_col as int));
        }
        self.set_cells(pts.as_slice());
    }

    /// Stamps a pulsar centred on `(center_row, center_col)`. The shape's
    /// cells wrap toroidally; every other cell keeps its state.
    #[verifier::rlimit(60)]
    pub fn draw_pulsar(&mut self, center_row: u32, center_col: u32)
        requires
            old(self).wf(),
            center_row as int + 6 <= i32::MAX as int,
            center_col as int + 6 <= i32::MAX as int,
        ensures
            final(self).wf(),
            final(self).spec_width() == old(self).spec_width(),
            final(self).spec_height() == old(self).spec_height(),
            old(self).spec_width() == 0 || old(self).spec_height() == 0 ==> final(self)@ == old(
                self,
            )@,
            old(self).spec_width() > 0 && old(self).spec_height() > 0 ==> forall|r: int, c: int|
                old(self).in_bounds(r, c) ==> #[trigger] final(self).cell_at(r, c) == (old(
                    self,
                ).cell_at(r, c) || hits(
                    pulsar_points(center_row as int, center_col as int),
                    old(self).spec_height(),
                    old(self).spec_width(),
                    r,
                    c,
                )),
    {
        let row = center_row as i32;
        let col = center_col as i32;
        let mut pts: Vec<(i32, i32)> = Vec::new();
        pts.push((row - 6, col - 4));
        pts.push((row - 6, col - 3));
        pts.push((row - 6, col - 2));
        pts.push((row - 6, col + 4));
        pts.push((row - 6, col + 3));
        pts.push((row - 6, col + 2));
        pts.push((row - 4, col - 6));
        pts.push((row - 4, col - 1));
        pts.push((row - 4, col + 1));
        pts.push((row - 4, col + 6));
        pts.push((row - 3, col - 6));
        pts.push((row - 3, col - 1));
        pts.push((row - 3, col + 1));
        pts.push((row - 3, col + 6));
        pts.push((row - 2, col - 6));
        pts.push((row - 2, col - 1));
        pts.push((row - 2, col + 1));
        pts.push((row - 2, col + 6));
        pts.push((row - 1, col - 4));
        pts.push((row - 1, col - 3));
        pts.push((row - 1, col - 2));
        pts.push((row - 1, col + 4));
        pts.push((row - 1, col + 3));
        pts.push((row - 1, col + 2));
        pts.push((row + 1, col - 4));
        pts.push((row + 1, col - 3));
        pts.push((row + 1, col - 2));
        pts.push((row + 1, col + 4));
        pts.push((row + 1, col + 3));
        pts.push((row + 1, col + 2));
        pts.push((row + 2, col - 6));
        pts.push((row + 2, col - 1));
        pts.push((row + 2, col + 1));
        pts.push((row + 2, col + 6));
        pts.push((row + 3, col - 6));
        pts.push((row + 3, col - 1));
        pts.push((row + 3, col + 1));
        pts.push((row + 3, col + 6));
        pts.push((row + 4, col - 6));
        pts.push((row + 4, col - 1));
        pts.push((row + 4, col + 1));
        pts.push((row + 4, col + 6));
        pts.push((row + 6, col - 4));
        pts.push((row + 6, col - 3));
        pts.push((row + 6, col - 2));
        pts.push((row + 6, col + 4));
        pts.push((row + 6, col + 3));
        pts.push((row + 6, col + 2));
        proof {
            assert(pts@ =~= pulsar_points(center_row as int, center_col as int));
        }
        self.set_cells(pts.as_slice());
    }

    /// A universe with the copperhead spaceship stamped at its fixed offset
    /// from the top-left corner, every other cell dead. The stamp wraps
    /// toroidally, so the shape folds onto itself on grids smaller than its
    /// footprint; a zero-width or zero-height grid has no cells to stamp.
    pub fn new_copperhead(width: u32, height: u32) -> (u: Universe)
        requires
            width as int * height as int <= u32::MAX as int,
        ensures
            u.wf(),
            u.spec_width() == width as int,
            u.spec_height() == height as int,
            width == 0 || height == 0 ==> u.all_dead(),
            width > 0 && height > 0 ==> forall|r: int, c: int|
                u.in_bounds(r, c) ==> #[trigger] u.cell_at(r, c) == hits(
                    copperhead_points(),
                    height as int,
                    width as int,
                    r,
                    c,
                ),
    {
        let mut u = Universe::new_empty(width, height);
        let ghost empty = u;
        let mut pts: Vec<(i32, i32)> = Vec::new();
        pts.push((33, 34));
        pts.push((33, 35));
        pts.push((33, 38));
        pts.push((33, 39));
        pts.push((34, 36));
        pts.push((34, 37));
        pts.push((35, 36));
        pts.push((35, 37));
        pts.push((36, 33));
        pts.push((36, 35));
        pts.push((36, 38));
        pts.push((36, 40));
        pts.push((37, 33));
        pts.push((37, 40));
        pts.push((39, 33));
        pts.push((39, 40));
        pts.push((40, 34));
        pts.push((40, 35));
        pts.push((40, 38));
        pts.push((40, 39));
        pts.push((41, 35));
        pts.push((41, 36));
        pts.push((41, 37));
        pts.push((41, 38));
        pts.push((43, 36));
        pts.push((43, 37));
        pts.push((44, 36));
        pts.push((44, 37));
        proof {
            assert(pts@ =~= copperhead_points());
        }
        u.set_cells(pts.as_slice());
        proof {
            if width > 0 && height > 0 {
                assert forall|r: int, c: int| u.in_bounds(r, c) implies #[trigger] u.cell_at(r, c)
                    == hits(copperhead_points(), height as int, width as int, r, c) by {
                    lemma_flat_index_in_range(width as int, height as int, r, c);
                    assert(!empty.cell_at(r, c));
                }
            }
        }
        u
    }

    /// The flat index of a signed toroidal coordinate: each axis is
    /// normalized by floored modulo before row-major addressing.
    fn get_index_signed(&self, row: i32, col: i32) -> (idx: usize)
        requires
            self.wf(),
            self.spec_width() > 0,
            self.spec_height() > 0,
        ensures
            idx == wrap(row as int, self.spec_height()) * self.spec_width() + wrap(
                col as int,
                self.spec_width(),
            ),
            idx < self@.len(),
    {
        let r = wrap_coord(row, self.height);
        let c = wrap_coord(col, self.width);
        self.get_index(r, c)
    }

    /// The flat, row-major index of an in-bounds cell.
    fn get_index(&self, row: u32, col: u32) -> (idx: usize)
        requires
            self.wf(),
            self.in_bounds(row as int, col as int),
        ensures
            idx == row as int * self.spec_width() + col as int,
            idx < self@.len(),
    {
        proof {
            lemma_flat_index_in_range(
                self.spec_width(),
                self.spec_height(),
                row as int,
                col as int,
            );
        }
        (row * self.width + col) as usize
    }

    /// Whether the in-bounds cell `(row, col)` is alive.
    fn is_alive(&self, row: u32, col: u32) -> (b: bool)
        requires
            self.wf(),
            self.in_bounds(row as int, col as int),
        ensures
            b == self.cell_at(row as int, col as int),
    {
        let idx = self.get_index(row, col);
        bitset_contains(&self.cells, idx)
    }
}

} // verus!
