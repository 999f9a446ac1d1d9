//! The rule's guarantees, stated over the engine's specification functions
//! and proved once and for all: what one generation does to live and dead
//! cells, that an empty universe stays empty, and the shape of a rendering.

use vstd::prelude::*;
use vstd::arithmetic::div_mod::lemma_fundamental_div_mod;
use vstd::arithmetic::div_mod::lemma_mod_division_less_than_divisor;

use crate::universe::lemma_flat_index_in_range;
use crate::universe::lemma_wrap_range;
use crate::universe::next_cell;
use crate::universe::symbol;
use crate::universe::ticked;
use crate::universe::Universe;

verus! {

/// Underpopulation: a live cell with fewer than two live neighbours is
/// dead after a tick.
pub proof fn lemma_underpopulation(pre: Universe, post: Universe, r: int, c: int)
    requires
        ticked(pre, post),
        pre.in_bounds(r, c),
        pre.cell_at(r, c),
        pre.neighbor_count(r, c) < 2,
    ensures
        !post.cell_at(r, c),
{
}

/// Survival: a live cell with two or three live neighbours is alive after
/// a tick.
pub proof fn lemma_survival(pre: Universe, post: Universe, r: int, c: int)
    requires
        ticked(pre, post),
        pre.in_bounds(r, c),
        pre.cell_at(r, c),
        pre.neighbor_count(r, c) == 2 || pre.neighbor_count(r, c) == 3,
    ensures
        post.cell_at(r, c),
{
}

/// Overpopulation: a live cell with more than three live neighbours is
/// dead after a tick.
pub proof fn lemma_overpopulation(pre: Universe, post: Universe, r: int, c: int)
    requires
        ticked(pre, post),
        pre.in_bounds(r, c),
        pre.cell_at(r, c),
        pre.neighbor_count(r, c) > 3,
    ensures
        !post.cell_at(r, c),
{
}

/// Reproduction: a dead cell is alive after a tick exactly when it has
/// three live neighbours; every other dead cell stays dead.
pub proof fn lemma_reproduction(pre: Universe, post: Universe, r: int, c: int)
    requires
        ticked(pre, post),
        pre.in_bounds(r, c),
        !pre.cell_at(r, c),
    ensures
        post.cell_at(r, c) <==> pre.neighbor_count(r, c) == 3,
{
}

/// An all-dead universe has no live neighbours anywhere.
proof fn lemma_dead_has_no_neighbors(u: Universe, r: int, c: int)
    requires
        u.wf(),
        u.all_dead(),
        u.in_bounds(r, c),
    ensures
        u.neighbor_count(r, c) == 0,
{
    let h = u.spec_height();
    let w = u.spec_width();
    lemma_wrap_range(r - 1, h);
    lemma_wrap_range(r + 1, h);
    lemma_wrap_range(c - 1, w);
    lemma_wrap_range(c + 1, w);
    assert forall|x: int, y: int| 0 <= x < h && 0 <= y < w implies !u.cell_at(x, y) by {
        lemma_flat_index_in_range(w, h, x, y);
    }
}

/// No spontaneous generation: a tick of an all-dead universe, of any size,
/// leaves every cell dead.
pub proof fn lemma_no_spontaneous_generation(pre: Universe, post: Universe)
    requires
        pre.wf(),
        ticked(pre, post),
        pre.all_dead(),
    ensures
        post.all_dead(),
{
    let h = pre.spec_height();
    let w = pre.spec_width();
    assert forall|k: int| 0 <= k < post@.len() implies !post@[k] by {
        assert(w > 0 && h > 0) by (nonlinear_arith)
            requires
                0 <= k < w * h,
                w >= 0,
                h >= 0,
        ;
        lemma_fundamental_div_mod(k, w);
        lemma_mod_division_less_than_divisor(k, w);
        let r = k / w;
        let c = k % w;
        assert(0 <= r < h && r * w + c == k) by (nonlinear_arith)
            requires
                k == w * r + c,
                0 <= c < w,
                0 <= k < w * h,
                w > 0,
                h > 0,
        ;
        lemma_flat_index_in_range(w, h, r, c);
        lemma_dead_has_no_neighbors(pre, r, c);
        assert(post.cell_at(r, c) == next_cell(pre.cell_at(r, c), pre.neighbor_count(r, c)));
        assert(!post.cell_at(r, c));
    }
}

/// The length of the first `n` rendered rows.
proof fn lemma_render_rows_len(u: Universe, n: int)
    requires
        u.wf(),
        0 <= n,
    ensures
        u.render_rows(n).len() == n * (u.spec_width() + 1),
    decreases n,
{
    if n == 0 {
        assert(0 * (u.spec_width() + 1) == 0) by (nonlinear_arith);
    } else {
        lemma_render_rows_len(u, n - 1);
        assert((n - 1) * (u.spec_width() + 1) + (u.spec_width() + 1) == n * (u.spec_width() + 1))
            by (nonlinear_arith);
    }
}

/// Row `i` of the first `n` rendered rows is the rendering of grid row `i`.
proof fn lemma_render_rows_slice(u: Universe, n: int, i: int)
    requires
        u.wf(),
        0 <= i < n,
    ensures
        u.render_rows(n).len() == n * (u.spec_width() + 1),
        u.render_rows(n).subrange(
            i * (u.spec_width() + 1),
            (i + 1) * (u.spec_width() + 1),
        ) == u.render_row(i),
    decreases n,
{
    let rw = u.spec_width() + 1;
    lemma_render_rows_len(u, n);
    lemma_render_rows_len(u, n - 1);
    if i == n - 1 {
        assert(u.render_rows(n).subrange(i * rw, (i + 1) * rw) =~= u.render_row(i));
    } else {
        lemma_render_rows_slice(u, n - 1, i);
        assert((i + 1) * rw <= (n - 1) * rw) by (nonlinear_arith)
            requires
                i + 1 <= n - 1,
                rw > 0,
        ;
        assert(0 <= i * rw) by (nonlinear_arith)
            requires
                0 <= i,
                rw > 0,
        ;
        assert(i * rw + rw == (i + 1) * rw) by (nonlinear_arith);
        assert(u.render_rows(n).subrange(i * rw, (i + 1) * rw) =~= u.render_rows(n - 1).subrange(
            i * rw,
            (i + 1) * rw,
        ));
    }
}

/// The shape of a rendering: there are exactly `height` rows; row `i` is
/// the `width` cell symbols of grid row `i`, none of which is a newline,
/// followed by one terminating newline.
pub proof fn lemma_render_shape(u: Universe, i: int)
    requires
        u.wf(),
        0 <= i < u.spec_height(),
    ensures
        u.render_spec().len() == u.spec_height() * (u.spec_width() + 1),
        u.render_spec().subrange(
            i * (u.spec_width() + 1),
            (i + 1) * (u.spec_width() + 1),
        ) == u.render_row(i),
        u.render_row(i).len() == u.spec_width() + 1,
        u.render_row(i)[u.spec_width()] == '\n',
        forall|j: int|
            0 <= j < u.spec_width() ==> #[trigger] u.render_row(i)[j] == symbol(u.cell_at(i, j))
                && u.render_row(i)[j] != '\n',
{
    lemma_render_rows_slice(u, u.spec_height(), i);
}

} // verus!
