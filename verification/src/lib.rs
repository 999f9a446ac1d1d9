//! Conway's Game of Life on a fixed-size toroidal grid.
//!
//! The [`Universe`] type holds a dense bit-per-cell grid together with the
//! classic B3/S23 transition rule, toroidal (wrap-around) indexing, and
//! pattern-stamping operations. A rendering host drives it from outside:
//! it constructs a universe, advances it with `tick`, and reads the state
//! back through `render` or the raw cell view.

use vstd::prelude::*;

pub mod bitset;
pub mod laws;
pub mod universe;

pub use universe::Universe;

verus! {

/// Floored (Euclidean) modulo: the unique representative of `v` in
/// `[0, dim)` when `dim > 0`. This is the normalization that toroidal
/// indexing applies to each axis.
pub open spec fn wrap(v: int, dim: int) -> int
    recommends
        dim > 0,
{
    v % dim
}

} // verus!
