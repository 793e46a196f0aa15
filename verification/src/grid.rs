//! Sequences produced by visiting a box of voxel coordinates in X-fastest,
//! then Y, then Z order, the order of a dense X/Y/Z voxel array.

use vstd::prelude::*;

verus! {

/// What `cell` yields for `x` in `x0..x_end` at row `y` of layer `z`, in order.
pub open spec fn grid_row<A>(cell: spec_fn(int, int, int) -> Seq<A>, y: int, z: int, x0: int, x_end: int) -> Seq<A>
    decreases x_end - x0,
{
    if x_end <= x0 {
        Seq::empty()
    } else {
        grid_row(cell, y, z, x0, x_end - 1) + cell(x_end - 1, y, z)
    }
}

/// What `cell` yields for rows `y0..y_end` of layer `z`, each row over `x0..x1`.
pub open spec fn grid_layer<A>(cell: spec_fn(int, int, int) -> Seq<A>, z: int, x0: int, x1: int, y0: int, y_end: int) -> Seq<A>
    decreases y_end - y0,
{
    if y_end <= y0 {
        Seq::empty()
    } else {
        grid_layer(cell, z, x0, x1, y0, y_end - 1) + grid_row(cell, y_end - 1, z, x0, x1)
    }
}

/// What `cell` yields over the box `x0..x1` x `y0..y1` x `z0..z_end`, X fastest.
pub open spec fn grid<A>(cell: spec_fn(int, int, int) -> Seq<A>, x0: int, x1: int, y0: int, y1: int, z0: int, z_end: int) -> Seq<A>
    decreases z_end - z0,
{
    if z_end <= z0 {
        Seq::empty()
    } else {
        grid(cell, x0, x1, y0, y1, z0, z_end - 1) + grid_layer(cell, z_end - 1, x0, x1, y0, y1)
    }
}

/// Two cell functions that agree inside the box give the same grid.
pub proof fn lemma_grid_congruent<A>(
    f: spec_fn(int, int, int) -> Seq<A>,
    g: spec_fn(int, int, int) -> Seq<A>,
    x0: int, x1: int, y0: int, y1: int, z0: int, z_end: int,
)
    requires
        forall|x: int, y: int, z: int| x0 <= x < x1 && y0 <= y < y1 && z0 <= z < z_end ==> #[trigger] f(x, y, z) == g(x, y, z),
    ensures
        grid(f, x0, x1, y0, y1, z0, z_end) == grid(g, x0, x1, y0, y1, z0, z_end),
    decreases z_end - z0,
{
    if z_end > z0 {
        lemma_grid_congruent(f, g, x0, x1, y0, y1, z0, z_end - 1);
        lemma_layer_congruent(f, g, z_end - 1, x0, x1, y0, y1);
    }
}

proof fn lemma_layer_congruent<A>(
    f: spec_fn(int, int, int) -> Seq<A>,
    g: spec_fn(int, int, int) -> Seq<A>,
    z: int, x0: int, x1: int, y0: int, y_end: int,
)
    requires
        forall|x: int, y: int| x0 <= x < x1 && y0 <= y < y_end ==> #[trigger] f(x, y, z) == g(x, y, z),
    ensures
        grid_layer(f, z, x0, x1, y0, y_end) == grid_layer(g, z, x0, x1, y0, y_end),
    decreases y_end - y0,
{
    if y_end > y0 {
        lemma_layer_congruent(f, g, z, x0, x1, y0, y_end - 1);
        lemma_row_congruent(f, g, y_end - 1, z, x0, x1);
    }
}

proof fn lemma_row_congruent<A>(
    f: spec_fn(int, int, int) -> Seq<A>,
    g: spec_fn(int, int, int) -> Seq<A>,
    y: int, z: int, x0: int, x_end: int,
)
    requires
        forall|x: int| x0 <= x < x_end ==> #[trigger] f(x, y, z) == g(x, y, z),
    ensures
        grid_row(f, y, z, x0, x_end) == grid_row(g, y, z, x0, x_end),
    decreases x_end - x0,
{
    if x_end > x0 {
        lemma_row_congruent(f, g, y, z, x0, x_end - 1);
    }
}

/// When every cell yields exactly one item, the grid holds one item per
/// coordinate of the box.
pub proof fn lemma_grid_len<A>(cell: spec_fn(int, int, int) -> Seq<A>, x0: int, x1: int, y0: int, y1: int, z0: int, z_end: int)
    requires
        x0 <= x1,
        y0 <= y1,
        z0 <= z_end,
        forall|x: int, y: int, z: int| #[trigger] cell(x, y, z).len() == 1,
    ensures
        grid(cell, x0, x1, y0, y1, z0, z_end).len() == (x1 - x0) * (y1 - y0) * (z_end - z0),
    decreases z_end - z0,
{
    if z_end > z0 {
        lemma_grid_len(cell, x0, x1, y0, y1, z0, z_end - 1);
        lemma_layer_len(cell, z_end - 1, x0, x1, y0, y1);
        assert((x1 - x0) * (y1 - y0) * (z_end - 1 - z0) + (x1 - x0) * (y1 - y0)
            == (x1 - x0) * (y1 - y0) * (z_end - z0)) by (nonlinear_arith);
    } else {
        assert((x1 - x0) * (y1 - y0) * (z_end - z0) == 0) by (nonlinear_arith)
            requires z_end == z0;
    }
}

proof fn lemma_layer_len<A>(cell: spec_fn(int, int, int) -> Seq<A>, z: int, x0: int, x1: int, y0: int, y_end: int)
    requires
        x0 <= x1,
        y0 <= y_end,
        forall|x: int, y: int, z: int| #[trigger] cell(x, y, z).len() == 1,
    ensures
        grid_layer(cell, z, x0, x1, y0, y_end).len() == (x1 - x0) * (y_end - y0),
    decreases y_end - y0,
{
    if y_end > y0 {
        lemma_layer_len(cell, z, x0, x1, y0, y_end - 1);
        lemma_row_len(cell, y_end - 1, z, x0, x1);
        assert((x1 - x0) * (y_end - 1 - y0) + (x1 - x0) == (x1 - x0) * (y_end - y0)) by (nonlinear_arith);
    } else {
        assert((x1 - x0) * (y_end - y0) == 0) by (nonlinear_arith)
            requires y_end == y0;
    }
}

proof fn lemma_row_len<A>(cell: spec_fn(int, int, int) -> Seq<A>, y: int, z: int, x0: int, x_end: int)
    requires
        x0 <= x_end,
        forall|x: int, y: int, z: int| #[trigger] cell(x, y, z).len() == 1,
    ensures
        grid_row(cell, y, z, x0, x_end).len() == x_end - x0,
    decreases x_end - x0,
{
    if x_end > x0 {
        lemma_row_len(cell, y, z, x0, x_end - 1);
    }
}

} // verus!
