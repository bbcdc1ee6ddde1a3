use vstd::arithmetic::div_mod::{lemma_fundamental_div_mod, lemma_fundamental_div_mod_converse};
use vstd::prelude::*;

verus! {

/// The cell that sample `k` of an area light falls in when each row of its
/// grid has `u_steps` cells: `(u, v)`, column then row.
pub open spec fn cell_of(u_steps: u32, k: int) -> (u32, u32) {
    ((k % (u_steps as int)) as u32, (k / (u_steps as int)) as u32)
}

/// The cells of a `u_steps` by `v_steps` area light, in the order they are
/// sampled: row by row, and along each row from the first column.
pub open spec fn grid_cells(u_steps: u32, v_steps: u32) -> Seq<(u32, u32)> {
    Seq::new((u_steps * v_steps) as nat, |k: int| cell_of(u_steps, k))
}

/// The cells that an area light of `u_steps` by `v_steps` cells samples, in
/// order: for each row `v`, the cells `(0, v)` to `(u_steps - 1, v)`. Their
/// number, `u_steps * v_steps`, is the light's sample count and must fit in
/// a `u32`.
pub fn sample_cells(u_steps: u32, v_steps: u32) -> (r: Vec<(u32, u32)>)
    requires
        u_steps * v_steps <= u32::MAX,
    ensures
        r@ == grid_cells(u_steps, v_steps),
{
    let mut cells: Vec<(u32, u32)> = Vec::new();
    let mut v: u32 = 0;
    while v < v_steps
        invariant
            v <= v_steps,
            cells@.len() == v * u_steps,
            forall|k: int| 0 <= k < cells@.len() ==> #[trigger] cells@[k] == cell_of(u_steps, k),
        decreases v_steps - v,
    {
        let mut u: u32 = 0;
        while u < u_steps
            invariant
                u <= u_steps,
                v < v_steps,
                cells@.len() == v * u_steps + u,
                forall|k: int|
                    0 <= k < cells@.len() ==> #[trigger] cells@[k] == cell_of(u_steps, k),
            decreases u_steps - u,
        {
            proof {
                lemma_fundamental_div_mod_converse(
                    v * u_steps + u,
                    u_steps as int,
                    v as int,
                    u as int,
                );
            }
            cells.push((u, v));
            u = u + 1;
        }
        assert((v + 1) * u_steps == v * u_steps + u_steps) by (nonlinear_arith);
        v = v + 1;
    }
    assert(v_steps * u_steps == u_steps * v_steps) by (nonlinear_arith);
    assert(cells@ =~= grid_cells(u_steps, v_steps));
    cells
}

/// An area light samples every cell of its grid exactly once: cell `(u, v)`
/// is sample `v * u_steps + u`, and no cell is sampled twice.
pub proof fn lemma_every_cell_sampled_once(u_steps: u32, v_steps: u32, u: u32, v: u32)
    requires
        u < u_steps,
        v < v_steps,
    ensures
        0 <= v * u_steps + u < grid_cells(u_steps, v_steps).len(),
        grid_cells(u_steps, v_steps)[v * u_steps + u] == (u, v),
        grid_cells(u_steps, v_steps).no_duplicates(),
{
    let cells = grid_cells(u_steps, v_steps);
    lemma_fundamental_div_mod_converse(v * u_steps + u, u_steps as int, v as int, u as int);
    assert(v * u_steps + u < u_steps * v_steps) by (nonlinear_arith)
        requires
            u < u_steps,
            v < v_steps,
    ;
    assert forall|i: int, j: int| 0 <= i < cells.len() && 0 <= j < cells.len() && i != j implies cells[i]
        != cells[j] by {
        lemma_fundamental_div_mod(i, u_steps as int);
        lemma_fundamental_div_mod(j, u_steps as int);
        lemma_cell_in_range(u_steps, v_steps, i);
        lemma_cell_in_range(u_steps, v_steps, j);
    }
}

proof fn lemma_cell_in_range(u_steps: u32, v_steps: u32, k: int)
    requires
        0 <= k < u_steps * v_steps,
    ensures
        0 <= k % (u_steps as int) < u_steps,
        0 <= k / (u_steps as int) < v_steps,
{
    assert(0 <= k % (u_steps as int) < u_steps && 0 <= k / (u_steps as int) < v_steps)
        by (nonlinear_arith)
        requires
            0 <= k < u_steps * v_steps,
            u_steps >= 0,
            v_steps >= 0,
    ;
}

} // verus!
