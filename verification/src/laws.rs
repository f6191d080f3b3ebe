//! Global laws of the engine, proved once and for all grids.

use vstd::prelude::*;
use crate::grid::{is_step_of, Grid};
use crate::material::Phenotype;
use crate::rules::{sand_at, sand_dest};

verus! {

/// Sand stasis: a Sand cell whose three downward neighbours are all occupied
/// or absent keeps its material over a step.
pub proof fn lemma_sand_stasis(g2: Grid, g1: Grid, i: int, j: int)
    requires
        is_step_of(g2, g1),
        sand_at(g1, i, j),
        sand_dest(g1, i, j) is None,
    ensures
        g2.mat(i, j) == Phenotype::Sand,
{
}

/// Sand fall: an unlocked Sand cell with an unlocked fall destination (the
/// first Empty cell among straight-down, down-right, down-left) vacates its
/// cell, and the destination holds Sand after the step.
pub proof fn lemma_sand_falls(g2: Grid, g1: Grid, i: int, j: int, d: (int, int))
    requires
        is_step_of(g2, g1),
        sand_at(g1, i, j),
        sand_dest(g1, i, j) == Some(d),
        !g1.cell(i, j).is_seed,
        !g1.cell(d.0, d.1).is_seed,
    ensures
        g2.mat(i, j) == Phenotype::Empty,
        g2.mat(d.0, d.1) == Phenotype::Sand,
{
}

/// Locked cell invariance, one step: a seed cell keeps its material and its
/// seed flag over a step, whatever was proposed for it.
pub proof fn lemma_seed_invariant(g2: Grid, g1: Grid, i: int, j: int)
    requires
        is_step_of(g2, g1),
        g1.in_bounds(i, j),
        g1.cell(i, j).is_seed,
    ensures
        g2.in_bounds(i, j),
        g2.cell(i, j).is_seed,
        g2.mat(i, j) == g1.mat(i, j),
{
}

/// Locked cell invariance: across any chain of steps, a seed cell keeps its
/// material and its seed flag.
pub proof fn lemma_seed_invariant_chain(gs: Seq<Grid>, i: int, j: int)
    requires
        gs.len() >= 1,
        forall|k: int| 0 <= k < gs.len() - 1 ==> is_step_of(#[trigger] gs[k + 1], gs[k]),
        gs[0].in_bounds(i, j),
        gs[0].cell(i, j).is_seed,
    ensures
        gs.last().in_bounds(i, j),
        gs.last().cell(i, j).is_seed,
        gs.last().mat(i, j) == gs[0].mat(i, j),
    decreases gs.len(),
{
    if gs.len() > 1 {
        let front = gs.drop_last();
        assert(forall|k: int|
            0 <= k < front.len() - 1 ==> is_step_of(#[trigger] front[k + 1], front[k]));
        lemma_seed_invariant_chain(front, i, j);
        assert(is_step_of(gs[(gs.len() - 2) + 1], gs[gs.len() - 2]));
        lemma_seed_invariant(gs.last(), front.last(), i, j);
    }
}

/// A grid is at rest when no cell has a staged proposal, as after any step
/// and after every constructor.
pub open spec fn at_rest(g: Grid) -> bool {
    forall|i: int, j: int|
        g.in_bounds(i, j) ==> (#[trigger] g.cell(i, j)).future_pheno is None
}

/// No cell of the grid holds Sand.
pub open spec fn sand_free(g: Grid) -> bool {
    forall|i: int, j: int|
        g.in_bounds(i, j) ==> (#[trigger] g.mat(i, j)) == Phenotype::Empty || g.mat(i, j)
            == Phenotype::Ceramic
}

/// Ceramic/Empty idempotence, one step: a grid at rest that holds only
/// Ceramic and Empty cells is unchanged by a step.
pub proof fn lemma_static_grid_fixed(g2: Grid, g1: Grid)
    requires
        is_step_of(g2, g1),
        sand_free(g1),
        at_rest(g1),
    ensures
        g2.width == g1.width,
        g2.height == g1.height,
        sand_free(g2),
        at_rest(g2),
        forall|i: int, j: int| g1.in_bounds(i, j) ==> #[trigger] g2.cell(i, j) == g1.cell(i, j),
{
    assert forall|i: int, j: int| g1.in_bounds(i, j) implies #[trigger] g2.cell(i, j) == g1.cell(
        i,
        j,
    ) by {
        assert(!sand_at(g1, i, j));
        assert(!sand_at(g1, i - 1, j));
        assert(!sand_at(g1, i - 1, j - 1));
        assert(!sand_at(g1, i - 1, j + 1));
    }
}

/// Ceramic/Empty idempotence: a grid at rest that holds only Ceramic and
/// Empty cells is unchanged by any chain of steps.
pub proof fn lemma_static_grid_fixed_chain(gs: Seq<Grid>)
    requires
        gs.len() >= 1,
        forall|k: int| 0 <= k < gs.len() - 1 ==> is_step_of(#[trigger] gs[k + 1], gs[k]),
        sand_free(gs[0]),
        at_rest(gs[0]),
    ensures
        gs.last().width == gs[0].width,
        gs.last().height == gs[0].height,
        sand_free(gs.last()),
        at_rest(gs.last()),
        forall|i: int, j: int|
            gs[0].in_bounds(i, j) ==> #[trigger] gs.last().cell(i, j) == gs[0].cell(i, j),
    decreases gs.len(),
{
    if gs.len() > 1 {
        let front = gs.drop_last();
        assert(forall|k: int|
            0 <= k < front.len() - 1 ==> is_step_of(#[trigger] front[k + 1], front[k]));
        lemma_static_grid_fixed_chain(front);
        assert(is_step_of(gs[(gs.len() - 2) + 1], gs[gs.len() - 2]));
        lemma_static_grid_fixed(gs.last(), front.last());
    }
}

} // verus!
