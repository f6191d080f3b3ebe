//! The material rule table: per material, what a cell proposes for the next
//! generation, written as staged `future_pheno` values.

use vstd::prelude::*;
use crate::grid::Grid;
use crate::material::Phenotype;
use crate::node::{Neighbourhood, Node};

verus! {

/// The cell at `(i, j)` exists and holds Sand.
pub open spec fn sand_at(g: Grid, i: int, j: int) -> bool {
    g.in_bounds(i, j) && g.mat(i, j) == Phenotype::Sand
}

/// The cell at `(i, j)` exists and holds Empty.
pub open spec fn empty_at(g: Grid, i: int, j: int) -> bool {
    g.in_bounds(i, j) && g.mat(i, j) == Phenotype::Empty
}

/// Where sand standing at `(i, j)` falls: the first Empty cell among
/// straight-down, down-right, down-left, in that fixed priority order;
/// `None` when none of the three is an existing Empty cell.
pub open spec fn sand_dest(g: Grid, i: int, j: int) -> Option<(int, int)> {
    if empty_at(g, i + 1, j) {
        Some((i + 1, j))
    } else if empty_at(g, i + 1, j + 1) {
        Some((i + 1, j + 1))
    } else if empty_at(g, i + 1, j - 1) {
        Some((i + 1, j - 1))
    } else {
        None
    }
}

/// Same dimensions and, cell for cell, the same material, position and seed
/// flag; only staged proposals may differ.
pub open spec fn same_statics(g2: Grid, g1: Grid) -> bool {
    &&& g2.width == g1.width
    &&& g2.height == g1.height
    &&& g2.map@.len() == g1.map@.len()
    &&& forall|i: int| 0 <= i < g1.map@.len() ==> (#[trigger] g2.map@[i])@.len()
        == g1.map@[i]@.len()
    &&& forall|i: int, j: int|
        g1.in_bounds(i, j) ==> {
            let c1 = g1.cell(i, j);
            let c2 = #[trigger] g2.cell(i, j);
            c2.pheno == c1.pheno && c2.position == c1.position && c2.is_seed == c1.is_seed
        }
}

/// `g2` is `g1` with exactly the pending writes of the material rule for the
/// cell at `(i, j)` applied: falling sand stages Empty on itself and Sand on
/// its destination, blocked sand stages Sand on itself, and the other
/// materials stage nothing.
pub open spec fn rule_effect(g2: Grid, g1: Grid, i: int, j: int) -> bool {
    &&& same_statics(g2, g1)
    &&& if sand_at(g1, i, j) {
        match sand_dest(g1, i, j) {
            Some(d) => {
                &&& g2.cell(i, j).future_pheno == Some(Phenotype::Empty)
                &&& g2.cell(d.0, d.1).future_pheno == Some(Phenotype::Sand)
                &&& forall|a: int, b: int|
                    g1.in_bounds(a, b) && !(a == i && b == j) && !(a == d.0 && b == d.1)
                        ==> (#[trigger] g2.cell(a, b)).future_pheno == g1.cell(a, b).future_pheno
            },
            None => {
                &&& g2.cell(i, j).future_pheno == Some(Phenotype::Sand)
                &&& forall|a: int, b: int|
                    g1.in_bounds(a, b) && !(a == i && b == j) ==> (#[trigger] g2.cell(
                        a,
                        b,
                    )).future_pheno == g1.cell(a, b).future_pheno
            },
        }
    } else {
        forall|a: int, b: int|
            g1.in_bounds(a, b) ==> (#[trigger] g2.cell(a, b)).future_pheno == g1.cell(
                a,
                b,
            ).future_pheno
    }
}

/// Rule for Empty cells: they never propose anything.
pub fn update_empty(_node: &Node, _neighbours: &Neighbourhood, _grid: &mut Grid)
    ensures
        *final(_grid) == *old(_grid),
{
}

/// Rule for Ceramic cells: permanently static, they never propose anything.
pub fn update_ceramic(_node: &Node, _neighbours: &Neighbourhood, _grid: &mut Grid)
    ensures
        *final(_grid) == *old(_grid),
{
}

/// Rule for Sand cells: fall into the first Empty cell among straight-down,
/// down-right, down-left; stage Sand on the own cell when blocked.
pub fn update_sand(node: &Node, neighbours: &Neighbourhood, grid: &mut Grid)
    requires
        old(grid).wf(),
        old(grid).in_bounds(node.position.0 as int, node.position.1 as int),
        node.pheno == old(grid).mat(node.position.0 as int, node.position.1 as int),
        node.pheno == Phenotype::Sand,
        neighbours.bot_mid == old(grid).sample_spec(node.position.0 + 1, node.position.1 as int),
        neighbours.bot_right == old(grid).sample_spec(node.position.0 + 1, node.position.1 + 1),
        neighbours.bot_left == old(grid).sample_spec(node.position.0 + 1, node.position.1 - 1),
    ensures
        final(grid).wf(),
        rule_effect(*final(grid), *old(grid), node.position.0 as int, node.position.1 as int),
{
    if let Some(target) = &neighbours.bot_mid {
        if target.pheno == Phenotype::Empty {
            fall_to(node, target, grid);
            return ;
        }
    }
    if let Some(target) = &neighbours.bot_right {
        if target.pheno == Phenotype::Empty {
            fall_to(node, target, grid);
            return ;
        }
    }
    if let Some(target) = &neighbours.bot_left {
        if target.pheno == Phenotype::Empty {
            fall_to(node, target, grid);
            return ;
        }
    }
    match grid.get_mut_ref_node(node.position) {
        Some(cell) => {
            cell.future_pheno = Some(node.pheno);
        },
        None => {},
    }
}

/// Stages the displacement of one grain: Empty on the vacated cell, Sand on
/// the destination.
fn fall_to(node: &Node, target: &Node, grid: &mut Grid)
    requires
        old(grid).wf(),
        old(grid).in_bounds(node.position.0 as int, node.position.1 as int),
        old(grid).in_bounds(target.position.0 as int, target.position.1 as int),
        node.position != target.position,
        *target == old(grid).cell(target.position.0 as int, target.position.1 as int),
    ensures
        final(grid).wf(),
        same_statics(*final(grid), *old(grid)),
        final(grid).cell(node.position.0 as int, node.position.1 as int).future_pheno == Some(
            Phenotype::Empty,
        ),
        final(grid).cell(target.position.0 as int, target.position.1 as int).future_pheno == Some(
            Phenotype::Sand,
        ),
        forall|a: int, b: int|
            old(grid).in_bounds(a, b) && !(a == node.position.0 as int && b == node.position.1
                as int) && !(a == target.position.0 as int && b == target.position.1 as int)
                ==> (#[trigger] final(grid).cell(a, b)).future_pheno == old(grid).cell(
                a,
                b,
            ).future_pheno,
{
    match grid.get_mut_ref_node(node.position) {
        Some(cell) => {
            cell.future_pheno = Some(Phenotype::Empty);
        },
        None => {},
    }
    match grid.get_mut_ref_node(target.position) {
        Some(cell) => {
            cell.future_pheno = Some(Phenotype::Sand);
        },
        None => {},
    }
}

} // verus!
