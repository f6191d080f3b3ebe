//! One grid location: its current material, its staged proposal, its fixed
//! position and its seed flag.

use vstd::prelude::*;
use crate::grid::Grid;
use crate::material::Phenotype;
use crate::rules::{rule_effect, update_ceramic, update_empty, update_sand};

verus! {

/// A cell of the grid.
///
/// `pheno` is the authoritative material; `future_pheno` stages at most one
/// proposed material per generation and is cleared at every commit;
/// `position` records the cell's own `(row, col)` storage coordinates;
/// a cell with `is_seed` set never commits a proposal.
#[derive(Debug, Clone, Copy)]
pub struct Node {
    pub future_pheno: Option<Phenotype>,
    pub pheno: Phenotype,
    pub position: (usize, usize),
    pub is_seed: bool,
}

impl Node {
    /// A fresh, unlocked cell with no staged proposal.
    pub fn new(pheno: Phenotype, position: (usize, usize)) -> (node: Node)
        ensures
            node == (Node { future_pheno: None, pheno, position, is_seed: false }),
    {
        Node { future_pheno: None, pheno, position, is_seed: false }
    }

    /// Dispatches the material rule for this cell's material, staging its
    /// pending writes on the grid.
    pub fn update(&self, neighbours: &Neighbourhood, grid: &mut Grid)
        requires
            old(grid).wf(),
            old(grid).in_bounds(self.position.0 as int, self.position.1 as int),
            self.pheno == old(grid).mat(self.position.0 as int, self.position.1 as int),
            neighbours.bot_mid == old(grid).sample_spec(
                self.position.0 + 1,
                self.position.1 as int,
            ),
            neighbours.bot_right == old(grid).sample_spec(
                self.position.0 + 1,
                self.position.1 + 1,
            ),
            neighbours.bot_left == old(grid).sample_spec(
                self.position.0 + 1,
                self.position.1 - 1,
            ),
        ensures
            final(grid).wf(),
            rule_effect(*final(grid), *old(grid), self.position.0 as int, self.position.1 as int),
    {
        match self.pheno {
            Phenotype::Empty => update_empty(self, neighbours, grid),
            Phenotype::Sand => update_sand(self, neighbours, grid),
            Phenotype::Ceramic => update_ceramic(self, neighbours, grid),
        }
    }
}

/// The eight compass directions of a Moore neighbourhood.
#[derive(Debug, Clone, Copy, PartialEq, Eq, Structural)]
pub enum Neighbour {
    TopLeft,
    TopMid,
    TopRight,
    MidLeft,
    MidRight,
    BotLeft,
    BotMid,
    BotRight,
}

/// Read-only snapshots of the eight neighbouring cells; `None` where the
/// neighbour would fall outside the grid.
#[derive(Debug, Clone, Copy)]
pub struct Neighbourhood {
    pub top_left: Option<Node>,
    pub top_mid: Option<Node>,
    pub top_right: Option<Node>,
    pub mid_left: Option<Node>,
    pub mid_right: Option<Node>,
    pub bot_left: Option<Node>,
    pub bot_mid: Option<Node>,
    pub bot_right: Option<Node>,
}

impl Neighbourhood {
    /// The snapshot stored for a compass direction.
    pub open spec fn spec_get(self, direction: Neighbour) -> Option<Node> {
        match direction {
            Neighbour::TopLeft => self.top_left,
            Neighbour::TopMid => self.top_mid,
            Neighbour::TopRight => self.top_right,
            Neighbour::MidLeft => self.mid_left,
            Neighbour::MidRight => self.mid_right,
            Neighbour::BotLeft => self.bot_left,
            Neighbour::BotMid => self.bot_mid,
            Neighbour::BotRight => self.bot_right,
        }
    }

    /// Looks up the snapshot for a compass direction.
    pub fn get(&self, direction: Neighbour) -> (snapshot: &Option<Node>)
        ensures
            *snapshot == self.spec_get(direction),
    {
        match direction {
            Neighbour::TopLeft => &self.top_left,
            Neighbour::TopMid => &self.top_mid,
            Neighbour::TopRight => &self.top_right,
            Neighbour::MidLeft => &self.mid_left,
            Neighbour::MidRight => &self.mid_right,
            Neighbour::BotLeft => &self.bot_left,
            Neighbour::BotMid => &self.bot_mid,
            Neighbour::BotRight => &self.bot_right,
        }
    }
}

} // verus!
