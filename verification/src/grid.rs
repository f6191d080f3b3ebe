//! The grid of cells and its bounds-checked accessors.

use vstd::prelude::*;
use crate::material::Phenotype;
use crate::node::{Neighbourhood, Node};
use crate::rules::{rule_effect, same_statics, sand_at, sand_dest};

verus! {

/// A `width x height` field of cells, stored row-major.
///
/// Well-formed grids (`wf`) keep every cell's recorded `position` equal to
/// its storage coordinates; every constructor establishes this and every
/// operation preserves it.
#[derive(Debug)]
pub struct Grid {
    pub width: usize,
    pub height: usize,
    pub map: Vec<Vec<Node>>,
}

/// `g2` differs from `g1` at most in the cell at `(i, j)`, which holds `n`.
pub open spec fn grid_with_cell(g2: Grid, g1: Grid, i: int, j: int, n: Node) -> bool {
    &&& g2.width == g1.width
    &&& g2.height == g1.height
    &&& g2.map@.len() == g1.map@.len()
    &&& forall|a: int| 0 <= a < g1.map@.len() && a != i ==> #[trigger] g2.map@[a] == g1.map@[a]
    &&& (0 <= i < g1.map@.len() ==> g2.map@[i]@ == g1.map@[i]@.update(j, n))
}

impl Grid {
    /// Every cell's recorded position is its storage position, and the
    /// storage really is `width` by `height`.
    pub open spec fn wf(self) -> bool {
        &&& self.map@.len() == self.height
        &&& forall|i: int| 0 <= i < self.height ==> (#[trigger] self.map@[i])@.len() == self.width
        &&& forall|i: int, j: int| self.in_bounds(i, j) ==> (#[trigger] self.map@[i]@[j]).position
            == (i as usize, j as usize)
    }

    pub open spec fn in_bounds(self, i: int, j: int) -> bool {
        0 <= i < self.height && 0 <= j < self.width
    }

    /// The cell stored at `(i, j)`.
    pub open spec fn cell(self, i: int, j: int) -> Node {
        self.map@[i]@[j]
    }

    /// The current material at `(i, j)`.
    pub open spec fn mat(self, i: int, j: int) -> Phenotype {
        self.cell(i, j).pheno
    }

    /// What sampling `(i, j)` yields: the cell if the coordinates are in
    /// bounds, absence otherwise.
    pub open spec fn sample_spec(self, i: int, j: int) -> Option<Node> {
        if self.in_bounds(i, j) {
            Some(self.cell(i, j))
        } else {
            None
        }
    }

    /// An all-Empty grid of the given dimensions.
    pub fn new(width: usize, height: usize) -> (g: Grid)
        ensures
            g.wf(),
            g.width == width,
            g.height == height,
            forall|i: int, j: int| g.in_bounds(i, j) ==> #[trigger] g.cell(i, j) == (Node {
                future_pheno: None,
                pheno: Phenotype::Empty,
                position: (i as usize, j as usize),
                is_seed: false,
            }),
    {
        let mut map: Vec<Vec<Node>> = Vec::new();
        let mut i: usize = 0;
        while i < height
            invariant
                i <= height,
                map@.len() == i,
                forall|a: int| 0 <= a < i ==> (#[trigger] map@[a])@.len() == width,
                forall|a: int, b: int| 0 <= a < i && 0 <= b < width ==> #[trigger] map@[a]@[b]
                    == (Node {
                    future_pheno: None,
                    pheno: Phenotype::Empty,
                    position: (a as usize, b as usize),
                    is_seed: false,
                }),
            decreases height - i,
        {
            let mut row: Vec<Node> = Vec::new();
            let mut j: usize = 0;
            while j < width
                invariant
                    j <= width,
                    row@.len() == j,
                    forall|b: int| 0 <= b < j ==> #[trigger] row@[b] == (Node {
                        future_pheno: None,
                        pheno: Phenotype::Empty,
                        position: (i as usize, b as usize),
                        is_seed: false,
                    }),
                decreases width - j,
            {
                row.push(Node::new(Phenotype::Empty, (i, j)));
                j += 1;
            }
            map.push(row);
            i += 1;
        }
        Grid { width, height, map }
    }

    /// Bounds-checked copy of the cell at `position`; absent out of bounds.
    pub fn get_node(&self, position: (usize, usize)) -> (r: Option<Node>)
        requires
            self.wf(),
        ensures
            r == self.sample_spec(position.0 as int, position.1 as int),
    {
        if position.0 >= self.height || position.1 >= self.width {
            return None;
        }
        Some(self.map[position.0][position.1])
    }

    /// Bounds-checked shared borrow of the cell at `position`.
    pub fn get_ref_node(&self, position: (usize, usize)) -> (r: Option<&Node>)
        requires
            self.wf(),
        ensures
            match r {
                Some(node) => self.in_bounds(position.0 as int, position.1 as int) && *node
                    == self.cell(position.0 as int, position.1 as int),
                None => !self.in_bounds(position.0 as int, position.1 as int),
            },
    {
        if position.0 >= self.height || position.1 >= self.width {
            return None;
        }
        Some(&self.map[position.0][position.1])
    }

    /// Bounds-checked mutable borrow of the cell at `position`; the grid
    /// afterwards differs exactly by what the caller wrote through it.
    pub fn get_mut_ref_node(&mut self, position: (usize, usize)) -> (r: Option<&mut Node>)
        requires
            old(self).wf(),
        ensures
            match r {
                Some(node) => {
                    &&& old(self).in_bounds(position.0 as int, position.1 as int)
                    &&& *node == old(self).cell(position.0 as int, position.1 as int)
                    &&& grid_with_cell(
                        *final(self),
                        *old(self),
                        position.0 as int,
                        position.1 as int,
                        *final(node),
                    )
                },
                None => !old(self).in_bounds(position.0 as int, position.1 as int) && *final(self)
                    == *old(self),
            },
    {
        if position.0 >= self.height || position.1 >= self.width {
            return None;
        }
        let row = &mut self.map[position.0];
        Some(&mut row[position.1])
    }

    /// Overwrites the cell at `position`; fails (without mutating anything)
    /// when `position` is out of bounds.
    pub fn set_node(&mut self, position: (usize, usize), new_node: Node) -> (r: bool)
        requires
            old(self).wf(),
            old(self).in_bounds(position.0 as int, position.1 as int) ==> new_node.position
                == position,
        ensures
            r == old(self).in_bounds(position.0 as int, position.1 as int),
            !r ==> *final(self) == *old(self),
            r ==> grid_with_cell(
                *final(self),
                *old(self),
                position.0 as int,
                position.1 as int,
                new_node,
            ),
            final(self).wf(),
    {
        if position.0 >= self.height || position.1 >= self.width {
            return false;
        }
        let row = &mut self.map[position.0];
        row[position.1] = new_node;
        true
    }

    /// Like `set_node`, but the stored cell is marked as a seed: its material
    /// is exempt from every later commit.
    pub fn set_seed(&mut self, position: (usize, usize), new_seed: Node) -> (r: bool)
        requires
            old(self).wf(),
            old(self).in_bounds(position.0 as int, position.1 as int) ==> new_seed.position
                == position,
        ensures
            r == old(self).in_bounds(position.0 as int, position.1 as int),
            !r ==> *final(self) == *old(self),
            r ==> grid_with_cell(
                *final(self),
                *old(self),
                position.0 as int,
                position.1 as int,
                Node { is_seed: true, ..new_seed },
            ),
            final(self).wf(),
    {
        let mut node = new_seed;
        node.is_seed = true;
        self.set_node(position, node)
    }

    /// Snapshots the eight Moore neighbours of the cell at `position`, as of
    /// the current state of the grid; directions that leave the grid are
    /// absent.
    pub fn sample_neighbourhood(&self, position: (usize, usize)) -> (nb: Neighbourhood)
        requires
            self.wf(),
            self.in_bounds(position.0 as int, position.1 as int),
        ensures
            nb.top_left == self.sample_spec(position.0 - 1, position.1 - 1),
            nb.top_mid == self.sample_spec(position.0 - 1, position.1 as int),
            nb.top_right == self.sample_spec(position.0 - 1, position.1 + 1),
            nb.mid_left == self.sample_spec(position.0 as int, position.1 - 1),
            nb.mid_right == self.sample_spec(position.0 as int, position.1 + 1),
            nb.bot_left == self.sample_spec(position.0 + 1, position.1 - 1),
            nb.bot_mid == self.sample_spec(position.0 + 1, position.1 as int),
            nb.bot_right == self.sample_spec(position.0 + 1, position.1 + 1),
    {
        let (i, j) = position;
        Neighbourhood {
            top_left: if i > 0 && j > 0 {
                self.get_node((i - 1, j - 1))
            } else {
                None
            },
            top_mid: if i > 0 {
                self.get_node((i - 1, j))
            } else {
                None
            },
            top_right: if i > 0 {
                self.get_node((i - 1, j + 1))
            } else {
                None
            },
            mid_left: if j > 0 {
                self.get_node((i, j - 1))
            } else {
                None
            },
            mid_right: self.get_node((i, j + 1)),
            bot_left: if j > 0 {
                self.get_node((i + 1, j - 1))
            } else {
                None
            },
            bot_mid: self.get_node((i + 1, j)),
            bot_right: self.get_node((i + 1, j + 1)),
        }
    }

    /// Advances the grid by one generation: every cell's rule proposes from a
    /// frozen snapshot of the current state, then all proposals are committed
    /// at once (seed cells excepted) and cleared.
    pub fn update(&mut self)
        requires
            old(self).wf(),
        ensures
            final(self).wf(),
            is_step_of(*final(self), *old(self)),
    {
        let ghost g0 = *self;
        // Propose phase: run every cell's rule against the pre-step materials.
        let mut i: usize = 0;
        while i < self.height
            invariant
                self.wf(),
                g0.wf(),
                same_statics(*self, g0),
                i <= g0.height,
                self.width == g0.width,
                self.height == g0.height,
                forall|a: int, b: int|
                    g0.in_bounds(a, b) ==> (#[trigger] self.cell(a, b)).future_pheno
                        == proposed_upto(g0, a, b, i as int, 0),
            decreases g0.height - i,
        {
            let mut j: usize = 0;
            while j < self.width
                invariant
                    self.wf(),
                    g0.wf(),
                    same_statics(*self, g0),
                    i < g0.height,
                    j <= g0.width,
                    self.width == g0.width,
                    self.height == g0.height,
                    forall|a: int, b: int|
                        g0.in_bounds(a, b) ==> (#[trigger] self.cell(a, b)).future_pheno
                            == proposed_upto(g0, a, b, i as int, j as int),
                decreases g0.width - j,
            {
                let ghost pre = *self;
                let nb = self.sample_neighbourhood((i, j));
                let node_opt = self.get_node((i, j));
                if let Some(curr) = node_opt {
                    curr.update(&nb, self);
                    proof {
                        lemma_propose_advance(g0, pre, *self, i as int, j as int);
                    }
                }
                j += 1;
            }
            proof {
                assert forall|a: int, b: int| g0.in_bounds(a, b) implies (#[trigger] self.cell(
                    a,
                    b,
                )).future_pheno == proposed_upto(g0, a, b, i + 1, 0) by {
                    assert(self.cell(a, b).future_pheno == proposed_upto(
                        g0,
                        a,
                        b,
                        i as int,
                        g0.width as int,
                    ));
                }
            }
            i += 1;
        }
        proof {
            assert forall|a: int, b: int| g0.in_bounds(a, b) implies (#[trigger] self.cell(
                a,
                b,
            )).future_pheno == proposed(g0, a, b) by {
                assert(self.cell(a, b).future_pheno == proposed_upto(
                    g0,
                    a,
                    b,
                    g0.height as int,
                    0,
                ));
            }
        }
        // Commit phase: apply each staged proposal (seed cells excepted) and
        // clear every staged proposal.
        let ghost g1 = *self;
        let mut i: usize = 0;
        while i < self.height
            invariant
                self.wf(),
                g1.wf(),
                i <= g1.height,
                self.width == g1.width,
                self.height == g1.height,
                forall|a: int, b: int|
                    g1.in_bounds(a, b) && a < i ==> #[trigger] self.cell(a, b) == committed_cell(
                        g1,
                        a,
                        b,
                    ),
                forall|a: int, b: int|
                    g1.in_bounds(a, b) && a >= i ==> #[trigger] self.cell(a, b) == g1.cell(a, b),
            decreases g1.height - i,
        {
            let mut j: usize = 0;
            while j < self.width
                invariant
                    self.wf(),
                    g1.wf(),
                    i < g1.height,
                    j <= g1.width,
                    self.width == g1.width,
                    self.height == g1.height,
                    forall|a: int, b: int|
                        g1.in_bounds(a, b) && (a < i || (a == i && b < j)) ==> #[trigger] self.cell(
                            a,
                            b,
                        ) == committed_cell(g1, a, b),
                    forall|a: int, b: int|
                        g1.in_bounds(a, b) && (a > i || (a == i && b >= j)) ==> #[trigger] self.cell(
                            a,
                            b,
                        ) == g1.cell(a, b),
                decreases g1.width - j,
            {
                let ghost prev = *self;
                match self.get_mut_ref_node((i, j)) {
                    Some(cell) => {
                        if let Some(p) = cell.future_pheno {
                            if !cell.is_seed {
                                cell.pheno = p;
                            }
                        }
                        cell.future_pheno = None;
                    },
                    None => {},
                }
                proof {
                    assert(self.cell(i as int, j as int) == committed_cell(g1, i as int, j as int));
                    assert forall|a: int, b: int|
                        g1.in_bounds(a, b) && !(a == i && b == j) implies #[trigger] self.cell(a, b)
                        == prev.cell(a, b) by {
                        if a != i {
                            assert(self.map@[a] == prev.map@[a]);
                        } else {
                            assert(self.map@[a]@ == prev.map@[a]@.update(j as int, self.map@[a]@[j as int]));
                        }
                    }
                }
                j += 1;
            }
            i += 1;
        }
        proof {
            lemma_step_assembled(g0, g1, *self);
        }
    }
}

/// Some sand cell in the row above chooses `(i, j)` as its fall destination.
pub open spec fn receives_sand(g: Grid, i: int, j: int) -> bool {
    ||| (sand_at(g, i - 1, j) && sand_dest(g, i - 1, j) == Some((i, j)))
    ||| (sand_at(g, i - 1, j - 1) && sand_dest(g, i - 1, j - 1) == Some((i, j)))
    ||| (sand_at(g, i - 1, j + 1) && sand_dest(g, i - 1, j + 1) == Some((i, j)))
}

/// The staged proposal that a full propose phase leaves on the cell at
/// `(i, j)`: sand cells stage their own move (or stasis), fall destinations
/// are staged Sand, and every other cell keeps whatever was already staged.
pub open spec fn proposed(g: Grid, i: int, j: int) -> Option<Phenotype> {
    if sand_at(g, i, j) {
        if sand_dest(g, i, j) is Some {
            Some(Phenotype::Empty)
        } else {
            Some(Phenotype::Sand)
        }
    } else if receives_sand(g, i, j) {
        Some(Phenotype::Sand)
    } else {
        g.cell(i, j).future_pheno
    }
}

/// The material the cell at `(i, j)` shows after one full step of `g`.
pub open spec fn stepped_mat(g: Grid, i: int, j: int) -> Phenotype {
    let c = g.cell(i, j);
    if c.is_seed {
        c.pheno
    } else {
        match proposed(g, i, j) {
            Some(p) => p,
            None => c.pheno,
        }
    }
}

/// `g2` is the generation after `g1`: per cell, the committed material, a
/// cleared proposal, and an unchanged position and seed flag.
pub open spec fn is_step_of(g2: Grid, g1: Grid) -> bool {
    &&& g2.width == g1.width
    &&& g2.height == g1.height
    &&& g2.map@.len() == g1.map@.len()
    &&& forall|i: int| 0 <= i < g1.map@.len() ==> (#[trigger] g2.map@[i])@.len()
        == g1.map@[i]@.len()
    &&& forall|i: int, j: int|
        g1.in_bounds(i, j) ==> #[trigger] g2.cell(i, j) == (Node {
            future_pheno: None,
            pheno: stepped_mat(g1, i, j),
            position: g1.cell(i, j).position,
            is_seed: g1.cell(i, j).is_seed,
        })
}

/// `(i, j)` comes before the scan position `(ci, cj)` in row-major order.
spec fn scanned(i: int, j: int, ci: int, cj: int) -> bool {
    i < ci || (i == ci && j < cj)
}

/// `receives_sand`, restricted to source cells the scan has already visited.
spec fn receives_sand_upto(g: Grid, i: int, j: int, ci: int, cj: int) -> bool {
    ||| (sand_at(g, i - 1, j) && scanned(i - 1, j, ci, cj) && sand_dest(g, i - 1, j) == Some(
        (i, j),
    ))
    ||| (sand_at(g, i - 1, j - 1) && scanned(i - 1, j - 1, ci, cj) && sand_dest(g, i - 1, j - 1)
        == Some((i, j)))
    ||| (sand_at(g, i - 1, j + 1) && scanned(i - 1, j + 1, ci, cj) && sand_dest(g, i - 1, j + 1)
        == Some((i, j)))
}

/// The staged proposal on `(i, j)` after the scan has run the rules of every
/// cell before `(ci, cj)` on the frozen pre-step grid `g`.
spec fn proposed_upto(g: Grid, i: int, j: int, ci: int, cj: int) -> Option<Phenotype> {
    if sand_at(g, i, j) && scanned(i, j, ci, cj) {
        if sand_dest(g, i, j) is Some {
            Some(Phenotype::Empty)
        } else {
            Some(Phenotype::Sand)
        }
    } else if receives_sand_upto(g, i, j, ci, cj) {
        Some(Phenotype::Sand)
    } else {
        g.cell(i, j).future_pheno
    }
}

/// What the commit phase makes of the cell at `(i, j)`: the staged material
/// (unless the cell is a seed), with the staged proposal cleared.
spec fn committed_cell(g: Grid, i: int, j: int) -> Node {
    let c = g.cell(i, j);
    Node {
        future_pheno: None,
        pheno: if c.is_seed {
            c.pheno
        } else {
            match c.future_pheno {
                Some(p) => p,
                None => c.pheno,
            }
        },
        position: c.position,
        is_seed: c.is_seed,
    }
}

/// Running the rule of cell `(i, j)` on a grid whose staged proposals are
/// those of the scan up to `(i, j)` yields the staged proposals of the scan
/// up to `(i, j + 1)`.
proof fn lemma_propose_advance(g0: Grid, pre: Grid, post: Grid, i: int, j: int)
    requires
        g0.wf(),
        same_statics(pre, g0),
        0 <= i < g0.height,
        0 <= j < g0.width,
        forall|a: int, b: int|
            g0.in_bounds(a, b) ==> (#[trigger] pre.cell(a, b)).future_pheno == proposed_upto(
                g0,
                a,
                b,
                i,
                j,
            ),
        rule_effect(post, pre, i, j),
    ensures
        same_statics(post, g0),
        forall|a: int, b: int|
            g0.in_bounds(a, b) ==> (#[trigger] post.cell(a, b)).future_pheno == proposed_upto(
                g0,
                a,
                b,
                i,
                j + 1,
            ),
{
    assert(sand_at(pre, i, j) == sand_at(g0, i, j));
    assert(sand_dest(pre, i, j) == sand_dest(g0, i, j));
    assert forall|a: int, b: int| g0.in_bounds(a, b) implies (#[trigger] post.cell(
        a,
        b,
    )).future_pheno == proposed_upto(g0, a, b, i, j + 1) by {
        assert(pre.cell(a, b).future_pheno == proposed_upto(g0, a, b, i, j));
    }
}

/// A grid whose staged proposals are those of a full propose phase over
/// `g0`, committed cell by cell, is one generation after `g0`.
proof fn lemma_step_assembled(g0: Grid, g1: Grid, g2: Grid)
    requires
        g0.wf(),
        same_statics(g1, g0),
        forall|a: int, b: int|
            g0.in_bounds(a, b) ==> (#[trigger] g1.cell(a, b)).future_pheno == proposed(g0, a, b),
        g2.width == g1.width,
        g2.height == g1.height,
        g2.wf(),
        forall|a: int, b: int|
            g1.in_bounds(a, b) ==> #[trigger] g2.cell(a, b) == committed_cell(g1, a, b),
    ensures
        is_step_of(g2, g0),
{
    assert forall|a: int, b: int| g0.in_bounds(a, b) implies #[trigger] g2.cell(a, b) == (Node {
        future_pheno: None,
        pheno: stepped_mat(g0, a, b),
        position: g0.cell(a, b).position,
        is_seed: g0.cell(a, b).is_seed,
    }) by {
        assert(g2.cell(a, b) == committed_cell(g1, a, b));
        assert(g1.cell(a, b).future_pheno == proposed(g0, a, b));
        assert(sand_at(g1, a, b) == sand_at(g0, a, b));
    }
}

} // verus!
