use sandsim::grid::Grid;
use sandsim::material::{glyph_as_phenotype, phenotype_as_glyph, Phenotype};
use sandsim::node::{Neighbour, Node};

#[test]
fn new_grid_is_all_empty() {
    let g = Grid::new(4, 3);
    for i in 0..3 {
        for j in 0..4 {
            let n = g.get_node((i, j)).unwrap();
            assert_eq!(n.pheno, Phenotype::Empty);
            assert_eq!(n.future_pheno, None);
            assert_eq!(n.position, (i, j));
            assert!(!n.is_seed);
        }
    }
}

#[test]
fn boundary_get_is_absent() {
    let g = Grid::new(2, 2);
    assert!(g.get_node((2, 0)).is_none());
    assert!(g.get_node((0, 2)).is_none());
    assert!(g.get_node((7, 7)).is_none());
    assert!(g.get_ref_node((2, 0)).is_none());
}

#[test]
fn boundary_set_fails_without_mutation() {
    let mut g = Grid::new(2, 2);
    assert!(!g.set_node((5, 5), Node::new(Phenotype::Sand, (5, 5))));
    assert!(!g.set_seed((0, 9), Node::new(Phenotype::Sand, (0, 9))));
    for i in 0..2 {
        for j in 0..2 {
            assert_eq!(g.get_node((i, j)).unwrap().pheno, Phenotype::Empty);
        }
    }
}

#[test]
fn boundary_get_mut_is_absent() {
    let mut g = Grid::new(2, 2);
    assert!(g.get_mut_ref_node((2, 2)).is_none());
    assert!(g.get_mut_ref_node((1, 1)).is_some());
}

#[test]
fn corner_neighbourhood_has_five_absent() {
    let g = Grid::new(3, 3);
    let nb = g.sample_neighbourhood((0, 0));
    assert!(nb.get(Neighbour::TopLeft).is_none());
    assert!(nb.get(Neighbour::TopMid).is_none());
    assert!(nb.get(Neighbour::TopRight).is_none());
    assert!(nb.get(Neighbour::MidLeft).is_none());
    assert!(nb.get(Neighbour::BotLeft).is_none());
    assert!(nb.get(Neighbour::MidRight).is_some());
    assert!(nb.get(Neighbour::BotMid).is_some());
    assert!(nb.get(Neighbour::BotRight).is_some());
}

#[test]
fn interior_neighbourhood_is_all_present() {
    let g = Grid::new(3, 3);
    let nb = g.sample_neighbourhood((1, 1));
    assert!(nb.get(Neighbour::TopLeft).is_some());
    assert!(nb.get(Neighbour::TopMid).is_some());
    assert!(nb.get(Neighbour::TopRight).is_some());
    assert!(nb.get(Neighbour::MidLeft).is_some());
    assert!(nb.get(Neighbour::MidRight).is_some());
    assert!(nb.get(Neighbour::BotLeft).is_some());
    assert!(nb.get(Neighbour::BotMid).is_some());
    assert!(nb.get(Neighbour::BotRight).is_some());
}

#[test]
fn neighbourhood_reports_positions() {
    let g = Grid::new(3, 3);
    let nb = g.sample_neighbourhood((1, 1));
    assert_eq!(nb.get(Neighbour::TopLeft).as_ref().unwrap().position, (0, 0));
    assert_eq!(nb.get(Neighbour::BotRight).as_ref().unwrap().position, (2, 2));
}

#[test]
fn sand_falls_straight_down() {
    // A 2-row, 3-column grid with Sand at (0, 1).
    let mut g = Grid::new(3, 2);
    assert!(g.set_node((0, 1), Node::new(Phenotype::Sand, (0, 1))));
    g.update();
    assert_eq!(g.get_node((0, 1)).unwrap().pheno, Phenotype::Empty);
    assert_eq!(g.get_node((1, 1)).unwrap().pheno, Phenotype::Sand);
}

#[test]
fn sand_falls_down_right_when_blocked() {
    let mut g = Grid::new(3, 2);
    assert!(g.set_node((0, 1), Node::new(Phenotype::Sand, (0, 1))));
    assert!(g.set_node((1, 1), Node::new(Phenotype::Ceramic, (1, 1))));
    g.update();
    assert_eq!(g.get_node((0, 1)).unwrap().pheno, Phenotype::Empty);
    assert_eq!(g.get_node((1, 2)).unwrap().pheno, Phenotype::Sand);
    assert_eq!(g.get_node((1, 0)).unwrap().pheno, Phenotype::Empty);
    assert_eq!(g.get_node((1, 1)).unwrap().pheno, Phenotype::Ceramic);
}

#[test]
fn sand_falls_down_left_as_last_resort() {
    let mut g = Grid::new(3, 2);
    assert!(g.set_node((0, 1), Node::new(Phenotype::Sand, (0, 1))));
    assert!(g.set_node((1, 1), Node::new(Phenotype::Ceramic, (1, 1))));
    assert!(g.set_node((1, 2), Node::new(Phenotype::Ceramic, (1, 2))));
    g.update();
    assert_eq!(g.get_node((0, 1)).unwrap().pheno, Phenotype::Empty);
    assert_eq!(g.get_node((1, 0)).unwrap().pheno, Phenotype::Sand);
}

#[test]
fn sand_at_bottom_row_stays() {
    let mut g = Grid::new(3, 2);
    assert!(g.set_node((1, 1), Node::new(Phenotype::Sand, (1, 1))));
    g.update();
    assert_eq!(g.get_node((1, 1)).unwrap().pheno, Phenotype::Sand);
}

#[test]
fn blocked_sand_stays() {
    let mut g = Grid::new(3, 2);
    assert!(g.set_node((0, 1), Node::new(Phenotype::Sand, (0, 1))));
    assert!(g.set_node((1, 0), Node::new(Phenotype::Ceramic, (1, 0))));
    assert!(g.set_node((1, 1), Node::new(Phenotype::Ceramic, (1, 1))));
    assert!(g.set_node((1, 2), Node::new(Phenotype::Ceramic, (1, 2))));
    g.update();
    assert_eq!(g.get_node((0, 1)).unwrap().pheno, Phenotype::Sand);
}

#[test]
fn seed_cell_keeps_material_across_steps() {
    let mut g = Grid::new(3, 4);
    assert!(g.set_seed((0, 1), Node::new(Phenotype::Sand, (0, 1))));
    for _ in 0..6 {
        g.update();
        let n = g.get_node((0, 1)).unwrap();
        assert_eq!(n.pheno, Phenotype::Sand);
        assert!(n.is_seed);
    }
}

#[test]
fn seed_cell_acts_as_a_source() {
    let mut g = Grid::new(1, 3);
    assert!(g.set_seed((0, 0), Node::new(Phenotype::Sand, (0, 0))));
    g.update();
    // The grain fell out of the seed cell, which refilled itself; the
    // proposal staged on the seed cell was discarded, then cleared.
    assert_eq!(g.get_node((0, 0)).unwrap().pheno, Phenotype::Sand);
    assert_eq!(g.get_node((0, 0)).unwrap().future_pheno, None);
    assert_eq!(g.get_node((1, 0)).unwrap().pheno, Phenotype::Sand);
    g.update();
    assert_eq!(g.get_node((2, 0)).unwrap().pheno, Phenotype::Sand);
}

#[test]
fn ceramic_and_empty_grid_is_fixed() {
    let mut g = Grid::new(4, 4);
    assert!(g.set_node((2, 1), Node::new(Phenotype::Ceramic, (2, 1))));
    assert!(g.set_node((2, 2), Node::new(Phenotype::Ceramic, (2, 2))));
    assert!(g.set_node((0, 3), Node::new(Phenotype::Ceramic, (0, 3))));
    for _ in 0..5 {
        g.update();
    }
    for i in 0..4 {
        for j in 0..4 {
            let want = if (i, j) == (2, 1) || (i, j) == (2, 2) || (i, j) == (0, 3) {
                Phenotype::Ceramic
            } else {
                Phenotype::Empty
            };
            assert_eq!(g.get_node((i, j)).unwrap().pheno, want);
        }
    }
}

#[test]
fn update_clears_every_staged_proposal() {
    let mut g = Grid::new(2, 2);
    assert!(g.set_node((0, 0), Node::new(Phenotype::Sand, (0, 0))));
    g.update();
    for i in 0..2 {
        for j in 0..2 {
            assert_eq!(g.get_node((i, j)).unwrap().future_pheno, None);
        }
    }
}

#[test]
fn two_grains_converge_on_one_slot() {
    // Both grains choose (1, 1): the left one because straight down is
    // blocked, the right one by falling straight down. The slot is claimed
    // once, so the two grains merge into one.
    let mut g = Grid::new(3, 2);
    assert!(g.set_node((0, 0), Node::new(Phenotype::Sand, (0, 0))));
    assert!(g.set_node((0, 1), Node::new(Phenotype::Sand, (0, 1))));
    assert!(g.set_node((1, 0), Node::new(Phenotype::Ceramic, (1, 0))));
    g.update();
    assert_eq!(g.get_node((0, 0)).unwrap().pheno, Phenotype::Empty);
    assert_eq!(g.get_node((0, 1)).unwrap().pheno, Phenotype::Empty);
    assert_eq!(g.get_node((1, 1)).unwrap().pheno, Phenotype::Sand);
    assert_eq!(g.get_node((1, 2)).unwrap().pheno, Phenotype::Empty);
}

#[test]
fn three_grains_converge_on_one_slot() {
    // All three grains choose (1, 2): the left one slides down-right, the
    // middle one falls straight down, the right one slides down-left. The
    // slot holds one grain afterwards; convergence merges grains.
    let mut g = Grid::new(5, 2);
    assert!(g.set_node((0, 1), Node::new(Phenotype::Sand, (0, 1))));
    assert!(g.set_node((0, 2), Node::new(Phenotype::Sand, (0, 2))));
    assert!(g.set_node((0, 3), Node::new(Phenotype::Sand, (0, 3))));
    assert!(g.set_node((1, 1), Node::new(Phenotype::Ceramic, (1, 1))));
    assert!(g.set_node((1, 3), Node::new(Phenotype::Ceramic, (1, 3))));
    assert!(g.set_node((1, 4), Node::new(Phenotype::Ceramic, (1, 4))));
    g.update();
    assert_eq!(g.get_node((0, 1)).unwrap().pheno, Phenotype::Empty);
    assert_eq!(g.get_node((0, 2)).unwrap().pheno, Phenotype::Empty);
    assert_eq!(g.get_node((0, 3)).unwrap().pheno, Phenotype::Empty);
    assert_eq!(g.get_node((1, 2)).unwrap().pheno, Phenotype::Sand);
    assert_eq!(g.get_node((1, 0)).unwrap().pheno, Phenotype::Empty);
}

#[test]
fn adjacent_grains_fall_together() {
    // Two grains beside each other both fall straight down in one step.
    let mut g = Grid::new(4, 2);
    assert!(g.set_node((0, 1), Node::new(Phenotype::Sand, (0, 1))));
    assert!(g.set_node((0, 2), Node::new(Phenotype::Sand, (0, 2))));
    g.update();
    assert_eq!(g.get_node((1, 1)).unwrap().pheno, Phenotype::Sand);
    assert_eq!(g.get_node((1, 2)).unwrap().pheno, Phenotype::Sand);
    assert_eq!(g.get_node((0, 1)).unwrap().pheno, Phenotype::Empty);
    assert_eq!(g.get_node((0, 2)).unwrap().pheno, Phenotype::Empty);
}

#[test]
fn glyphs_of_materials() {
    assert_eq!(phenotype_as_glyph(&Phenotype::Empty), ' ');
    assert_eq!(phenotype_as_glyph(&Phenotype::Sand), '+');
    assert_eq!(phenotype_as_glyph(&Phenotype::Ceramic), '#');
    assert_eq!(glyph_as_phenotype(' '), Phenotype::Empty);
    assert_eq!(glyph_as_phenotype('+'), Phenotype::Sand);
    assert_eq!(glyph_as_phenotype('#'), Phenotype::Ceramic);
}
