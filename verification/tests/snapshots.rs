use sandsim::grid::Grid;
use sandsim::material::Phenotype;
use sandsim::node::Node;
use sandsim::snapshot::{parse_snapshot, render_snapshot, SnapshotError};

#[test]
fn render_writes_dimensions_and_rows() {
    let mut g = Grid::new(3, 2);
    assert!(g.set_node((0, 1), Node::new(Phenotype::Sand, (0, 1))));
    assert!(g.set_node((1, 2), Node::new(Phenotype::Ceramic, (1, 2))));
    let bytes = render_snapshot(&g);
    assert_eq!(bytes, b"3\n2\n + \n  #\n".to_vec());
}

#[test]
fn render_writes_multi_digit_dimensions() {
    let g = Grid::new(12, 10);
    let bytes = render_snapshot(&g);
    assert_eq!(&bytes[0..6], b"12\n10\n");
    assert_eq!(bytes.len(), 6 + 10 * 13);
}

#[test]
fn parse_reads_materials() {
    let bytes = b"3\n2\n+ #\n # \n".to_vec();
    let g = parse_snapshot(&bytes).unwrap();
    assert_eq!(g.width, 3);
    assert_eq!(g.height, 2);
    assert_eq!(g.get_node((0, 0)).unwrap().pheno, Phenotype::Sand);
    assert_eq!(g.get_node((0, 1)).unwrap().pheno, Phenotype::Empty);
    assert_eq!(g.get_node((0, 2)).unwrap().pheno, Phenotype::Ceramic);
    assert_eq!(g.get_node((1, 0)).unwrap().pheno, Phenotype::Empty);
    assert_eq!(g.get_node((1, 1)).unwrap().pheno, Phenotype::Ceramic);
    assert_eq!(g.get_node((1, 2)).unwrap().pheno, Phenotype::Empty);
}

#[test]
fn parse_skips_blank_lines_and_carriage_returns() {
    let bytes = b"\r\n2\r\n2\r\n++\r\n##\r\n".to_vec();
    let g = parse_snapshot(&bytes).unwrap();
    assert_eq!(g.width, 2);
    assert_eq!(g.height, 2);
    assert_eq!(g.get_node((0, 0)).unwrap().pheno, Phenotype::Sand);
    assert_eq!(g.get_node((1, 1)).unwrap().pheno, Phenotype::Ceramic);
}

#[test]
fn parse_tolerates_short_and_missing_rows() {
    // One glyph row of one glyph for a 2x3 grid: the rest is Empty.
    let bytes = b"2\n3\n+\n".to_vec();
    let g = parse_snapshot(&bytes).unwrap();
    assert_eq!(g.width, 2);
    assert_eq!(g.height, 3);
    assert_eq!(g.get_node((0, 0)).unwrap().pheno, Phenotype::Sand);
    assert_eq!(g.get_node((0, 1)).unwrap().pheno, Phenotype::Empty);
    assert_eq!(g.get_node((2, 1)).unwrap().pheno, Phenotype::Empty);
}

#[test]
fn parse_ignores_extra_rows_and_columns() {
    let bytes = b"1\n1\n+#\n##\n".to_vec();
    let g = parse_snapshot(&bytes).unwrap();
    assert_eq!(g.width, 1);
    assert_eq!(g.height, 1);
    assert_eq!(g.get_node((0, 0)).unwrap().pheno, Phenotype::Sand);
    assert!(g.get_node((0, 1)).is_none());
}

#[test]
fn parse_rejects_missing_dimensions() {
    assert_eq!(
        parse_snapshot(&b"".to_vec()).unwrap_err(),
        SnapshotError::MissingDimensions
    );
    assert_eq!(
        parse_snapshot(&b"3\n".to_vec()).unwrap_err(),
        SnapshotError::MissingDimensions
    );
}

#[test]
fn parse_rejects_bad_width() {
    assert_eq!(
        parse_snapshot(&b"x\n2\n".to_vec()).unwrap_err(),
        SnapshotError::InvalidWidth
    );
    assert_eq!(
        parse_snapshot(&b"-3\n2\n".to_vec()).unwrap_err(),
        SnapshotError::InvalidWidth
    );
}

#[test]
fn parse_rejects_bad_height() {
    assert_eq!(
        parse_snapshot(&b"3\n2x\n".to_vec()).unwrap_err(),
        SnapshotError::InvalidHeight
    );
}

#[test]
fn parse_rejects_huge_dimensions() {
    assert_eq!(
        parse_snapshot(&b"99999999999999999999999999\n2\n".to_vec()).unwrap_err(),
        SnapshotError::InvalidWidth
    );
}

#[test]
fn parse_rejects_unknown_glyph() {
    assert_eq!(
        parse_snapshot(&b"2\n2\n+*\n".to_vec()).unwrap_err(),
        SnapshotError::InvalidGlyph
    );
    // Glyphs are checked even past the declared height.
    assert_eq!(
        parse_snapshot(&b"1\n1\n+\n*\n".to_vec()).unwrap_err(),
        SnapshotError::InvalidGlyph
    );
}

#[test]
fn parse_accepts_plus_signed_dimensions() {
    let g = parse_snapshot(&b"+2\n+1\n##\n".to_vec()).unwrap();
    assert_eq!(g.width, 2);
    assert_eq!(g.height, 1);
}

#[test]
fn round_trip_preserves_every_cell() {
    let mut g = Grid::new(5, 4);
    assert!(g.set_node((0, 1), Node::new(Phenotype::Sand, (0, 1))));
    assert!(g.set_node((1, 2), Node::new(Phenotype::Ceramic, (1, 2))));
    assert!(g.set_node((3, 4), Node::new(Phenotype::Sand, (3, 4))));
    assert!(g.set_node((3, 0), Node::new(Phenotype::Ceramic, (3, 0))));
    let bytes = render_snapshot(&g);
    let h = parse_snapshot(&bytes).unwrap();
    assert_eq!(h.width, g.width);
    assert_eq!(h.height, g.height);
    for i in 0..4 {
        for j in 0..5 {
            assert_eq!(
                h.get_node((i, j)).unwrap().pheno,
                g.get_node((i, j)).unwrap().pheno
            );
        }
    }
}

#[test]
fn round_trip_of_empty_grid() {
    let g = Grid::new(0, 3);
    let bytes = render_snapshot(&g);
    let h = parse_snapshot(&bytes).unwrap();
    assert_eq!(h.width, 0);
    assert_eq!(h.height, 3);
}
