//! The textual snapshot format: a width line, a height line, then one glyph
//! row per grid row. Parsing and rendering are exact inverses, which
//! `lemma_snapshot_round_trip` states.

use vstd::prelude::*;
use crate::grid::Grid;
use crate::material::{glyph_byte, glyph_material, is_glyph, lemma_glyph_round_trip, Phenotype};
use crate::node::Node;

verus! {

/// Why a snapshot was rejected.
#[derive(Debug, Clone, Copy, PartialEq, Eq, Structural)]
pub enum SnapshotError {
    /// Fewer than two nonempty lines, so no width and height to read.
    MissingDimensions,
    /// The first nonempty line is not an unsigned decimal number.
    InvalidWidth,
    /// The second nonempty line is not an unsigned decimal number.
    InvalidHeight,
    /// A glyph line holds a byte that stands for no material.
    InvalidGlyph,
}

/// A line separator byte of the format: line feed or carriage return.
pub open spec fn is_sep(b: u8) -> bool {
    b == 10 || b == 13
}

/// The segments of `s` between separator bytes, empty segments included;
/// always at least one segment.
pub open spec fn raw_lines(s: Seq<u8>) -> Seq<Seq<u8>>
    decreases s.len(),
{
    if s.len() == 0 {
        seq![Seq::<u8>::empty()]
    } else if is_sep(s[0]) {
        seq![Seq::<u8>::empty()] + raw_lines(s.skip(1))
    } else {
        let rest = raw_lines(s.skip(1));
        rest.update(0, seq![s[0]] + rest[0])
    }
}

/// The subsequence of nonempty segments.
pub open spec fn keep_nonempty(ls: Seq<Seq<u8>>) -> Seq<Seq<u8>>
    decreases ls.len(),
{
    if ls.len() == 0 {
        Seq::<Seq<u8>>::empty()
    } else if ls[0].len() > 0 {
        seq![ls[0]] + keep_nonempty(ls.skip(1))
    } else {
        keep_nonempty(ls.skip(1))
    }
}

/// The nonempty lines of a snapshot, in order.
pub open spec fn snapshot_lines(s: Seq<u8>) -> Seq<Seq<u8>> {
    keep_nonempty(raw_lines(s))
}

pub open spec fn is_digit(b: u8) -> bool {
    48 <= b <= 57
}

/// The digits of a decimal literal, with one optional leading plus sign
/// stripped.
pub open spec fn literal_digits(s: Seq<u8>) -> Seq<u8> {
    if s.len() > 0 && s[0] == 43 {
        s.skip(1)
    } else {
        s
    }
}

/// The value of a digit string, most significant digit first.
pub open spec fn digits_val(s: Seq<u8>) -> nat
    decreases s.len(),
{
    if s.len() == 0 {
        0
    } else {
        (digits_val(s.drop_last()) * 10 + (s.last() - 48)) as nat
    }
}

/// What `usize` parsing makes of a line: the value of its digits, provided
/// the line is one optional plus sign followed by at least one digit and the
/// value fits.
pub open spec fn parse_usize_spec(s: Seq<u8>) -> Option<usize> {
    let digs = literal_digits(s);
    if digs.len() > 0 && (forall|i: int| 0 <= i < digs.len() ==> is_digit(#[trigger] digs[i]))
        && digits_val(digs) <= usize::MAX {
        Some(digits_val(digs) as usize)
    } else {
        None
    }
}

/// The decimal digit string of `n`, most significant digit first.
pub open spec fn dec_digits(n: nat) -> Seq<u8>
    decreases n,
{
    if n < 10 {
        seq![(n + 48) as u8]
    } else {
        dec_digits(n / 10).push((n % 10 + 48) as u8)
    }
}

/// `ls.update(0, x + ls[0])`: the first segment of `ls` with `x` prepended.
spec fn prepend_first(x: Seq<u8>, ls: Seq<Seq<u8>>) -> Seq<Seq<u8>> {
    ls.update(0, x + ls[0])
}

/// The views of a vector of byte lines.
spec fn line_views(ls: Seq<Vec<u8>>) -> Seq<Seq<u8>> {
    ls.map_values(|l: Vec<u8>| l@)
}

proof fn lemma_raw_lines_len(s: Seq<u8>)
    ensures
        raw_lines(s).len() >= 1,
    decreases s.len(),
{
    if s.len() > 0 {
        lemma_raw_lines_len(s.skip(1));
    }
}

proof fn lemma_keep_nonempty_add(a: Seq<Seq<u8>>, b: Seq<Seq<u8>>)
    ensures
        keep_nonempty(a + b) == keep_nonempty(a) + keep_nonempty(b),
    decreases a.len(),
{
    if a.len() == 0 {
        assert(a + b =~= b);
        assert(keep_nonempty(a) + keep_nonempty(b) =~= keep_nonempty(b));
    } else {
        assert((a + b).skip(1) =~= a.skip(1) + b);
        lemma_keep_nonempty_add(a.skip(1), b);
        if a[0].len() > 0 {
            assert((a + b)[0] == a[0]);
            assert(seq![a[0]] + (keep_nonempty(a.skip(1)) + keep_nonempty(b)) =~= (seq![a[0]]
                + keep_nonempty(a.skip(1))) + keep_nonempty(b));
        }
    }
}

/// `keep_nonempty` of a single segment: the segment when it is nonempty,
/// nothing when it is empty.
proof fn lemma_keep_nonempty_single(l: Seq<u8>)
    ensures
        keep_nonempty(seq![l]) == if l.len() > 0 {
            seq![l]
        } else {
            Seq::<Seq<u8>>::empty()
        },
{
    assert(seq![l].skip(1) =~= Seq::<Seq<u8>>::empty());
    assert(keep_nonempty(seq![l].skip(1)) == Seq::<Seq<u8>>::empty());
    if l.len() > 0 {
        assert(seq![l] + Seq::<Seq<u8>>::empty() =~= seq![l]);
    }
}

/// Prepending nothing to the first segment changes nothing.
proof fn lemma_prepend_empty(ls: Seq<Seq<u8>>)
    requires
        ls.len() >= 1,
    ensures
        prepend_first(Seq::<u8>::empty(), ls) == ls,
{
    assert(Seq::<u8>::empty() + ls[0] =~= ls[0]);
    assert(ls.update(0, ls[0]) =~= ls);
}

proof fn lemma_line_views_push(ls: Seq<Vec<u8>>, v: Vec<u8>)
    ensures
        line_views(ls.push(v)) == line_views(ls).push(v@),
{
    assert(line_views(ls.push(v)) =~= line_views(ls).push(v@));
}

/// Splits a snapshot into its nonempty lines.
fn split_lines(bytes: &Vec<u8>) -> (lines: Vec<Vec<u8>>)
    ensures
        line_views(lines@) == snapshot_lines(bytes@),
{
    let mut lines: Vec<Vec<u8>> = Vec::new();
    let mut cur: Vec<u8> = Vec::new();
    let ghost mut done: Seq<Seq<u8>> = Seq::empty();
    proof {
        assert(bytes@.skip(0) =~= bytes@);
        lemma_raw_lines_len(bytes@);
        lemma_prepend_empty(raw_lines(bytes@));
        assert(done + raw_lines(bytes@) =~= raw_lines(bytes@));
    }
    let mut k: usize = 0;
    while k < bytes.len()
        invariant
            k <= bytes@.len(),
            raw_lines(bytes@) == done + prepend_first(cur@, raw_lines(bytes@.skip(k as int))),
            line_views(lines@) == keep_nonempty(done),
        decreases bytes@.len() - k,
    {
        let b = bytes[k];
        let ghost rest = raw_lines(bytes@.skip(k as int + 1));
        proof {
            assert(bytes@.skip(k as int).skip(1) =~= bytes@.skip(k as int + 1));
            lemma_raw_lines_len(bytes@.skip(k as int + 1));
        }
        if b == 10 || b == 13 {
            let ghost curv = cur@;
            let ghost prev_done = done;
            proof {
                assert(raw_lines(bytes@.skip(k as int)) == seq![Seq::<u8>::empty()] + rest);
                assert(curv + Seq::<u8>::empty() =~= curv);
                assert(prepend_first(curv, seq![Seq::<u8>::empty()] + rest) =~= seq![curv] + rest);
                assert(done + (seq![curv] + rest) =~= (done + seq![curv]) + rest);
                done = done.push(curv);
                assert(prev_done + seq![curv] =~= done);
                lemma_prepend_empty(rest);
                lemma_keep_nonempty_add(prev_done, seq![curv]);
                lemma_keep_nonempty_single(curv);
            }
            if cur.len() > 0 {
                lines.push(cur);
                cur = Vec::new();
                proof {
                    lemma_line_views_push(lines@.drop_last(), lines@.last());
                    assert(lines@.drop_last().push(lines@.last()) =~= lines@);
                    assert(line_views(lines@) =~= keep_nonempty(prev_done) + seq![curv]);
                }
            } else {
                cur = Vec::new();
            }
        } else {
            let ghost curv = cur@;
            proof {
                assert(raw_lines(bytes@.skip(k as int)) == prepend_first(seq![b], rest));
                assert(curv + (seq![b] + rest[0]) =~= curv.push(b) + rest[0]);
                assert(prepend_first(curv, prepend_first(seq![b], rest)) =~= prepend_first(
                    curv.push(b),
                    rest,
                ));
            }
            cur.push(b);
        }
        k += 1;
    }
    proof {
        assert(bytes@.skip(bytes@.len() as int) =~= Seq::<u8>::empty());
        assert(cur@ + Seq::<u8>::empty() =~= cur@);
        assert(prepend_first(cur@, seq![Seq::<u8>::empty()]) =~= seq![cur@]);
        lemma_keep_nonempty_add(done, seq![cur@]);
        lemma_keep_nonempty_single(cur@);
    }
    if cur.len() > 0 {
        let ghost prev_lines = lines@;
        let ghost curv = cur@;
        lines.push(cur);
        proof {
            lemma_line_views_push(prev_lines, lines@.last());
            assert(line_views(lines@) =~= line_views(prev_lines) + seq![curv]);
        }
    } else {
        proof {
            assert(line_views(lines@) =~= line_views(lines@) + Seq::<Seq<u8>>::empty());
        }
    }
    lines
}

/// Parses one line as an unsigned decimal number.
fn parse_usize(line: &Vec<u8>) -> (r: Option<usize>)
    ensures
        r == parse_usize_spec(line@),
{
    let mut start: usize = 0;
    if line.len() > 0 && line[0] == 43 {
        start = 1;
    }
    if line.len() == start {
        return None;
    }
    let ghost digs = literal_digits(line@);
    proof {
        assert(digs =~= line@.skip(start as int));
    }
    let mut val: usize = 0;
    let mut k: usize = start;
    while k < line.len()
        invariant
            start <= k <= line@.len(),
            start <= 1,
            digs == literal_digits(line@),
            digs == line@.skip(start as int),
            val == digits_val(line@.skip(start as int).take(k - start)),
            forall|i: int| 0 <= i < k - start ==> is_digit(#[trigger] digs[i]),
            digits_val(digs.take(k - start)) <= usize::MAX,
        decreases line@.len() - k,
    {
        let b = line[k];
        if b < 48 || b > 57 {
            proof {
                assert(digs[k - start] == b);
                assert(!is_digit(digs[k - start]));
            }
            return None;
        }
        let d = (b - 48) as usize;
        if val > (usize::MAX - d) / 10 {
            proof {
                let t = digs.take(k - start + 1);
                assert(t.drop_last() =~= digs.take(k - start));
                assert(t.last() == b);
                assert(digits_val(t) == val * 10 + d);
                assert(val * 10 + d > usize::MAX) by (nonlinear_arith)
                    requires
                        val > (usize::MAX - d) / 10,
                        d <= 9,
                        val >= 0,
                ;
                if forall|i: int| 0 <= i < digs.len() ==> is_digit(#[trigger] digs[i]) {
                    lemma_digits_val_prefix(digs, k - start + 1);
                    assert(digits_val(digs) >= digits_val(t));
                }
            }
            return None;
        }
        proof {
            let t = digs.take(k - start + 1);
            assert(t.drop_last() =~= digs.take(k - start));
            assert(t.last() == b);
            assert(val * 10 + d <= usize::MAX) by (nonlinear_arith)
                requires
                    val <= (usize::MAX - d) / 10,
                    d <= 9,
                    val >= 0,
            ;
        }
        val = val * 10 + d;
        k += 1;
    }
    proof {
        assert(digs.take(line@.len() - start) =~= digs);
    }
    Some(val)
}

/// The value of a prefix of a digit string is at most the value of the
/// whole string.
proof fn lemma_digits_val_prefix(s: Seq<u8>, n: int)
    requires
        0 <= n <= s.len(),
        forall|i: int| 0 <= i < s.len() ==> is_digit(#[trigger] s[i]),
    ensures
        digits_val(s.take(n)) <= digits_val(s),
    decreases s.len() - n,
{
    if n < s.len() {
        let t = s.take(n + 1);
        assert(t.drop_last() =~= s.take(n));
        assert(is_digit(t.last()));
        assert(digits_val(t) == (digits_val(s.take(n)) * 10 + (t.last() - 48)) as nat);
        assert(digits_val(s.take(n)) <= digits_val(s.take(n)) * 10 + (t.last() - 48))
            by (nonlinear_arith)
            requires
                is_digit(t.last()),
        ;
        lemma_digits_val_prefix(s, n + 1);
    } else {
        assert(s.take(n) =~= s);
    }
}

/// Writes `n` in decimal, most significant digit first.
fn fmt_usize(n: usize) -> (r: Vec<u8>)
    ensures
        r@ == dec_digits(n as nat),
    decreases n,
{
    if n < 10 {
        let mut r: Vec<u8> = Vec::new();
        r.push((n as u8) + 48);
        proof {
            assert(r@ =~= dec_digits(n as nat));
        }
        r
    } else {
        let mut r = fmt_usize(n / 10);
        r.push(((n % 10) as u8) + 48);
        r
    }
}

/// Every byte of every glyph line (the third nonempty line onward) stands
/// for a material.
pub open spec fn glyphs_ok(ls: Seq<Seq<u8>>) -> bool {
    forall|a: int, b: int|
        2 <= a < ls.len() && 0 <= b < ls[a].len() ==> is_glyph(#[trigger] ls[a][b])
}

/// The material a snapshot gives to the cell at `(i, j)`: the glyph at row
/// `i`, column `j` of the glyph lines, or Empty where the lines end early.
pub open spec fn parsed_mat(ls: Seq<Seq<u8>>, i: int, j: int) -> Phenotype {
    if 2 + i < ls.len() && 0 <= j < ls[2 + i].len() {
        glyph_material(ls[2 + i][j])
    } else {
        Phenotype::Empty
    }
}

/// The material a recognized glyph byte stands for.
fn byte_material(b: u8) -> (p: Phenotype)
    requires
        is_glyph(b),
    ensures
        p == glyph_material(b),
{
    if b == 43 {
        Phenotype::Sand
    } else if b == 35 {
        Phenotype::Ceramic
    } else {
        Phenotype::Empty
    }
}

/// The glyph byte of a material.
fn material_glyph(p: &Phenotype) -> (b: u8)
    ensures
        b == glyph_byte(*p),
{
    match *p {
        Phenotype::Empty => 32,
        Phenotype::Sand => 43,
        Phenotype::Ceramic => 35,
    }
}

/// Reads a grid back from the bytes of a snapshot.
///
/// The first two nonempty lines give the width and the height; the following
/// nonempty lines give one glyph per cell, row by row. Glyph lines shorter or
/// longer than the declared width, and fewer or more of them than the
/// declared height, are tolerated: missing cells are Empty and extra glyphs
/// are ignored, though every glyph present must be recognized.
pub fn parse_snapshot(bytes: &Vec<u8>) -> (r: Result<Grid, SnapshotError>)
    ensures
        ({
            let ls = snapshot_lines(bytes@);
            match r {
                Ok(g) => {
                    &&& ls.len() >= 2
                    &&& parse_usize_spec(ls[0]) == Some(g.width)
                    &&& parse_usize_spec(ls[1]) == Some(g.height)
                    &&& glyphs_ok(ls)
                    &&& g.wf()
                    &&& forall|i: int, j: int|
                        g.in_bounds(i, j) ==> #[trigger] g.cell(i, j) == (Node {
                            future_pheno: None,
                            pheno: parsed_mat(ls, i, j),
                            position: (i as usize, j as usize),
                            is_seed: false,
                        })
                },
                Err(e) => match e {
                    SnapshotError::MissingDimensions => ls.len() < 2,
                    SnapshotError::InvalidWidth => ls.len() >= 2 && parse_usize_spec(ls[0])
                        is None,
                    SnapshotError::InvalidHeight => ls.len() >= 2 && parse_usize_spec(ls[0])
                        is Some && parse_usize_spec(ls[1]) is None,
                    SnapshotError::InvalidGlyph => ls.len() >= 2 && parse_usize_spec(ls[0])
                        is Some && parse_usize_spec(ls[1]) is Some && !glyphs_ok(ls),
                },
            }
        }),
{
    let ghost ls = snapshot_lines(bytes@);
    let lines = split_lines(bytes);
    if lines.len() < 2 {
        return Err(SnapshotError::MissingDimensions);
    }
    proof {
        assert(ls[0] == lines@[0]@);
        assert(ls[1] == lines@[1]@);
    }
    let width = match parse_usize(&lines[0]) {
        Some(w) => w,
        None => {
            return Err(SnapshotError::InvalidWidth);
        },
    };
    let height = match parse_usize(&lines[1]) {
        Some(h) => h,
        None => {
            return Err(SnapshotError::InvalidHeight);
        },
    };
    let mut all_ok = true;
    let mut li: usize = 2;
    while li < lines.len()
        invariant
            2 <= li <= lines@.len(),
            ls == snapshot_lines(bytes@),
            line_views(lines@) == ls,
            all_ok ==> forall|a: int, b: int|
                2 <= a < li && 0 <= b < ls[a].len() ==> is_glyph(#[trigger] ls[a][b]),
            !all_ok ==> !glyphs_ok(ls),
        decreases lines@.len() - li,
    {
        let row = &lines[li];
        proof {
            assert(ls[li as int] == lines@[li as int]@);
        }
        let mut bj: usize = 0;
        while bj < row.len()
            invariant
                bj <= row@.len(),
                2 <= li < lines@.len(),
                ls == snapshot_lines(bytes@),
                line_views(lines@) == ls,
                row@ == ls[li as int],
                all_ok ==> forall|a: int, b: int|
                    2 <= a < li && 0 <= b < ls[a].len() ==> is_glyph(#[trigger] ls[a][b]),
                all_ok ==> forall|b: int| 0 <= b < bj ==> is_glyph(#[trigger] ls[li as int][b]),
                !all_ok ==> !glyphs_ok(ls),
            decreases row@.len() - bj,
        {
            let b = row[bj];
            if !(b == 32 || b == 43 || b == 35) {
                proof {
                    assert(!is_glyph(ls[li as int][bj as int]));
                }
                all_ok = false;
            }
            bj += 1;
        }
        li += 1;
    }
    if !all_ok {
        return Err(SnapshotError::InvalidGlyph);
    }
    let mut map: Vec<Vec<Node>> = Vec::new();
    let mut i: usize = 0;
    while i < height
        invariant
            i <= height,
            map@.len() == i,
            ls == snapshot_lines(bytes@),
            line_views(lines@) == ls,
            lines@.len() >= 2,
            glyphs_ok(ls),
            forall|a: int| 0 <= a < i ==> (#[trigger] map@[a])@.len() == width,
            forall|a: int, b: int|
                0 <= a < i && 0 <= b < width ==> #[trigger] map@[a]@[b] == (Node {
                    future_pheno: None,
                    pheno: parsed_mat(ls, a, b),
                    position: (a as usize, b as usize),
                    is_seed: false,
                }),
        decreases height - i,
    {
        let mut row: Vec<Node> = Vec::new();
        let mut j: usize = 0;
        while j < width
            invariant
                j <= width,
                i < height,
                row@.len() == j,
                ls == snapshot_lines(bytes@),
                line_views(lines@) == ls,
                lines@.len() >= 2,
                glyphs_ok(ls),
                forall|b: int|
                    0 <= b < j ==> #[trigger] row@[b] == (Node {
                        future_pheno: None,
                        pheno: parsed_mat(ls, i as int, b),
                        position: (i as usize, b as usize),
                        is_seed: false,
                    }),
            decreases width - j,
        {
            let pheno = if i < lines.len() - 2 {
                let glyph_row = &lines[i + 2];
                proof {
                    assert(ls[i + 2] == lines@[i + 2]@);
                }
                if j < glyph_row.len() {
                    byte_material(glyph_row[j])
                } else {
                    Phenotype::Empty
                }
            } else {
                Phenotype::Empty
            };
            row.push(Node::new(pheno, (i, j)));
            j += 1;
        }
        map.push(row);
        i += 1;
    }
    Ok(Grid { width, height, map })
}

/// The glyph row of grid row `i`: one glyph byte per cell.
pub open spec fn row_glyphs(g: Grid, i: int) -> Seq<u8> {
    Seq::new(g.width as nat, |j: int| glyph_byte(g.mat(i, j)))
}

/// The glyph rows of the grid from row `i` down, each closed by a line feed.
pub open spec fn rows_bytes(g: Grid, i: int) -> Seq<u8>
    decreases g.height - i,
{
    if i >= g.height {
        Seq::<u8>::empty()
    } else {
        row_glyphs(g, i) + seq![10u8] + rows_bytes(g, i + 1)
    }
}

/// The full snapshot of a grid: its width, its height, then its glyph rows,
/// each on a line of its own.
pub open spec fn render_spec(g: Grid) -> Seq<u8> {
    dec_digits(g.width as nat) + seq![10u8] + dec_digits(g.height as nat) + seq![10u8]
        + rows_bytes(g, 0)
}

/// Writes the current state of a grid in the snapshot format.
pub fn render_snapshot(g: &Grid) -> (r: Vec<u8>)
    requires
        g.wf(),
    ensures
        r@ == render_spec(*g),
{
    let mut r = fmt_usize(g.width);
    r.push(10);
    let mut dh = fmt_usize(g.height);
    r.append(&mut dh);
    r.push(10);
    let ghost header = r@;
    proof {
        assert(header + rows_bytes(*g, g.height as int) =~= header);
    }
    let mut i: usize = 0;
    while i < g.height
        invariant
            g.wf(),
            i <= g.height,
            header == dec_digits(g.width as nat) + seq![10u8] + dec_digits(g.height as nat)
                + seq![10u8],
            header + rows_bytes(*g, 0) == r@ + rows_bytes(*g, i as int),
        decreases g.height - i,
    {
        let ghost row_start = r@;
        let mut j: usize = 0;
        while j < g.width
            invariant
                g.wf(),
                i < g.height,
                j <= g.width,
                r@ == row_start + row_glyphs(*g, i as int).take(j as int),
            decreases g.width - j,
        {
            let node = g.map[i][j];
            let b = material_glyph(&node.pheno);
            r.push(b);
            proof {
                assert(row_glyphs(*g, i as int).take(j + 1) =~= row_glyphs(*g, i as int).take(
                    j as int,
                ).push(b));
            }
            j += 1;
        }
        r.push(10);
        proof {
            assert(row_glyphs(*g, i as int).take(g.width as int) =~= row_glyphs(*g, i as int));
            assert(r@ =~= row_start + (row_glyphs(*g, i as int) + seq![10u8]));
            assert(rows_bytes(*g, i as int) == row_glyphs(*g, i as int) + seq![10u8] + rows_bytes(
                *g,
                i + 1,
            ));
            assert(row_start + (row_glyphs(*g, i as int) + seq![10u8]) + rows_bytes(*g, i + 1)
                =~= row_start + (row_glyphs(*g, i as int) + seq![10u8] + rows_bytes(*g, i + 1)));
        }
        i += 1;
    }
    proof {
        assert(rows_bytes(*g, g.height as int) == Seq::<u8>::empty());
        assert(r@ + Seq::<u8>::empty() =~= r@);
        assert(header + rows_bytes(*g, 0) =~= render_spec(*g));
    }
    r
}

/// Splitting a byte string that starts with a separator-free segment and a
/// line feed yields that segment, then the lines of the remainder.
proof fn lemma_raw_lines_seg(xs: Seq<u8>, ys: Seq<u8>)
    requires
        forall|i: int| 0 <= i < xs.len() ==> !is_sep(#[trigger] xs[i]),
    ensures
        raw_lines(xs + seq![10u8] + ys) == seq![xs] + raw_lines(ys),
    decreases xs.len(),
{
    let s = xs + seq![10u8] + ys;
    if xs.len() == 0 {
        assert(s[0] == 10);
        assert(s.skip(1) =~= ys);
        assert(xs =~= Seq::<u8>::empty());
    } else {
        assert(s[0] == xs[0]);
        assert(!is_sep(s[0]));
        assert(s.skip(1) =~= xs.skip(1) + seq![10u8] + ys);
        assert(forall|i: int| 0 <= i < xs.skip(1).len() ==> !is_sep(#[trigger] xs.skip(1)[i]));
        lemma_raw_lines_seg(xs.skip(1), ys);
        let rest = raw_lines(xs.skip(1) + seq![10u8] + ys);
        assert(raw_lines(s) == rest.update(0, seq![s[0]] + rest[0]));
        assert(rest[0] == xs.skip(1));
        assert(seq![xs[0]] + xs.skip(1) =~= xs);
        assert(rest.update(0, seq![s[0]] + rest[0]) =~= seq![xs] + raw_lines(ys));
    }
}

/// When every segment is nonempty, filtering the empty ones away changes
/// nothing.
proof fn lemma_keep_nonempty_all(ls: Seq<Seq<u8>>)
    requires
        forall|i: int| 0 <= i < ls.len() ==> (#[trigger] ls[i]).len() > 0,
    ensures
        keep_nonempty(ls) == ls,
    decreases ls.len(),
{
    if ls.len() > 0 {
        assert(forall|i: int|
            0 <= i < ls.skip(1).len() ==> (#[trigger] ls.skip(1)[i]).len() > 0);
        lemma_keep_nonempty_all(ls.skip(1));
        assert(seq![ls[0]] + ls.skip(1) =~= ls);
    }
}

/// When every segment is empty, filtering leaves nothing.
proof fn lemma_keep_nonempty_none(ls: Seq<Seq<u8>>)
    requires
        forall|i: int| 0 <= i < ls.len() ==> (#[trigger] ls[i]).len() == 0,
    ensures
        keep_nonempty(ls) == Seq::<Seq<u8>>::empty(),
    decreases ls.len(),
{
    if ls.len() > 0 {
        assert(forall|i: int|
            0 <= i < ls.skip(1).len() ==> (#[trigger] ls.skip(1)[i]).len() == 0);
        lemma_keep_nonempty_none(ls.skip(1));
    }
}

/// The decimal digit string of `n` is a nonempty digit string whose value
/// is `n` again.
proof fn lemma_dec_digits(n: nat)
    ensures
        dec_digits(n).len() >= 1,
        forall|i: int| 0 <= i < dec_digits(n).len() ==> is_digit(#[trigger] dec_digits(n)[i]),
        digits_val(dec_digits(n)) == n,
    decreases n,
{
    let s = dec_digits(n);
    if n < 10 {
        assert(s == seq![(n + 48) as u8]);
        assert(s.drop_last() =~= Seq::<u8>::empty());
        assert(digits_val(s.drop_last()) == 0);
        assert(s.last() == (n + 48) as u8);
    } else {
        lemma_dec_digits(n / 10);
        assert(s == dec_digits(n / 10).push((n % 10 + 48) as u8));
        assert(s.drop_last() =~= dec_digits(n / 10));
        assert(s.last() == (n % 10 + 48) as u8);
        vstd::arithmetic::div_mod::lemma_fundamental_div_mod(n as int, 10);
        assert(digits_val(s) == (digits_val(dec_digits(n / 10)) * 10 + (s.last() - 48)) as nat);
        assert forall|i: int| 0 <= i < s.len() implies is_digit(#[trigger] s[i]) by {
            if i < s.len() - 1 {
                assert(s[i] == dec_digits(n / 10)[i]);
            }
        }
    }
}

/// A nonempty digit string parses back to its own value.
proof fn lemma_parse_dec_digits(n: nat)
    requires
        n <= usize::MAX,
    ensures
        parse_usize_spec(dec_digits(n)) == Some(n as usize),
{
    lemma_dec_digits(n);
    let s = dec_digits(n);
    assert(is_digit(s[0]));
    assert(s[0] != 43);
    assert(literal_digits(s) == s);
}

/// The glyph rows of `g` from row `i` down, as a segment list.
spec fn row_list(g: Grid, i: int) -> Seq<Seq<u8>> {
    Seq::new((g.height - i) as nat, |k: int| row_glyphs(g, i + k))
}

/// The segments of the rendered glyph rows are exactly the glyph rows,
/// followed by the one empty segment after the final line feed.
proof fn lemma_rows_raw(g: Grid, i: int)
    requires
        g.wf(),
        0 <= i <= g.height,
    ensures
        raw_lines(rows_bytes(g, i)) == row_list(g, i) + seq![Seq::<u8>::empty()],
    decreases g.height - i,
{
    if i == g.height {
        assert(rows_bytes(g, i) == Seq::<u8>::empty());
        assert(row_list(g, i) =~= Seq::<Seq<u8>>::empty());
        assert(row_list(g, i) + seq![Seq::<u8>::empty()] =~= seq![Seq::<u8>::empty()]);
    } else {
        lemma_rows_raw(g, i + 1);
        assert(forall|k: int|
            0 <= k < row_glyphs(g, i).len() ==> !is_sep(#[trigger] row_glyphs(g, i)[k]));
        lemma_raw_lines_seg(row_glyphs(g, i), rows_bytes(g, i + 1));
        assert(rows_bytes(g, i) == row_glyphs(g, i) + seq![10u8] + rows_bytes(g, i + 1));
        assert(seq![row_glyphs(g, i)] + (row_list(g, i + 1) + seq![Seq::<u8>::empty()])
            =~= row_list(g, i) + seq![Seq::<u8>::empty()]);
    }
}

/// Rendering a grid and parsing the result reproduces the same width, the
/// same height and the same material in every cell: the snapshot format
/// loses nothing.
pub proof fn lemma_snapshot_round_trip(g: Grid)
    requires
        g.wf(),
    ensures
        ({
            let ls = snapshot_lines(render_spec(g));
            &&& ls.len() >= 2
            &&& parse_usize_spec(ls[0]) == Some(g.width)
            &&& parse_usize_spec(ls[1]) == Some(g.height)
            &&& glyphs_ok(ls)
            &&& forall|i: int, j: int|
                g.in_bounds(i, j) ==> parsed_mat(ls, i, j) == g.mat(i, j)
        }),
{
    let dw = dec_digits(g.width as nat);
    let dh = dec_digits(g.height as nat);
    let rows = rows_bytes(g, 0);
    let rl = row_list(g, 0);
    lemma_dec_digits(g.width as nat);
    lemma_dec_digits(g.height as nat);
    lemma_parse_dec_digits(g.width as nat);
    lemma_parse_dec_digits(g.height as nat);
    assert(render_spec(g) =~= dw + seq![10u8] + (dh + seq![10u8] + rows));
    lemma_raw_lines_seg(dw, dh + seq![10u8] + rows);
    lemma_raw_lines_seg(dh, rows);
    lemma_rows_raw(g, 0);
    assert(raw_lines(render_spec(g)) == seq![dw] + (seq![dh] + (rl + seq![Seq::<u8>::empty()])));
    lemma_keep_nonempty_add(seq![dw], seq![dh] + (rl + seq![Seq::<u8>::empty()]));
    lemma_keep_nonempty_add(seq![dh], rl + seq![Seq::<u8>::empty()]);
    lemma_keep_nonempty_add(rl, seq![Seq::<u8>::empty()]);
    lemma_keep_nonempty_single(dw);
    lemma_keep_nonempty_single(dh);
    lemma_keep_nonempty_single(Seq::<u8>::empty());
    let ls = snapshot_lines(render_spec(g));
    assert(ls == seq![dw] + (seq![dh] + keep_nonempty(rl))) by {
        assert(seq![dw] + (seq![dh] + (keep_nonempty(rl) + Seq::<Seq<u8>>::empty())) =~= seq![dw]
            + (seq![dh] + keep_nonempty(rl)));
    }
    if g.width > 0 {
        assert(forall|k: int| 0 <= k < rl.len() ==> (#[trigger] rl[k]).len() > 0);
        lemma_keep_nonempty_all(rl);
        assert(ls.len() == 2 + g.height);
        assert(ls[0] == dw);
        assert(ls[1] == dh);
        assert forall|a: int, b: int|
            2 <= a < ls.len() && 0 <= b < ls[a].len() implies is_glyph(#[trigger] ls[a][b]) by {
            assert(ls[a] == rl[a - 2]);
            assert(ls[a][b] == glyph_byte(g.mat(a - 2, b)));
            lemma_glyph_round_trip(g.mat(a - 2, b));
        }
        assert forall|i: int, j: int| g.in_bounds(i, j) implies parsed_mat(ls, i, j) == g.mat(
            i,
            j,
        ) by {
            assert(ls[2 + i] == rl[i]);
            assert(ls[2 + i][j] == glyph_byte(g.mat(i, j)));
            lemma_glyph_round_trip(g.mat(i, j));
        }
    } else {
        assert(forall|k: int| 0 <= k < rl.len() ==> (#[trigger] rl[k]).len() == 0);
        lemma_keep_nonempty_none(rl);
        assert(ls =~= seq![dw, dh]);
        assert(ls[0] == dw);
        assert(ls[1] == dh);
    }
}

} // verus!
