//! The materials a cell can hold, and their snapshot glyphs.

use vstd::prelude::*;

verus! {

/// The discrete state a grid cell can hold.
#[derive(Debug, Clone, Copy, PartialEq, Eq, Structural)]
pub enum Phenotype {
    Empty,
    Sand,
    Ceramic,
}

/// The snapshot glyph of a material, as a byte of the textual format.
pub open spec fn glyph_byte(pheno: Phenotype) -> u8 {
    match pheno {
        Phenotype::Empty => 32,
        Phenotype::Sand => 43,
        Phenotype::Ceramic => 35,
    }
}

/// Whether a byte of a snapshot is the glyph of some material.
pub open spec fn is_glyph(b: u8) -> bool {
    b == 32 || b == 43 || b == 35
}

/// The material a recognized glyph byte stands for.
pub open spec fn glyph_material(b: u8) -> Phenotype {
    if b == 43 {
        Phenotype::Sand
    } else if b == 35 {
        Phenotype::Ceramic
    } else {
        Phenotype::Empty
    }
}

pub proof fn lemma_glyph_round_trip(pheno: Phenotype)
    ensures
        is_glyph(glyph_byte(pheno)),
        glyph_material(glyph_byte(pheno)) == pheno,
{
}

/// Maps a material to the character that renders it.
pub fn phenotype_as_glyph(pheno: &Phenotype) -> (glyph: char)
    ensures
        glyph == (glyph_byte(*pheno) as char),
{
    match *pheno {
        Phenotype::Empty => ' ',
        Phenotype::Sand => '+',
        Phenotype::Ceramic => '#',
    }
}

/// Maps a recognized glyph character back to its material.
pub fn glyph_as_phenotype(glyph: char) -> (pheno: Phenotype)
    requires
        is_glyph(glyph as u8),
        glyph as u32 <= 255,
    ensures
        pheno == glyph_material(glyph as u8),
{
    if glyph == ' ' {
        Phenotype::Empty
    } else if glyph == '+' {
        Phenotype::Sand
    } else {
        Phenotype::Ceramic
    }
}

} // verus!
