//! The layout of the characters of a bitmap font: which cell of a
//! uniform grid of glyphs holds each character.  The layer that draws
//! turns a cell into the floating-point rectangle of the image that it
//! covers.

use std::collections::HashMap;
use vstd::prelude::*;

verus! {

broadcast use vstd::std_specs::hash::group_hash_axioms;

/// The grid cell of each character of `mapping`, read left to right and
/// top to bottom in a grid `width` cells wide; where a character occurs
/// more than once, its last occurrence counts.
pub open spec fn grid_cells(mapping: Seq<char>, width: usize) -> Map<u32, (usize, usize)>
    decreases mapping.len(),
{
    if mapping.len() == 0 {
        Map::empty()
    } else {
        let i = mapping.len() - 1;
        grid_cells(mapping.drop_last(), width).insert(
            mapping.last() as u32,
            ((i % (width as int)) as usize, (i / (width as int)) as usize),
        )
    }
}

/// Describes the layout of characters in your
/// bitmap font.
pub struct TextMap {
    map: HashMap<u32, (usize, usize)>,
    width: usize,
    height: usize,
}

impl TextMap {
    /// The cell (column, row) of each character, keyed by its code point.
    pub closed spec fn cells(&self) -> Map<u32, (usize, usize)> {
        self.map@
    }

    pub closed spec fn grid_width(&self) -> usize {
        self.width
    }

    pub closed spec fn grid_height(&self) -> usize {
        self.height
    }

    /// Creates a new `TextMap` from a uniform grid of
    /// sprites.  Takes the number of sprites wide and
    /// tall that the bitmap should be, and a string
    /// describing the characters in the map... in order,
    /// left to right, top to bottom.
    ///
    /// The characters do not necessarily need to fill
    /// the entire image.  ie, if your image is 16x16 glyphs
    /// for 256 total, and you only use the first 150 of them,
    /// that's fine.
    pub fn from_grid(mapping: &str, width: usize, height: usize) -> (r: Self)
        requires
            mapping@.len() <= width * height,
        ensures
            r.cells() == grid_cells(mapping@, width),
            r.grid_width() == width,
            r.grid_height() == height,
    {
        let mut map: HashMap<u32, (usize, usize)> = HashMap::new();
        let mut current_x: usize = 0;
        let mut current_y: usize = 0;
        let ghost mut i: int = 0;
        for c in it: mapping.chars()
            invariant
                it.seq() == mapping@,
                i == it.index(),
                mapping@.len() <= width * height,
                width > 0 || mapping@.len() == 0,
                i <= mapping@.len(),
                i == current_y * width + current_x,
                current_x < width || i == 0,
                current_y * width <= i,
                map@ == grid_cells(mapping@.take(i), width),
        {
            proof {
                assert(width > 0);
                assert(current_x < width);
                vstd::arithmetic::div_mod::lemma_fundamental_div_mod_converse(
                    i,
                    width as int,
                    current_y as int,
                    current_x as int,
                );
                assert(mapping@.take(i + 1).drop_last() == mapping@.take(i));
                assert(mapping@.take(i + 1).last() == c);
            }
            map.insert(c as u32, (current_x, current_y));
            if current_x + 1 < width {
                current_x = current_x + 1;
            } else {
                current_x = 0;
                proof {
                    assert((current_y + 1) * width == current_y * width + width) by (nonlinear_arith);
                    assert(i + 1 <= width * height);
                    assert(current_y + 1 <= height) by (nonlinear_arith)
                        requires
                            (current_y + 1) * width <= width * height,
                            width > 0,
                    ;
                }
                current_y = current_y + 1;
            }
            proof {
                i = i + 1;
            }
        }
        proof {
            assert(mapping@.take(mapping@.len() as int) == mapping@);
        }
        TextMap { map, width, height }
    }

    /// The grid cell (column, row) of `c`, if the map has it.
    pub fn cell(&self, c: char) -> (r: Option<(usize, usize)>)
        ensures
            r == self.cells().get(c as u32),
    {
        match self.map.get(&(c as u32)) {
            Some(cell) => Some(*cell),
            None => None,
        }
    }

    /// Number of glyphs across the grid.
    pub fn width(&self) -> (r: usize)
        ensures
            r == self.grid_width(),
    {
        self.width
    }

    /// Number of glyphs down the grid.
    pub fn height(&self) -> (r: usize)
        ensures
            r == self.grid_height(),
    {
        self.height
    }
}

/// Every character of the mapping gets a cell, and every cell lies in
/// the grid's columns and in the rows that the mapping fills.
pub proof fn law_cells_in_grid(mapping: Seq<char>, width: usize, c: char)
    requires
        width > 0,
        mapping.len() <= usize::MAX,
    ensures
        mapping.contains(c) ==> grid_cells(mapping, width).contains_key(c as u32),
        grid_cells(mapping, width).contains_key(c as u32) ==> {
            let cell = grid_cells(mapping, width)[c as u32];
            &&& cell.0 < width
            &&& cell.1 * width < mapping.len()
        },
    decreases mapping.len(),
{
    if mapping.len() > 0 {
        law_cells_in_grid(mapping.drop_last(), width, c);
        let i = mapping.len() - 1;
        if mapping.contains(c) && mapping.last() != c {
            let j = choose|j: int| 0 <= j < mapping.len() && mapping[j] == c;
            assert(mapping.drop_last()[j] == c);
        }
        assert(0 <= i % (width as int) < width) by (nonlinear_arith)
            requires width > 0, i >= 0;
        assert((i / (width as int)) * width <= i) by (nonlinear_arith)
            requires width > 0, i >= 0;
        assert(i / (width as int) >= 0) by (nonlinear_arith)
            requires width > 0, i >= 0;
    }
}

} // verus!
