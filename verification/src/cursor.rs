//! Positions inside the character grid of the main widget.
//!
//! The grid is made of `BLOCKS` blocks side by side; each block has
//! `ROWS_PER_BLOCK` rows of `CHARACTERS_PER_ROW` characters. A character is
//! addressed either by its cursor position (block, row, column) or by its
//! flat index, which runs row by row through the first block, then the next.

use vstd::prelude::*;

verus! {

/// Rows in one block of the grid.
pub const ROWS_PER_BLOCK: usize = 17;
/// Characters (columns) in one row of a block.
pub const COLUMNS_PER_BLOCK: usize = 12;
/// Number of blocks shown side by side.
pub const BLOCKS: usize = 2;
/// Characters in one row.
pub const CHARACTERS_PER_ROW: usize = COLUMNS_PER_BLOCK;
/// Characters in one block.
pub const CHARACTERS_PER_BLOCK: usize = 204;
/// Characters in the whole grid.
pub const CHARACTERS_TOTAL: usize = 408;
/// Rows in the whole grid, all blocks together.
pub const TOTAL_ROWS: usize = 34;

/// A position in the grid: which block, which row of it, which column.
#[derive(Debug, Clone, Copy, PartialEq, Eq, Structural, Default)]
pub struct CursorPosition {
    pub block: usize,
    pub column: usize,
    pub row: usize,
}

/// The flat index of a position, as an integer.
pub open spec fn spec_index(block: int, row: int, column: int) -> int {
    block * CHARACTERS_PER_BLOCK + row * CHARACTERS_PER_ROW + column
}

impl CursorPosition {
    /// The position lies inside the grid.
    pub open spec fn is_valid(self) -> bool {
        &&& self.block < BLOCKS
        &&& self.row < ROWS_PER_BLOCK
        &&& self.column < CHARACTERS_PER_ROW
    }

    /// The flat index of this position.
    pub open spec fn flat_index(self) -> int {
        spec_index(self.block as int, self.row as int, self.column as int)
    }

    /// The index of this position's row among all rows of the grid.
    pub open spec fn flat_row(self) -> int {
        self.block * ROWS_PER_BLOCK + self.row
    }

    /// The position whose flat index is `index`.
    pub open spec fn spec_from_index(index: usize) -> CursorPosition {
        CursorPosition {
            block: index / CHARACTERS_PER_BLOCK,
            row: (index % CHARACTERS_PER_BLOCK) / CHARACTERS_PER_ROW,
            column: (index % CHARACTERS_PER_BLOCK) % CHARACTERS_PER_ROW,
        }
    }

    /// Splits a flat index into block, row and column.
    pub fn from_index(index: usize) -> (pos: CursorPosition)
        ensures
            pos == Self::spec_from_index(index),
            pos.flat_index() == index,
            pos.row < ROWS_PER_BLOCK,
            pos.column < CHARACTERS_PER_ROW,
            index < CHARACTERS_TOTAL ==> pos.is_valid(),
    {
        let block = index / CHARACTERS_PER_BLOCK;
        let block_rem = index % CHARACTERS_PER_BLOCK;
        let row = block_rem / CHARACTERS_PER_ROW;
        let row_rem = block_rem % CHARACTERS_PER_ROW;
        let column = row_rem;
        proof {
            lemma_split_index(index as int);
        }
        CursorPosition { block, column, row }
    }

    /// The first character of the next row; after the last row of a block
    /// comes the first row of the next block. There is no row after the last
    /// row of the last block.
    pub fn next_row(&self) -> (next: CursorPosition)
        requires
            self.row < usize::MAX,
            self.row + 1 < ROWS_PER_BLOCK || self.block + 1 < BLOCKS,
        ensures
            next.column == 0,
            self.row + 1 < ROWS_PER_BLOCK ==> next.row == self.row + 1 && next.block == self.block,
            self.row + 1 >= ROWS_PER_BLOCK ==> next.row == 0 && next.block == self.block + 1,
    {
        let mut next: CursorPosition = *self;
        next.column = 0;
        next.row = next.row + 1;
        if next.row >= ROWS_PER_BLOCK {
            next.row = 0;
            next.block = next.block + 1;
        }
        next
    }

    /// The flat index of this position.
    pub fn index(&self) -> (i: usize)
        requires
            self.flat_index() <= usize::MAX,
        ensures
            i == self.flat_index(),
    {
        self.block * CHARACTERS_PER_BLOCK + self.row * CHARACTERS_PER_ROW + self.column
    }

    /// The index of this position's row among all rows of the grid.
    pub fn row_index(&self) -> (r: usize)
        requires
            self.flat_row() <= usize::MAX,
        ensures
            r == self.flat_row(),
    {
        self.block * ROWS_PER_BLOCK + self.row
    }
}

/// Splitting a flat index and joining the parts gives the index back.
pub proof fn lemma_split_index(index: int)
    requires
        index >= 0,
    ensures
        spec_index(index / 204, (index % 204) / 12, (index % 204) % 12) == index,
        (index % 204) / 12 < 17,
        (index % 204) % 12 < 12,
        index < CHARACTERS_TOTAL ==> index / 204 < 2,
{
    let b = index / 204;
    let r = index % 204;
    assert(index == b * 204 + r && 0 <= r < 204) by (nonlinear_arith)
        requires
            index >= 0,
            b == index / 204,
            r == index % 204,
    ;
    let q = r / 12;
    let c = r % 12;
    assert(r == q * 12 + c && 0 <= c < 12 && q < 17) by (nonlinear_arith)
        requires
            0 <= r < 204,
            q == r / 12,
            c == r % 12,
    ;
    assert(index < 408 ==> b < 2) by (nonlinear_arith)
        requires
            index == b * 204 + r,
            0 <= r,
            b >= 0,
    ;
}

/// Reading a position as a flat index and splitting that index again gives
/// the same position, for every position inside the grid.
pub proof fn lemma_index_round_trip(pos: CursorPosition)
    requires
        pos.is_valid(),
    ensures
        0 <= pos.flat_index() < CHARACTERS_TOTAL,
        CursorPosition::spec_from_index(pos.flat_index() as usize) == pos,
{
    let i = pos.flat_index();
    let b = pos.block as int;
    let r = pos.row as int;
    let c = pos.column as int;
    assert(i / 204 == b && i % 204 == r * 12 + c) by (nonlinear_arith)
        requires
            i == b * 204 + r * 12 + c,
            0 <= b < 2,
            0 <= r < 17,
            0 <= c < 12,
    ;
    assert((r * 12 + c) / 12 == r && (r * 12 + c) % 12 == c) by (nonlinear_arith)
        requires
            0 <= r < 17,
            0 <= c < 12,
    ;
}

/// The row of the grid that holds a flat index is that index divided by the
/// row length.
pub proof fn lemma_flat_row_of_index(index: usize)
    ensures
        CursorPosition::spec_from_index(index).flat_row() == index / 12,
{
    let i = index as int;
    let b = i / 204;
    let r = i % 204;
    assert(b * 17 + r / 12 == i / 12) by (nonlinear_arith)
        requires
            i >= 0,
            b == i / 204,
            r == i % 204,
    {
        assert(i == b * 204 + r && 0 <= r < 204);
        assert(i == (b * 17 + r / 12) * 12 + r % 12);
    }
}

} // verus!
