//! The structure of the sentence-similarity matrix.
//!
//! Which cells of the matrix are fixed and which hold a cosine depends only
//! on the position of a cell and on two facts about each embedding: its
//! length, and whether it is the all-zero vector that stands for a sentence
//! without signal.

use vstd::prelude::*;
use crate::error::Error;

verus! {

/// The length of the all-zero vector that stands for a sentence too short to
/// embed.
pub const SENTINEL_DIMENSION: usize = 384;

/// What the matrix needs to know of one embedding.
#[derive(Debug, Clone, Copy, PartialEq, Eq, Structural)]
pub struct EmbeddingShape {
    /// The number of components.
    pub len: usize,
    /// Whether every component is zero.
    pub all_zero: bool,
}

/// How one cell of the similarity matrix gets its value.
#[derive(Debug, Clone, Copy, PartialEq, Eq, Structural)]
pub enum Cell {
    /// A sentence against itself: exactly one.
    One,
    /// A cell of a sentence without signal: exactly zero.
    Zero,
    /// The cosine of the two embeddings.
    Cosine,
}

/// The kind of the cell in row `i` and column `j`.
pub open spec fn cell_at(shapes: Seq<EmbeddingShape>, i: int, j: int) -> Cell {
    if i == j {
        Cell::One
    } else if shapes[i].all_zero || shapes[j].all_zero {
        Cell::Zero
    } else {
        Cell::Cosine
    }
}

/// Whether the cell in row `i` and column `j` asks for the cosine of two
/// embeddings of different lengths.
pub open spec fn mismatched(shapes: Seq<EmbeddingShape>, i: int, j: int) -> bool {
    cell_at(shapes, i, j) == Cell::Cosine && shapes[i].len != shapes[j].len
}

/// Whether some cell of the matrix is mismatched.
pub open spec fn has_mismatch(shapes: Seq<EmbeddingShape>) -> bool {
    exists|i: int, j: int| 0 <= i < shapes.len() && 0 <= j < shapes.len() && mismatched(shapes, i, j)
}

/// Whether `cells` is the square matrix of cell kinds for `shapes`.
pub open spec fn is_layout(shapes: Seq<EmbeddingShape>, cells: Seq<Vec<Cell>>) -> bool {
    &&& cells.len() == shapes.len()
    &&& forall|i: int| 0 <= i < cells.len() ==> (#[trigger] cells[i]).len() == shapes.len()
    &&& forall|i: int, j: int|
        0 <= i < shapes.len() && 0 <= j < shapes.len() ==> #[trigger] cells[i]@[j] == cell_at(
            shapes,
            i,
            j,
        )
}

/// The matrix is symmetric in its structure: a cell and its mirror image are
/// of the same kind, and one is mismatched exactly when the other is.
pub proof fn lemma_layout_symmetric(shapes: Seq<EmbeddingShape>, i: int, j: int)
    ensures
        cell_at(shapes, i, j) == cell_at(shapes, j, i),
        mismatched(shapes, i, j) == mismatched(shapes, j, i),
{
}

/// Some cells are fixed whatever the embeddings hold: a sentence against
/// itself is exactly one, and a cell of a sentence whose embedding is all
/// zero is exactly zero and never a mismatch, whatever the lengths.
pub proof fn lemma_fixed_cells(shapes: Seq<EmbeddingShape>, i: int, j: int)
    ensures
        cell_at(shapes, i, i) == Cell::One,
        !mismatched(shapes, i, i),
        i != j && (shapes[i].all_zero || shapes[j].all_zero) ==> cell_at(shapes, i, j) == Cell::Zero
            && !mismatched(shapes, i, j),
{
}

/// Lays out the similarity matrix of the given embeddings, row by row. Fails
/// with `DimensionMismatch` exactly when some cell would need the cosine of
/// two embeddings of different lengths.
pub fn plan_matrix(shapes: &Vec<EmbeddingShape>) -> (plan: Result<Vec<Vec<Cell>>, Error>)
    ensures
        plan is Ok <==> !has_mismatch(shapes@),
        plan matches Ok(cells) ==> is_layout(shapes@, cells@),
        plan matches Err(e) ==> e == Error::DimensionMismatch,
{
    let n: usize = shapes.len();
    let mut cells: Vec<Vec<Cell>> = Vec::new();
    let mut i: usize = 0;
    while i < n
        invariant
            i <= n,
            n == shapes.len(),
            cells.len() == i,
            forall|r: int| 0 <= r < i ==> (#[trigger] cells@[r]).len() == n,
            forall|r: int, c: int|
                0 <= r < i && 0 <= c < n ==> #[trigger] cells@[r]@[c] == cell_at(shapes@, r, c),
            forall|r: int, c: int| 0 <= r < i && 0 <= c < n ==> !mismatched(shapes@, r, c),
        decreases n - i,
    {
        let mut row: Vec<Cell> = Vec::new();
        let mut j: usize = 0;
        while j < n
            invariant
                i < n,
                j <= n,
                n == shapes.len(),
                row.len() == j,
                forall|c: int| 0 <= c < j ==> #[trigger] row@[c] == cell_at(shapes@, i as int, c),
                forall|c: int| 0 <= c < j ==> !mismatched(shapes@, i as int, c),
            decreases n - j,
        {
            if i == j {
                row.push(Cell::One);
            } else if shapes[i].all_zero || shapes[j].all_zero {
                row.push(Cell::Zero);
            } else if shapes[i].len != shapes[j].len {
                assert(mismatched(shapes@, i as int, j as int));
                return Err(Error::DimensionMismatch);
            } else {
                row.push(Cell::Cosine);
            }
            j += 1;
        }
        cells.push(row);
        i += 1;
    }
    Ok(cells)
}

} // verus!
