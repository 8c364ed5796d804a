//! The mathematical model of a board: its dimensions and the cells in
//! row-major order, with the geometry and colouring rules stated over it.

use vstd::prelude::*;

use crate::area::DominoColor;

verus! {

/// Abstract state of a board. Cell `(row, col)` sits at linear index
/// `row * cols + col` of `cells`.
pub struct Board {
    pub rows: int,
    pub cols: int,
    pub cells: Seq<DominoColor>,
}

/// The one-element sequence `[x]` when `b` holds, the empty one otherwise.
pub open spec fn seq_if<T>(b: bool, x: T) -> Seq<T> {
    if b {
        seq![x]
    } else {
        Seq::empty()
    }
}

/// Whether some entry of the request `req` is the linear index `j`.
pub open spec fn requested(req: Seq<u64>, j: int) -> bool {
    exists|k: int| 0 <= k < req.len() && req[k] as int == j
}

impl Board {
    /// Dimensions fit the machine and the cell sequence has one entry per cell.
    pub open spec fn wf(self) -> bool {
        &&& 0 <= self.rows <= u64::MAX
        &&& 0 <= self.cols <= u64::MAX
        &&& self.rows * self.cols <= u64::MAX
        &&& self.rows * self.cols <= usize::MAX
        &&& self.cells.len() == self.rows * self.cols
    }

    pub open spec fn index_of(self, row: int, col: int) -> int {
        row * self.cols + col
    }

    pub open spec fn row_of(self, i: int) -> int {
        i / self.cols
    }

    pub open spec fn col_of(self, i: int) -> int {
        i % self.cols
    }

    pub open spec fn valid(self, row: int, col: int) -> bool {
        0 <= row < self.rows && 0 <= col < self.cols
    }

    /// The in-bounds orthogonal neighbours of `(row, col)` as linear indices,
    /// in the order below, right, above, left.
    pub open spec fn near(self, row: int, col: int) -> Seq<int> {
        seq_if(row + 1 < self.rows, self.index_of(row + 1, col))
            + seq_if(col + 1 < self.cols, self.index_of(row, col + 1))
            + seq_if(row > 0, self.index_of(row - 1, col))
            + seq_if(col > 0, self.index_of(row, col - 1))
    }

    /// Neighbours of the cell at linear index `i`.
    pub open spec fn near_of(self, i: int) -> Seq<int> {
        self.near(self.row_of(i), self.col_of(i))
    }

    /// Whether the index `j` lies on the board, orthogonally next to
    /// `(row, col)`.
    pub open spec fn adjacent(self, row: int, col: int, j: int) -> bool {
        let (jr, jc) = (self.row_of(j), self.col_of(j));
        &&& 0 <= j < self.cells.len()
        &&& (jr == row && (jc == col + 1 || jc + 1 == col)) || (jc == col && (jr == row + 1 || jr
            + 1 == row))
    }

    /// Number of cells orthogonally next to `(row, col)` inside the board.
    pub open spec fn near_count(self, row: int, col: int) -> int {
        (if row + 1 < self.rows { 1int } else { 0 }) + (if col + 1 < self.cols { 1int } else { 0 })
            + (if row > 0 { 1int } else { 0 }) + (if col > 0 { 1int } else { 0 })
    }

    /// Whether a neighbour of some cell of the request holds `color`.
    pub open spec fn touches(self, req: Seq<u64>, color: DominoColor) -> bool {
        exists|k: int, m: int|
            0 <= k < req.len() && 0 <= m < self.near_of(req[k] as int).len()
                && #[trigger] self.cells[self.near_of(req[k] as int)[m]] == color
    }

    /// Whether a cell on the board orthogonally next to some cell of the
    /// request holds `color`.
    pub open spec fn neighbour_holds(self, req: Seq<u64>, color: DominoColor) -> bool {
        exists|k: int, j: int|
            0 <= k < req.len() && #[trigger] self.adjacent(
                self.row_of(req[k] as int),
                self.col_of(req[k] as int),
                j,
            ) && self.cells[j] == color
    }

    /// `[color]` unless a neighbour of the request already holds it.
    pub open spec fn keep(self, req: Seq<u64>, color: DominoColor) -> Seq<DominoColor> {
        seq_if(!self.touches(req, color), color)
    }

    /// The colours that the whole request may take, in priority order
    /// blue, red, green, yellow.
    pub open spec fn allowed(self, req: Seq<u64>) -> Seq<DominoColor> {
        self.keep(req, DominoColor::Blue) + self.keep(req, DominoColor::Red) + self.keep(
            req,
            DominoColor::Green,
        ) + self.keep(req, DominoColor::Yellow)
    }

    /// The board after every cell of the request is set to `color`.
    pub open spec fn painted(self, req: Seq<u64>, color: DominoColor) -> Board {
        Board {
            rows: self.rows,
            cols: self.cols,
            cells: Seq::new(
                self.cells.len(),
                |j: int|
                    if requested(req, j) {
                        color
                    } else {
                        self.cells[j]
                    },
            ),
        }
    }

    /// How many of the indices in `s` hold an `Empty` cell.
    pub open spec fn count_empty(self, s: Seq<int>) -> nat
        decreases s.len(),
    {
        if s.len() == 0 {
            0
        } else {
            self.count_empty(s.drop_last()) + if self.cells[s.last()] == DominoColor::Empty {
                1nat
            } else {
                0nat
            }
        }
    }

    /// How many neighbours of the cell at index `i` are `Empty`.
    pub open spec fn empty_nears(self, i: int) -> nat {
        self.count_empty(self.near_of(i))
    }
}

/// A valid coordinate has a linear index inside the cell sequence, from
/// which its row and column are read back.
pub proof fn lemma_index_in_bounds(b: Board, row: int, col: int)
    requires
        b.wf(),
        b.valid(row, col),
    ensures
        0 <= b.index_of(row, col) < b.rows * b.cols,
        b.row_of(b.index_of(row, col)) == row,
        b.col_of(b.index_of(row, col)) == col,
{
    assert(0 <= row * b.cols + col < b.rows * b.cols) by (nonlinear_arith)
        requires
            0 <= row < b.rows,
            0 <= col < b.cols,
    ;
    vstd::arithmetic::div_mod::lemma_fundamental_div_mod_converse(
        row * b.cols + col,
        b.cols,
        row,
        col,
    );
}

/// The coordinates of an index inside the cell sequence are valid and map
/// back to that index.
pub proof fn lemma_coords_of_index(b: Board, i: int)
    requires
        b.wf(),
        0 <= i < b.cells.len(),
    ensures
        b.valid(b.row_of(i), b.col_of(i)),
        b.index_of(b.row_of(i), b.col_of(i)) == i,
{
    assert(b.cols > 0) by (nonlinear_arith)
        requires
            0 <= i < b.rows * b.cols,
            b.rows >= 0,
            b.cols >= 0,
    ;
    vstd::arithmetic::div_mod::lemma_fundamental_div_mod(i, b.cols);
    assert(b.cols * (i / b.cols) == (i / b.cols) * b.cols) by (nonlinear_arith);
    assert(i / b.cols < b.rows) by (nonlinear_arith)
        requires
            0 <= i < b.rows * b.cols,
            b.cols > 0,
            i == (i / b.cols) * b.cols + i % b.cols,
            0 <= i % b.cols < b.cols,
    ;
    assert(i / b.cols >= 0) by (nonlinear_arith)
        requires
            0 <= i,
            b.cols > 0,
    ;
}

} // verus!
