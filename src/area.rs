//! The board itself: geometry queries, cell access, colour selection and
//! commits, and the empty-neighbour counts.

use vstd::prelude::*;

use crate::board::{lemma_coords_of_index, lemma_index_in_bounds, requested, Board};
use crate::laws::lemma_near_cells;

verus! {

/// State of one cell. `Unused` cells are holes; `Empty` cells await a colour.
#[derive(Debug, Clone, Copy, PartialEq, Eq, Structural)]
pub enum DominoColor {
    Unused,
    Empty,
    Red,
    Green,
    Yellow,
    Blue,
}

/// A `rows` x `cols` board whose cells are kept in row-major order.
#[derive(Debug)]
pub struct DominoArea {
    rows: u64,
    cols: u64,
    cells: Vec<DominoColor>,
}

impl View for DominoArea {
    type V = Board;

    closed spec fn view(&self) -> Board {
        Board { rows: self.rows as int, cols: self.cols as int, cells: self.cells@ }
    }
}

impl DominoArea {
    /// A board of `rows * cols` cells, all `Empty`.
    pub fn create_empty(rows: u64, cols: u64) -> (r: DominoArea)
        requires
            rows * cols <= u64::MAX,
            rows * cols <= usize::MAX,
        ensures
            r@.wf(),
            r@.rows == rows,
            r@.cols == cols,
            r@.cells == Seq::new((rows * cols) as nat, |i: int| DominoColor::Empty),
    {
        let n: usize = (rows * cols) as usize;
        let mut cells: Vec<DominoColor> = Vec::with_capacity(n);
        while cells.len() < n
            invariant
                cells.len() <= n,
                forall|i: int| 0 <= i < cells.len() ==> cells@[i] == DominoColor::Empty,
            decreases n - cells.len(),
        {
            cells.push(DominoColor::Empty);
        }
        let r = DominoArea { rows, cols, cells };
        assert(r@.cells =~= Seq::new((rows * cols) as nat, |i: int| DominoColor::Empty));
        r
    }

    /// Number of rows.
    pub fn rows(&self) -> (r: u64)
        ensures
            r == self@.rows,
    {
        self.rows
    }

    /// Number of columns.
    pub fn cols(&self) -> (r: u64)
        ensures
            r == self@.cols,
    {
        self.cols
    }

    /// Row of the cell at linear index `index`.
    pub fn row_from_index(&self, index: u64) -> (r: u64)
        requires
            self@.cols > 0,
        ensures
            r == self@.row_of(index as int),
    {
        index / self.cols
    }

    /// Column of the cell at linear index `index`.
    pub fn col_from_index(&self, index: u64) -> (r: u64)
        requires
            self@.cols > 0,
        ensures
            r == self@.col_of(index as int),
    {
        index % self.cols
    }

    /// Linear index of `(row, col)`: `row * cols + col`.
    pub fn to_index(&self, row: u64, col: u64) -> (r: u64)
        requires
            self@.index_of(row as int, col as int) <= u64::MAX,
        ensures
            r == self@.index_of(row as int, col as int),
    {
        proof {
            assert(0 <= row * self.cols <= row * self.cols + col) by (nonlinear_arith)
                requires
                    row >= 0,
                    self.cols >= 0,
                    col >= 0,
            ;
        }
        row * self.cols + col
    }

    /// Whether `(row, col)` lies on the board.
    pub fn is_position_valid(&self, row: u64, col: u64) -> (r: bool)
        ensures
            r == self@.valid(row as int, col as int),
    {
        row < self.rows && col < self.cols
    }

    /// Linear indices of the in-bounds orthogonal neighbours of `(row, col)`:
    /// below, right, above and left, each where it exists.
    pub fn get_near_cells(&self, row: u64, col: u64) -> (r: Vec<u64>)
        requires
            self@.wf(),
            self@.valid(row as int, col as int),
        ensures
            r@.len() == self@.near(row as int, col as int).len(),
            forall|m: int|
                0 <= m < r@.len() ==> r@[m] as int == #[trigger] self@.near(row as int, col as int)[m],
    {
        let ghost b = self@;
        let mut r: Vec<u64> = Vec::new();
        if row + 1 < self.rows {
            proof {
                lemma_index_in_bounds(b, row + 1, col as int);
            }
            r.push(self.to_index(row + 1, col));
        }
        if col + 1 < self.cols {
            proof {
                lemma_index_in_bounds(b, row as int, col + 1);
            }
            r.push(self.to_index(row, col + 1));
        }
        if row > 0 {
            proof {
                lemma_index_in_bounds(b, row - 1, col as int);
            }
            r.push(self.to_index(row - 1, col));
        }
        if col > 0 {
            proof {
                lemma_index_in_bounds(b, row as int, col - 1);
            }
            r.push(self.to_index(row, col - 1));
        }
        r
    }

    /// State of the cell at linear index `index`.
    pub fn get_cell_at_index(&self, index: u64) -> (r: &DominoColor)
        requires
            self@.wf(),
            index < self@.cells.len(),
        ensures
            *r == self@.cells[index as int],
    {
        &self.cells[index as usize]
    }

    /// State of the cell at `(row, col)`.
    pub fn get_cell(&self, row: u64, col: u64) -> (r: &DominoColor)
        requires
            self@.wf(),
            self@.valid(row as int, col as int),
        ensures
            *r == self@.cells[self@.index_of(row as int, col as int)],
    {
        proof {
            lemma_index_in_bounds(self@, row as int, col as int);
        }
        self.get_cell_at_index(self.to_index(row, col))
    }

    /// A handle through which the cell at `index` may be overwritten; nothing
    /// else on the board changes.
    pub fn get_cell_at_index_mut(&mut self, index: u64) -> (r: &mut DominoColor)
        requires
            old(self)@.wf(),
            index < old(self)@.cells.len(),
        ensures
            *r == old(self)@.cells[index as int],
            final(self)@.rows == old(self)@.rows,
            final(self)@.cols == old(self)@.cols,
            final(self)@.cells == old(self)@.cells.update(index as int, *final(r)),
    {
        &mut self.cells[index as usize]
    }

    /// A handle through which the cell at `(row, col)` may be overwritten;
    /// nothing else on the board changes.
    pub fn get_cell_mut(&mut self, row: u64, col: u64) -> (r: &mut DominoColor)
        requires
            old(self)@.wf(),
            old(self)@.valid(row as int, col as int),
        ensures
            *r == old(self)@.cells[old(self)@.index_of(row as int, col as int)],
            final(self)@.rows == old(self)@.rows,
            final(self)@.cols == old(self)@.cols,
            final(self)@.cells == old(self)@.cells.update(
                old(self)@.index_of(row as int, col as int),
                *final(r),
            ),
    {
        proof {
            lemma_index_in_bounds(self@, row as int, col as int);
        }
        let index = self.to_index(row, col);
        self.get_cell_at_index_mut(index)
    }

    /// Whether some in-bounds neighbour of a cell of the request holds `color`.
    fn touches_color(&self, indexes: &[u64], color: DominoColor) -> (r: bool)
        requires
            self@.wf(),
            forall|k: int| 0 <= k < indexes@.len() ==> indexes@[k] < self@.cells.len(),
        ensures
            r == self@.touches(indexes@, color),
    {
        let ghost b = self@;
        let mut k: usize = 0;
        while k < indexes.len()
            invariant
                b == self@,
                b.wf(),
                k <= indexes@.len(),
                forall|k: int| 0 <= k < indexes@.len() ==> indexes@[k] < b.cells.len(),
                forall|k2: int, m: int|
                    0 <= k2 < k && 0 <= m < b.near_of(indexes@[k2] as int).len()
                        ==> b.cells[b.near_of(indexes@[k2] as int)[m]] != color,
            decreases indexes@.len() - k,
        {
            let index = indexes[k];
            proof {
                lemma_coords_of_index(b, index as int);
            }
            let row = self.row_from_index(index);
            let col = self.col_from_index(index);
            let near = self.get_near_cells(row, col);
            proof {
                lemma_near_cells(b, row as int, col as int);
                assert forall|m2: int| 0 <= m2 < near@.len() implies near@[m2] < b.cells.len() by {
                    assert(b.adjacent(row as int, col as int, b.near(row as int, col as int)[m2]));
                }
            }
            let mut m: usize = 0;
            while m < near.len()
                invariant
                    b == self@,
                    b.wf(),
                    k < indexes@.len(),
                    index == indexes@[k as int],
                    m <= near@.len(),
                    near@.len() == b.near_of(index as int).len(),
                    forall|m2: int|
                        0 <= m2 < near@.len() ==> near@[m2] as int == #[trigger] b.near_of(
                            index as int,
                        )[m2],
                    forall|m2: int| 0 <= m2 < near@.len() ==> near@[m2] < b.cells.len(),
                    forall|m2: int|
                        0 <= m2 < m ==> b.cells[b.near_of(index as int)[m2]] != color,
                decreases near@.len() - m,
            {
                if *self.get_cell_at_index(near[m]) == color {
                    assert(b.cells[b.near_of(indexes@[k as int] as int)[m as int]] == color);
                    return true;
                }
                m += 1;
            }
            k += 1;
        }
        false
    }

    /// The colours, in the order blue, red, green, yellow, that no in-bounds
    /// neighbour of any cell of the request already holds. Every cell of the
    /// request must be `Empty`.
    pub fn get_valid_colors(&self, indexes: &[u64]) -> (r: Vec<DominoColor>)
        requires
            self@.wf(),
            forall|k: int|
                0 <= k < indexes@.len() ==> indexes@[k] < self@.cells.len() && self@.cells[
                    indexes@[k] as int] == DominoColor::Empty,
        ensures
            r@ == self@.allowed(indexes@),
    {
        let mut r: Vec<DominoColor> = Vec::new();
        if !self.touches_color(indexes, DominoColor::Blue) {
            r.push(DominoColor::Blue);
        }
        if !self.touches_color(indexes, DominoColor::Red) {
            r.push(DominoColor::Red);
        }
        if !self.touches_color(indexes, DominoColor::Green) {
            r.push(DominoColor::Green);
        }
        if !self.touches_color(indexes, DominoColor::Yellow) {
            r.push(DominoColor::Yellow);
        }
        assert(r@ =~= self@.allowed(indexes@));
        r
    }

    /// Sets every cell of the request to `color`; no other cell changes.
    pub fn set_valid_color(&mut self, indexes: &[u64], color: DominoColor)
        requires
            old(self)@.wf(),
            forall|k: int| 0 <= k < indexes@.len() ==> indexes@[k] < old(self)@.cells.len(),
        ensures
            final(self)@ == old(self)@.painted(indexes@, color),
    {
        let ghost b = self@;
        let mut k: usize = 0;
        while k < indexes.len()
            invariant
                b.wf(),
                k <= indexes@.len(),
                forall|k: int| 0 <= k < indexes@.len() ==> indexes@[k] < b.cells.len(),
                self@.rows == b.rows,
                self@.cols == b.cols,
                self@.cells.len() == b.cells.len(),
                forall|j: int|
                    0 <= j < b.cells.len() ==> #[trigger] self@.cells[j] == if requested(
                        indexes@.subrange(0, k as int),
                        j,
                    ) {
                        color
                    } else {
                        b.cells[j]
                    },
            decreases indexes@.len() - k,
        {
            let index = indexes[k];
            let cell = self.get_cell_at_index_mut(index);
            *cell = color;
            proof {
                assert forall|j: int| 0 <= j < b.cells.len() implies #[trigger] self@.cells[j]
                    == if requested(indexes@.subrange(0, k + 1), j) {
                    color
                } else {
                    b.cells[j]
                } by {
                    if requested(indexes@.subrange(0, k as int), j) {
                        let k2 = choose|k2: int|
                            0 <= k2 < k && #[trigger] indexes@.subrange(0, k as int)[k2] as int == j;
                        assert(indexes@.subrange(0, k + 1)[k2] as int == j);
                    }
                    if j == index {
                        assert(indexes@.subrange(0, k + 1)[k as int] as int == j);
                    }
                    if requested(indexes@.subrange(0, k + 1), j) && j != index {
                        let k2 = choose|k2: int|
                            0 <= k2 < k + 1 && #[trigger] indexes@.subrange(0, k + 1)[k2] as int == j;
                        assert(indexes@.subrange(0, k as int)[k2] as int == j);
                    }
                }
            }
            k += 1;
        }
        assert(indexes@.subrange(0, indexes@.len() as int) =~= indexes@);
        assert(self@.cells =~= b.painted(indexes@, color).cells);
    }

    /// For each cell, in index order, how many of its in-bounds neighbours
    /// are `Empty`.
    pub fn compute_empty_nears(&self) -> (r: Vec<u64>)
        requires
            self@.wf(),
        ensures
            r@.len() == self@.cells.len(),
            forall|i: int| 0 <= i < r@.len() ==> r@[i] as int == #[trigger] self@.empty_nears(i),
    {
        let ghost b = self@;
        let n: usize = self.cells.len();
        let mut r: Vec<u64> = Vec::with_capacity(n);
        let mut index: usize = 0;
        while index < n
            invariant
                b == self@,
                b.wf(),
                n == b.cells.len(),
                index <= n,
                r@.len() == index,
                forall|i: int| 0 <= i < index ==> r@[i] as int == #[trigger] b.empty_nears(i),
            decreases n - index,
        {
            proof {
                lemma_coords_of_index(b, index as int);
            }
            let row = self.row_from_index(index as u64);
            let col = self.col_from_index(index as u64);
            let near = self.get_near_cells(row, col);
            proof {
                lemma_near_cells(b, row as int, col as int);
                assert forall|m2: int| 0 <= m2 < near@.len() implies near@[m2] < b.cells.len() by {
                    assert(b.adjacent(row as int, col as int, b.near(row as int, col as int)[m2]));
                }
            }
            let ghost s = b.near_of(index as int);
            let mut count: u64 = 0;
            let mut m: usize = 0;
            while m < near.len()
                invariant
                    b == self@,
                    b.wf(),
                    index < n,
                    n == b.cells.len(),
                    s == b.near_of(index as int),
                    m <= near@.len(),
                    near@.len() == s.len(),
                    near@.len() <= 4,
                    forall|m2: int| 0 <= m2 < near@.len() ==> near@[m2] as int == #[trigger] s[m2],
                    forall|m2: int| 0 <= m2 < near@.len() ==> near@[m2] < b.cells.len(),
                    count == b.count_empty(s.subrange(0, m as int)),
                    count <= m,
                decreases near@.len() - m,
            {
                proof {
                    assert(s.subrange(0, m + 1).drop_last() =~= s.subrange(0, m as int));
                }
                if *self.get_cell_at_index(near[m]) == DominoColor::Empty {
                    count += 1;
                }
                m += 1;
            }
            proof {
                assert(s.subrange(0, s.len() as int) =~= s);
            }
            r.push(count);
            index += 1;
        }
        r
    }
}

} // verus!
