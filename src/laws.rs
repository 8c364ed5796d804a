//! Laws of the board model that relate its operations to one another.

use vstd::prelude::*;

use crate::area::DominoColor;
use crate::board::{lemma_coords_of_index, lemma_index_in_bounds, requested, Board};

verus! {

/// Converting a valid coordinate to its linear index and back gives the same
/// row and column, and the index rebuilt from the read-back column is the
/// same index.
pub proof fn lemma_index_round_trip(b: Board, row: int, col: int)
    requires
        b.wf(),
        b.valid(row, col),
    ensures
        b.index_of(row, b.col_of(b.index_of(row, col))) == b.index_of(row, col),
        b.row_of(b.index_of(row, col)) == row,
        b.col_of(b.index_of(row, col)) == col,
{
    lemma_index_in_bounds(b, row, col);
}

/// The neighbours of a valid cell are exactly the cells orthogonally next
/// to it on the board, each once and never the cell itself: four inside the
/// board, three on an edge, two in a corner.
pub proof fn lemma_near_cells(b: Board, row: int, col: int)
    requires
        b.wf(),
        b.valid(row, col),
    ensures
        b.near(row, col).len() == b.near_count(row, col),
        b.near(row, col).no_duplicates(),
        forall|m: int|
            0 <= m < b.near(row, col).len() ==> {
                &&& b.adjacent(row, col, #[trigger] b.near(row, col)[m])
                &&& b.near(row, col)[m] != b.index_of(row, col)
            },
        forall|j: int| #[trigger] b.adjacent(row, col, j) ==> b.near(row, col).contains(j),
        0 < row < b.rows - 1 && 0 < col < b.cols - 1 ==> b.near(row, col).len() == 4,
        b.rows >= 2 && (row == 0 || row == b.rows - 1) && 0 < col < b.cols - 1 ==> b.near(
            row,
            col,
        ).len() == 3,
        b.cols >= 2 && (col == 0 || col == b.cols - 1) && 0 < row < b.rows - 1 ==> b.near(
            row,
            col,
        ).len() == 3,
        b.rows >= 2 && b.cols >= 2 && (row == 0 || row == b.rows - 1) && (col == 0 || col
            == b.cols - 1) ==> b.near(row, col).len() == 2,
{
    let s = b.near(row, col);
    lemma_index_in_bounds(b, row, col);
    if row + 1 < b.rows {
        lemma_index_in_bounds(b, row + 1, col);
    }
    if col + 1 < b.cols {
        lemma_index_in_bounds(b, row, col + 1);
    }
    if row > 0 {
        lemma_index_in_bounds(b, row - 1, col);
    }
    if col > 0 {
        lemma_index_in_bounds(b, row, col - 1);
    }
    assert forall|j: int| #[trigger] b.adjacent(row, col, j) implies s.contains(j) by {
        lemma_coords_of_index(b, j);
        let (jr, jc) = (b.row_of(j), b.col_of(j));
        if jr == row + 1 && jc == col {
            assert(s[0] == j);
        } else if jr == row && jc == col + 1 {
            let p = if row + 1 < b.rows { 1int } else { 0 };
            assert(s[p] == j);
        } else if jr + 1 == row && jc == col {
            let p = (if row + 1 < b.rows { 1int } else { 0 }) + (if col + 1 < b.cols { 1int } else { 0 });
            assert(s[p] == j);
        } else {
            assert(s[s.len() - 1] == j);
        }
    }
}

/// After a commit every cell of the request holds the chosen colour, every
/// other cell is as before, and the board keeps its shape.
pub proof fn lemma_commit(b: Board, req: Seq<u64>, color: DominoColor)
    requires
        b.wf(),
        forall|k: int| 0 <= k < req.len() ==> req[k] < b.cells.len(),
    ensures
        b.painted(req, color).wf(),
        b.painted(req, color).rows == b.rows,
        b.painted(req, color).cols == b.cols,
        forall|k: int| 0 <= k < req.len() ==> b.painted(req, color).cells[#[trigger] req[k] as int] == color,
        forall|j: int|
            0 <= j < b.cells.len() && !requested(req, j) ==> #[trigger] b.painted(req, color).cells[j]
                == b.cells[j],
{
    assert forall|k: int| 0 <= k < req.len() implies b.painted(req, color).cells[#[trigger] req[k] as int] == color by {
        assert(requested(req, req[k] as int));
    }
}

/// The colours offered for a request are among blue, red, green and yellow,
/// each at most once, and a colour is offered exactly when no cell on the
/// board next to a cell of the request holds it. So a request whose
/// neighbours show all four colours is offered none.
pub proof fn lemma_allowed_colors(b: Board, req: Seq<u64>)
    requires
        b.wf(),
        forall|k: int| 0 <= k < req.len() ==> req[k] < b.cells.len(),
    ensures
        forall|c: DominoColor| #[trigger] b.touches(req, c) <==> b.neighbour_holds(req, c),
        b.allowed(req).len() <= 4,
        b.allowed(req).no_duplicates(),
        forall|c: DominoColor|
            #[trigger] b.allowed(req).contains(c) <==> (c != DominoColor::Empty && c
                != DominoColor::Unused && !b.touches(req, c)),
        b.touches(req, DominoColor::Blue) && b.touches(req, DominoColor::Red) && b.touches(
            req,
            DominoColor::Green,
        ) && b.touches(req, DominoColor::Yellow) ==> b.allowed(req).len() == 0,
{
    assert forall|c: DominoColor| #[trigger] b.touches(req, c) <==> b.neighbour_holds(req, c) by {
        if b.touches(req, c) {
            let (k, m) = choose|k: int, m: int|
                0 <= k < req.len() && 0 <= m < b.near_of(req[k] as int).len()
                    && #[trigger] b.cells[b.near_of(req[k] as int)[m]] == c;
            let i = req[k] as int;
            lemma_coords_of_index(b, i);
            lemma_near_cells(b, b.row_of(i), b.col_of(i));
            assert(b.adjacent(b.row_of(i), b.col_of(i), b.near_of(i)[m]));
        }
        if b.neighbour_holds(req, c) {
            let (k, j) = choose|k: int, j: int|
                0 <= k < req.len() && #[trigger] b.adjacent(
                    b.row_of(req[k] as int),
                    b.col_of(req[k] as int),
                    j,
                ) && b.cells[j] == c;
            let i = req[k] as int;
            lemma_coords_of_index(b, i);
            lemma_near_cells(b, b.row_of(i), b.col_of(i));
            assert(b.near_of(i).contains(j));
            let m = choose|m: int| 0 <= m < b.near_of(i).len() && b.near_of(i)[m] == j;
            assert(b.cells[b.near_of(req[k] as int)[m]] == c);
        }
    }
    let s = b.allowed(req);
    assert forall|c: DominoColor| #[trigger] s.contains(c) <==> (c != DominoColor::Empty && c
        != DominoColor::Unused && !b.touches(req, c)) by {
        if c != DominoColor::Empty && c != DominoColor::Unused && !b.touches(req, c) {
            let p = match c {
                DominoColor::Blue => 0int,
                DominoColor::Red => b.keep(req, DominoColor::Blue).len() as int,
                DominoColor::Green => (b.keep(req, DominoColor::Blue).len() + b.keep(
                    req,
                    DominoColor::Red,
                ).len()) as int,
                _ => s.len() - 1,
            };
            assert(s[p] == c);
        }
    }
}

/// Asking for the colours of a request is a pure read: on one board state
/// it always gives the same answer.
pub proof fn lemma_allowed_deterministic(b1: Board, b2: Board, req: Seq<u64>)
    requires
        b1 == b2,
    ensures
        b1.allowed(req) == b2.allowed(req),
{
}

/// Counting `Empty` cells among indices that all hold `Empty` counts them all.
proof fn lemma_count_all_empty(b: Board, s: Seq<int>)
    requires
        forall|m: int| 0 <= m < s.len() ==> b.cells[#[trigger] s[m]] == DominoColor::Empty,
    ensures
        b.count_empty(s) == s.len(),
    decreases s.len(),
{
    if s.len() > 0 {
        lemma_count_all_empty(b, s.drop_last());
    }
}

/// On a board whose cells are all `Empty`, each cell's count of empty
/// neighbours is its number of neighbours: four inside, three on an edge and
/// two in a corner.
pub proof fn lemma_fresh_empty_nears(b: Board)
    requires
        b.wf(),
        forall|i: int| 0 <= i < b.cells.len() ==> #[trigger] b.cells[i] == DominoColor::Empty,
    ensures
        forall|i: int|
            0 <= i < b.cells.len() ==> #[trigger] b.empty_nears(i) == b.near_count(
                b.row_of(i),
                b.col_of(i),
            ),
{
    assert forall|i: int| 0 <= i < b.cells.len() implies #[trigger] b.empty_nears(i)
        == b.near_count(b.row_of(i), b.col_of(i)) by {
        lemma_coords_of_index(b, i);
        let (row, col) = (b.row_of(i), b.col_of(i));
        lemma_near_cells(b, row, col);
        assert forall|m: int| 0 <= m < b.near(row, col).len() implies b.cells[#[trigger] b.near(
            row,
            col,
        )[m]] == DominoColor::Empty by {
            assert(b.adjacent(row, col, b.near(row, col)[m]));
        }
        lemma_count_all_empty(b, b.near(row, col));
    }
}

} // verus!
