//! A text picture of the board: one two-character block per cell on a
//! terminal background of the cell's colour, one line per row.

use vstd::prelude::*;
use vstd::string::StringExecFns;

use crate::area::{DominoArea, DominoColor};
use crate::board::{requested, Board};

verus! {

/// Escape sequence that sets the background for a cell state.
pub open spec fn background(c: DominoColor) -> Seq<char> {
    match c {
        DominoColor::Empty => "\x1b[47m"@,
        DominoColor::Red => "\x1b[41m"@,
        DominoColor::Green => "\x1b[42m"@,
        DominoColor::Yellow => "\x1b[43m"@,
        DominoColor::Blue => "\x1b[44m"@,
        DominoColor::Unused => "\x1b[40m"@,
    }
}

/// The two characters shown for cell `i`: its non-empty overlay text if
/// there is one, else a star when it is highlighted, else two spaces.
pub open spec fn block(highlights: Seq<u64>, custom: Seq<String>, i: int) -> Seq<char> {
    if 0 <= i < custom.len() && custom[i]@.len() > 0 {
        custom[i]@
    } else if requested(highlights, i) {
        "\u{272a} "@
    } else {
        "  "@
    }
}

/// The overlay texts of the first `n` cells are either empty or exactly two
/// characters wide.
pub open spec fn overlay_ok(custom: Seq<String>, n: int) -> bool {
    forall|i: int|
        0 <= i < custom.len() && i < n ==> #[trigger] custom[i]@.len() == 0 || custom[i]@.len()
            == 2
}

/// Text of the cell at index `i`.
pub open spec fn cell_text(b: Board, highlights: Seq<u64>, custom: Seq<String>, i: int) -> Seq<
    char,
> {
    background(b.cells[i]) + "\x1b[30m"@ + block(highlights, custom, i) + "\x1b[0m"@
}

/// Text of the first `n` cells of row `row`.
pub open spec fn row_text(b: Board, highlights: Seq<u64>, custom: Seq<String>, row: int, n: int) -> Seq<
    char,
>
    decreases n,
{
    if n <= 0 {
        Seq::empty()
    } else {
        row_text(b, highlights, custom, row, n - 1) + cell_text(
            b,
            highlights,
            custom,
            b.index_of(row, n - 1),
        )
    }
}

/// Text of the first `n` rows, each ended by a line break.
pub open spec fn rows_text(b: Board, highlights: Seq<u64>, custom: Seq<String>, n: int) -> Seq<char>
    decreases n,
{
    if n <= 0 {
        Seq::empty()
    } else {
        rows_text(b, highlights, custom, n - 1) + row_text(b, highlights, custom, n - 1, b.cols)
            + "\n"@
    }
}

fn background_code(c: DominoColor) -> (r: &'static str)
    ensures
        r@ == background(c),
{
    match c {
        DominoColor::Empty => "\x1b[47m",
        DominoColor::Red => "\x1b[41m",
        DominoColor::Green => "\x1b[42m",
        DominoColor::Yellow => "\x1b[43m",
        DominoColor::Blue => "\x1b[44m",
        DominoColor::Unused => "\x1b[40m",
    }
}

fn is_highlighted(highlights: &[u64], index: u64) -> (r: bool)
    ensures
        r == requested(highlights@, index as int),
{
    let mut k: usize = 0;
    while k < highlights.len()
        invariant
            k <= highlights@.len(),
            forall|k2: int| 0 <= k2 < k ==> highlights@[k2] != index,
        decreases highlights@.len() - k,
    {
        if highlights[k] == index {
            return true;
        }
        k += 1;
    }
    false
}

impl DominoArea {
    /// The board as text. Cells listed in `highlights` show a star; a
    /// non-empty entry of `custom` replaces the block of the cell with the
    /// same index.
    pub fn custom_fmt(&self, highlights: &[u64], custom: &[String]) -> (r: String)
        requires
            self@.wf(),
            overlay_ok(custom@, self@.cells.len() as int),
        ensures
            r@ == rows_text(self@, highlights@, custom@, self@.rows),
    {
        let ghost b = self@;
        let ghost h = highlights@;
        let ghost cu = custom@;
        let mut out = String::new();
        let rows = self.rows();
        let cols = self.cols();
        let mut row: u64 = 0;
        while row < rows
            invariant
                b == self@,
                b.wf(),
                h == highlights@,
                cu == custom@,
                rows == b.rows,
                cols == b.cols,
                row <= b.rows,
                out@ == rows_text(b, h, cu, row as int),
            decreases b.rows - row,
        {
            let mut col: u64 = 0;
            while col < cols
                invariant
                    b == self@,
                    b.wf(),
                    h == highlights@,
                    cu == custom@,
                    rows == b.rows,
                    cols == b.cols,
                    row < b.rows,
                    col <= b.cols,
                    out@ == rows_text(b, h, cu, row as int) + row_text(b, h, cu, row as int, col as int),
                decreases b.cols - col,
            {
                proof {
                    crate::board::lemma_index_in_bounds(b, row as int, col as int);
                }
                let index = self.to_index(row, col);
                let mut text: &str = "  ";
                if is_highlighted(highlights, index) {
                    text = "\u{272a} ";
                }
                if (index as usize) < custom.len() && !custom[index as usize].as_str().is_empty() {
                    text = custom[index as usize].as_str();
                }
                let cell = self.get_cell(row, col);
                out.append(background_code(*cell));
                out.append("\x1b[30m");
                out.append(text);
                out.append("\x1b[0m");
                proof {
                    assert(text@ == block(h, cu, index as int));
                    assert(out@ =~= rows_text(b, h, cu, row as int) + row_text(b, h, cu, row as int, col + 1));
                }
                col += 1;
            }
            out.append("\n");
            proof {
                assert(out@ =~= rows_text(b, h, cu, row + 1));
            }
            row += 1;
        }
        out
    }
}

} // verus!
