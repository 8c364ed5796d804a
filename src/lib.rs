//! A rectangular board of cells on which tiles are coloured with four colours
//! so that no tile shares an edge with a cell of its own colour.

mod area;
mod board;
mod laws;
mod render;

pub use area::{DominoArea, DominoColor};
pub use board::{lemma_coords_of_index, lemma_index_in_bounds, requested, seq_if, Board};
pub use render::{background, block, cell_text, overlay_ok, row_text, rows_text};
pub use laws::{
    lemma_allowed_colors, lemma_allowed_deterministic, lemma_commit, lemma_fresh_empty_nears,
    lemma_index_round_trip, lemma_near_cells,
};
