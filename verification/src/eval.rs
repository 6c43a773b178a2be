//! A quick estimate of how well a snake stands on a board.

use vstd::prelude::*;
use crate::board::{health_of, length_of, mobility_of, Board};
use crate::types::SnakeId;

verus! {

/// A tenth of the snake's health, its length, and two for every neighbouring
/// cell of its head that lies on the board.
pub open spec fn evaluation(board: Board, you: SnakeId) -> int {
    health_of(board, you.0) / 10 + length_of(board, you.0) + 2 * mobility_of(board, you.0)
}

/// Rates the board for the snake `you`.
pub fn evaluate_board(board: &Board, you: &SnakeId) -> (score: u32)
    requires
        you.0 < 4,
    ensures
        score == evaluation(*board, *you),
{
    let health: u32 = board.get_health(*you) as u32;
    let length: u32 = board.get_length(*you) as u32;
    let mobility: u32 = board.count_possible_moves(*you) as u32;
    health / 10 + length + 2 * mobility
}

} // verus!
