//! An agent that searches a fixed number of turns ahead.

use vstd::prelude::*;
use crate::agent::Agent;
use crate::board::{health_of, length_of, mobility_of, move_lists_view, Board, JointMove};
use crate::combinations::{combinations, generate_move_combinations, joint_moves_view};
use crate::moves::{candidate_moves, candidates, trial, trial_moves};
use crate::selection::is_first_maximum;
use crate::types::{Move, SnakeId};

verus! {

/// The lists that hold at least one move, in their order.
pub open spec fn with_moves(lists: Seq<(SnakeId, Seq<Move>)>) -> Seq<(SnakeId, Seq<Move>)>
    decreases lists.len(),
{
    if lists.len() == 0 {
        lists
    } else if lists.last().1.len() > 0 {
        with_moves(lists.drop_last()).push(lists.last())
    } else {
        with_moves(lists.drop_last())
    }
}

/// Where every list holds a move, none is left out.
pub proof fn with_moves_keeps_all(lists: Seq<(SnakeId, Seq<Move>)>)
    requires
        forall|i: int| 0 <= i < lists.len() ==> (#[trigger] lists[i]).1.len() > 0,
    ensures
        with_moves(lists) == lists,
    decreases lists.len(),
{
    if lists.len() > 0 {
        assert(lists.last() == lists[lists.len() - 1]);
        assert forall|i: int| 0 <= i < lists.drop_last().len() implies (
        #[trigger] lists.drop_last()[i]).1.len() > 0 by {
            assert(lists.drop_last()[i] == lists[i]);
        }
        with_moves_keeps_all(lists.drop_last());
        assert(lists.drop_last().push(lists.last()) =~= lists);
    }
}

/// What a board is worth to `you`: 10000 for a game won, -10000 for a game
/// that ended otherwise, and for a game that goes on the health, ten times
/// the length, and five for every way the head can turn.
pub open spec fn position_value(board: Board, you: SnakeId) -> int {
    if board.over() {
        if board.winner() == Some(you) {
            10000
        } else {
            -10000
        }
    } else {
        health_of(board, you.0) + length_of(board, you.0) * 10 + mobility_of(board, you.0) * 5
    }
}

/// The joint moves that the search tries on a board.
pub open spec fn joint_moves(board: Board) -> Seq<Seq<(SnakeId, Move)>> {
    combinations(with_moves(board.reasonable_moves()))
}

/// The greater of two numbers.
pub open spec fn larger(a: int, b: int) -> int {
    if a >= b {
        a
    } else {
        b
    }
}

/// The lesser of two numbers.
pub open spec fn smaller(a: int, b: int) -> int {
    if a <= b {
        a
    } else {
        b
    }
}

/// The value of a board `depth` turns ahead, between the bounds `alpha` and
/// `beta`: the position value at depth 0, on a finished board and where no
/// joint move can be tried; else the result of trying the joint moves in
/// their order.
pub open spec fn minimax_value(
    board: Board,
    you: SnakeId,
    depth: nat,
    alpha: int,
    beta: int,
    maximizing: bool,
) -> int
    decreases depth, 1nat, 0nat,
{
    if depth == 0 || board.over() || board.reasonable_moves().len() == 0 || joint_moves(
        board,
    ).len() == 0 {
        position_value(board, you)
    } else {
        sweep(
            board,
            you,
            depth,
            alpha,
            beta,
            maximizing,
            0,
            if maximizing {
                i32::MIN as int
            } else {
                i32::MAX as int
            },
        )
    }
}

/// The result of trying the joint moves of a board from place `from` on,
/// when `best` is the best value so far. A joint move for which the
/// simulator yields no board is passed over. The value of each board that
/// follows is taken one turn less ahead and for the other side; it improves
/// `best` and narrows the bounds, and the sweep ends as soon as the bounds
/// meet.
pub open spec fn sweep(
    board: Board,
    you: SnakeId,
    depth: nat,
    alpha: int,
    beta: int,
    maximizing: bool,
    from: nat,
    best: int,
) -> int
    decreases depth, 0nat, joint_moves(board).len() - from,
{
    if depth == 0 || from >= joint_moves(board).len() {
        best
    } else {
        match board.successor(joint_moves(board)[from as int]) {
            None => sweep(board, you, depth, alpha, beta, maximizing, from + 1, best),
            Some(next) => {
                let value = minimax_value(
                    next,
                    you,
                    (depth - 1) as nat,
                    alpha,
                    beta,
                    !maximizing,
                );
                if maximizing {
                    if beta <= larger(alpha, value) {
                        larger(best, value)
                    } else {
                        sweep(
                            board,
                            you,
                            depth,
                            larger(alpha, value),
                            beta,
                            maximizing,
                            from + 1,
                            larger(best, value),
                        )
                    }
                } else {
                    if smaller(beta, value) <= alpha {
                        smaller(best, value)
                    } else {
                        sweep(
                            board,
                            you,
                            depth,
                            alpha,
                            smaller(beta, value),
                            maximizing,
                            from + 1,
                            smaller(best, value),
                        )
                    }
                }
            },
        }
    }
}

/// A minimax agent with alpha-beta pruning.
pub struct MinimaxAgent {
    name: String,
    depth: u32,
}

impl MinimaxAgent {
    /// Number of turns the agent looks ahead.
    pub closed spec fn horizon(&self) -> u32 {
        self.depth
    }

    /// An agent named "Minimax" that looks `depth` turns ahead.
    pub fn new(depth: u32) -> (agent: Self)
        ensures
            agent.label() == "Minimax"@,
            agent.horizon() == depth,
    {
        MinimaxAgent { name: "Minimax".to_owned(), depth }
    }

    /// An agent of the given name that looks `depth` turns ahead.
    pub fn with_name(name: String, depth: u32) -> (agent: Self)
        ensures
            agent.label() == name@,
            agent.horizon() == depth,
    {
        MinimaxAgent { name, depth }
    }
}

impl MinimaxAgent {
    /// Number of turns that the search looks ahead after the first move.
    pub open spec fn lookahead(&self) -> nat {
        if self.horizon() > 0 {
            (self.horizon() - 1) as nat
        } else {
            0
        }
    }

    /// The value of the candidate move at place `i`: the least `i32` where
    /// the trial of the move yields no board, else the value of the board
    /// that follows, searched for the other side.
    pub open spec fn move_value(&self, board: Board, you: SnakeId, i: int) -> int {
        match board.successor(trial(board, you, candidates(board, you)[i])) {
            None => i32::MIN as int,
            Some(next) => minimax_value(
                next,
                you,
                self.lookahead(),
                i32::MIN as int,
                i32::MAX as int,
                false,
            ),
        }
    }

    /// The values of the candidate moves, in their order.
    pub open spec fn values(&self, board: Board, you: SnakeId) -> Seq<int> {
        Seq::new(candidates(board, you).len(), |i: int| self.move_value(board, you, i))
    }

    /// Rates a board for `you`.
    pub fn evaluate(&self, board: &Board, you: SnakeId) -> (value: i32)
        requires
            you.0 < 4,
        ensures
            value == position_value(*board, you),
    {
        if board.is_over() {
            return match board.get_winner() {
                Some(w) => if w.0 == you.0 {
                    10000
                } else {
                    -10000
                },
                None => -10000,
            };
        }
        let health: i32 = board.get_health(you) as i32;
        let length: i32 = board.get_length(you) as i32;
        let moves: i32 = board.count_possible_moves(you) as i32;
        health + length * 10 + moves * 5
    }

    /// All joint moves over the lists that hold a move, in mixed-radix order
    /// with the last snake's move changing fastest.
    pub fn generate_move_combinations(snake_moves: &Vec<(SnakeId, Vec<Move>)>) -> (all: Vec<
        JointMove,
    >)
        ensures
            joint_moves_view(all@) == combinations(with_moves(move_lists_view(snake_moves@))),
    {
        let mut kept: Vec<(SnakeId, Vec<Move>)> = Vec::new();
        let mut i: usize = 0;
        while i < snake_moves.len()
            invariant
                i <= snake_moves@.len(),
                move_lists_view(kept@) == with_moves(move_lists_view(snake_moves@.take(i as int))),
            decreases snake_moves@.len() - i,
        {
            let ghost before = move_lists_view(kept@);
            proof {
                let seen = move_lists_view(snake_moves@.take(i + 1));
                assert(seen.drop_last() =~= move_lists_view(snake_moves@.take(i as int)));
                assert(seen.last() == (snake_moves@[i as int].0, snake_moves@[i as int].1@));
            }
            if snake_moves[i].1.len() > 0 {
                let mut moves: Vec<Move> = Vec::new();
                let mut k: usize = 0;
                while k < snake_moves[i].1.len()
                    invariant
                        i < snake_moves@.len(),
                        k <= snake_moves@[i as int].1@.len(),
                        moves@ == snake_moves@[i as int].1@.take(k as int),
                    decreases snake_moves@[i as int].1@.len() - k,
                {
                    moves.push(snake_moves[i].1[k]);
                    assert(moves@ =~= snake_moves@[i as int].1@.take(k + 1));
                    k = k + 1;
                }
                assert(moves@ =~= snake_moves@[i as int].1@);
                kept.push((snake_moves[i].0, moves));
                assert(move_lists_view(kept@) =~= before.push(
                    (snake_moves@[i as int].0, snake_moves@[i as int].1@),
                ));
            }
            i = i + 1;
        }
        assert(snake_moves@.take(i as int) =~= snake_moves@);
        let iter = generate_move_combinations(kept);
        let all = iter.collect();
        assert(joint_moves_view(all@) =~= combinations(
            with_moves(move_lists_view(snake_moves@)),
        ));
        all
    }

    /// The minimax value of a board with alpha-beta pruning.
    pub fn minimax(
        &self,
        board: &Board,
        you: SnakeId,
        depth: u32,
        alpha: i32,
        beta: i32,
        maximizing: bool,
    ) -> (value: i32)
        requires
            you.0 < 4,
        ensures
            value == minimax_value(*board, you, depth as nat, alpha as int, beta as int, maximizing),
        decreases depth,
    {
        if depth == 0 || board.is_over() {
            return self.evaluate(board, you);
        }
        let snake_moves = board.reasonable_moves_for_each_snake();
        if snake_moves.len() == 0 {
            return self.evaluate(board, you);
        }
        let combos = MinimaxAgent::generate_move_combinations(&snake_moves);
        if combos.len() == 0 {
            return self.evaluate(board, you);
        }
        proof {
            let lists = board.reasonable_moves();
            assert forall|i: int| 0 <= i < lists.len() implies (#[trigger] lists[i]).1.len()
                > 0 by {
                assert(move_lists_view(snake_moves@)[i].1 == snake_moves@[i].1@);
            }
            with_moves_keeps_all(lists);
        }
        let ghost goal = minimax_value(
            *board,
            you,
            depth as nat,
            alpha as int,
            beta as int,
            maximizing,
        );
        let mut low: i32 = alpha;
        let mut high: i32 = beta;
        let mut best: i32 = if maximizing {
            i32::MIN
        } else {
            i32::MAX
        };
        let mut i: usize = 0;
        while i < combos.len()
            invariant
                you.0 < 4,
                depth > 0,
                i <= combos@.len(),
                joint_moves_view(combos@) == joint_moves(*board),
                with_moves(board.reasonable_moves()) == board.reasonable_moves(),
                goal == minimax_value(
                    *board,
                    you,
                    depth as nat,
                    alpha as int,
                    beta as int,
                    maximizing,
                ),
                goal == sweep(
                    *board,
                    you,
                    depth as nat,
                    low as int,
                    high as int,
                    maximizing,
                    i as nat,
                    best as int,
                ),
            decreases combos@.len() - i,
        {
            proof {
                let lists = board.reasonable_moves();
                let joint = joint_moves(*board)[i as int];
                assert(joint == joint_moves_view(combos@)[i as int]);
                assert(joint == combos@[i as int]@);
                assert(board.covered_by(joint)) by {
                    assert forall|k: int| 0 <= k < joint.len() implies (#[trigger] joint[k]).0
                        == lists[k].0 by {}
                }
            }
            match board.simulate_with_moves(&combos[i]) {
                Some((_, next)) => {
                    let value = self.minimax(&next, you, depth - 1, low, high, !maximizing);
                    assert(board.successor(joint_moves(*board)[i as int]) == Some(next));
                    if maximizing {
                        if value > best {
                            best = value;
                        }
                        if value > low {
                            low = value;
                        }
                    } else {
                        if value < best {
                            best = value;
                        }
                        if value < high {
                            high = value;
                        }
                    }
                    if high <= low {
                        return best;
                    }
                },
                None => {},
            }
            i = i + 1;
        }
        best
    }
}

impl Default for MinimaxAgent {
    /// An agent that looks three turns ahead.
    fn default() -> (agent: Self)
        ensures
            agent.label() == "Minimax"@,
            agent.horizon() == 3,
    {
        MinimaxAgent::new(3)
    }
}

impl Agent for MinimaxAgent {
    closed spec fn label(&self) -> Seq<char> {
        self.name@
    }

    /// The candidate move of the greatest value, the first such move where
    /// several share it; `Up` where there is no candidate.
    open spec fn may_choose(&self, board: Board, you: SnakeId, m: Move) -> bool {
        &&& candidates(board, you).len() == 0 ==> m == Move::Up
        &&& candidates(board, you).len() > 0 ==> exists|at: int| #[trigger]
            is_first_maximum(self.values(board, you), at) && m == candidates(board, you)[at]
    }

    fn name(&self) -> (name: &str) {
        self.name.as_str()
    }

    /// Searches below every candidate move and gives the best.
    fn choose_move(&self, board: &Board, you: SnakeId) -> (m: Move) {
        let moves = candidate_moves(board, you);
        if moves.len() == 0 {
            return Move::Up;
        }
        let below: u32 = if self.depth > 0 {
            self.depth - 1
        } else {
            0
        };
        let ghost values = self.values(*board, you);
        let mut at: usize = 0;
        let mut best_score: i32 = i32::MIN;
        let mut i: usize = 0;
        while i < moves.len()
            invariant
                you.0 < 4,
                below == self.lookahead(),
                moves@ == candidates(*board, you),
                values == self.values(*board, you),
                moves@.len() > 0,
                i <= moves@.len(),
                at < moves@.len(),
                i == 0 ==> at == 0 && best_score == i32::MIN,
                i > 0 ==> at < i && best_score == values[at as int],
                forall|j: int| 0 <= j < i ==> #[trigger] values[j] <= best_score,
                forall|j: int| 0 <= j < at ==> #[trigger] values[j] < best_score,
            decreases moves@.len() - i,
        {
            let joint = trial_moves(board, you, moves[i]);
            let score: i32 = match board.simulate_with_moves(&joint) {
                Some((_, next)) => self.minimax(&next, you, below, i32::MIN, i32::MAX, false),
                None => i32::MIN,
            };
            assert(score == values[i as int]);
            if score > best_score {
                best_score = score;
                at = i;
            }
            i = i + 1;
        }
        assert(is_first_maximum(values, at as int));
        moves[at]
    }
}

} // verus!
