//! An agent that rates each of its moves by simple rules.

use vstd::prelude::*;
use crate::agent::Agent;
use crate::board::{food_of, head_of, health_of, length_of, mobility_of, Board};
use crate::moves::{candidate_moves, candidates, trial, trial_moves};
use crate::selection::{is_last_maximum, last_maximum};
use crate::types::{Move, SnakeId};

verus! {

/// Number of steps between two cells when only the four directions are
/// taken.
pub open spec fn distance(a: (i32, i32), b: (i32, i32)) -> int {
    (if a.0 >= b.0 {
        a.0 - b.0
    } else {
        b.0 - a.0
    }) + (if a.1 >= b.1 {
        a.1 - b.1
    } else {
        b.1 - a.1
    })
}

/// The least distance from `from` to one of the cells; the largest `i32`
/// where the cells are far off or there is none.
pub open spec fn nearest(from: (i32, i32), cells: Seq<(i32, i32)>) -> int
    decreases cells.len(),
{
    if cells.len() == 0 {
        i32::MAX as int
    } else {
        let rest = nearest(from, cells.drop_last());
        if distance(from, cells.last()) < rest {
            distance(from, cells.last())
        } else {
            rest
        }
    }
}

/// What food at the given distance is worth to a hungry snake: five for
/// every step that it is nearer than twenty steps.
pub open spec fn hunger_bonus(steps: int) -> int {
    if steps < 20 {
        (20 - steps) * 5
    } else {
        0
    }
}

/// The rating of a move: ten for every way the head can turn afterwards,
/// the bonus for food, the length, and less two for every point of health
/// below 20.
pub open spec fn rating(mobility: int, bonus: int, length: int, health: int) -> int {
    mobility * 10 + bonus + length - if health < 20 {
        (20 - health) * 2
    } else {
        0
    }
}

/// The rating of a move from its parts.
pub fn rate(mobility: usize, bonus: i32, length: u16, health: u8) -> (score: i32)
    requires
        mobility <= 4,
        0 <= bonus <= 100,
    ensures
        score == rating(mobility as int, bonus as int, length as int, health as int),
{
    let mut score: i32 = mobility as i32 * 10;
    score = score + bonus;
    score = score + length as i32;
    if health < 20 {
        score = score - (20 - health as i32) * 2;
    }
    score
}

/// The least distance from `from` to one of the cells.
pub fn nearest_cell(from: (i32, i32), cells: &Vec<(i32, i32)>) -> (steps: i64)
    ensures
        steps == nearest(from, cells@),
        steps >= 0,
{
    let mut least: i64 = i32::MAX as i64;
    let mut i: usize = 0;
    while i < cells.len()
        invariant
            i <= cells@.len(),
            least == nearest(from, cells@.take(i as int)),
            0 <= least <= i32::MAX,
        decreases cells@.len() - i,
    {
        proof {
            assert(cells@.take(i + 1).drop_last() =~= cells@.take(i as int));
        }
        let cell = cells[i];
        let dx: i64 = if from.0 >= cell.0 {
            from.0 as i64 - cell.0 as i64
        } else {
            cell.0 as i64 - from.0 as i64
        };
        let dy: i64 = if from.1 >= cell.1 {
            from.1 as i64 - cell.1 as i64
        } else {
            cell.1 as i64 - from.1 as i64
        };
        if dx + dy < least {
            least = dx + dy;
        }
        i = i + 1;
    }
    assert(cells@.take(i as int) =~= cells@);
    least
}

/// A heuristic-based agent: it keeps room to move, looks for food when its
/// health is low, and values length and health.
pub struct HeuristicAgent {
    name: String,
    /// Health below which the snake looks for food.
    hunger_threshold: u8,
}

impl HeuristicAgent {
    /// The health below which the agent looks for food.
    pub closed spec fn hunger(&self) -> u8 {
        self.hunger_threshold
    }

    /// An agent named "Heuristic" that looks for food below a health of 30.
    pub fn new() -> (agent: Self)
        ensures
            agent.label() == "Heuristic"@,
            agent.hunger() == 30,
    {
        HeuristicAgent { name: "Heuristic".to_owned(), hunger_threshold: 30 }
    }

    /// An agent of the given name that looks for food below a health of 30.
    pub fn with_name(name: String) -> (agent: Self)
        ensures
            agent.label() == name@,
            agent.hunger() == 30,
    {
        HeuristicAgent { name, hunger_threshold: 30 }
    }

    /// The same agent with another health below which it looks for food.
    pub fn with_hunger_threshold(self, threshold: u8) -> (agent: Self)
        ensures
            agent.label() == self.label(),
            agent.hunger() == threshold,
    {
        let mut agent = self;
        agent.hunger_threshold = threshold;
        agent
    }
}

impl HeuristicAgent {
    /// What the move `mv` is worth to `you`: the least `i32` where the trial
    /// yields no board or leaves `you` dead, else the rating of the board
    /// after the trial, with the bonus for the nearest food where the health
    /// is below the hunger threshold and there is food.
    pub open spec fn move_value(&self, board: Board, you: SnakeId, mv: Move) -> int {
        match board.successor(trial(board, you, mv)) {
            None => i32::MIN as int,
            Some(next) => if health_of(next, you.0) == 0 {
                i32::MIN as int
            } else {
                rating(
                    mobility_of(next, you.0) as int,
                    if health_of(board, you.0) < self.hunger() && food_of(board).len() > 0 {
                        hunger_bonus(nearest(head_of(board, you.0), food_of(board)))
                    } else {
                        0
                    },
                    length_of(board, you.0) as int,
                    health_of(board, you.0) as int,
                )
            },
        }
    }

    /// The values of the candidate moves, in their order.
    pub open spec fn values(&self, board: Board, you: SnakeId) -> Seq<i64> {
        Seq::new(
            candidates(board, you).len(),
            |i: int| self.move_value(board, you, candidates(board, you)[i]) as i64,
        )
    }

    /// Rates the move `mv` of the snake `you`.
    pub fn score_move(&self, board: &Board, you: SnakeId, mv: Move) -> (score: i32)
        requires
            you.0 < 4,
        ensures
            score == self.move_value(*board, you, mv),
    {
        let health: u8 = board.get_health(you);
        let length: u16 = board.get_length(you);
        let joint = trial_moves(board, you, mv);
        let next = match board.simulate_with_moves(&joint) {
            Some((_, next)) => next,
            None => {
                return i32::MIN;
            },
        };
        if next.get_health(you) == 0 {
            return i32::MIN;
        }
        let mobility: usize = next.count_possible_moves(you);
        let mut bonus: i32 = 0;
        if health < self.hunger_threshold {
            let food = board.get_all_food_as_positions();
            if food.len() > 0 {
                let steps: i64 = nearest_cell(board.get_head_as_position(you), &food);
                if steps < 20 {
                    bonus = ((20 - steps) * 5) as i32;
                }
            }
        }
        rate(mobility, bonus, length, health)
    }
}

impl Default for HeuristicAgent {
    fn default() -> (agent: Self)
        ensures
            agent.label() == "Heuristic"@,
            agent.hunger() == 30,
    {
        HeuristicAgent::new()
    }
}

impl Agent for HeuristicAgent {
    closed spec fn label(&self) -> Seq<char> {
        self.name@
    }

    /// The candidate move of the greatest value, the last such move where
    /// several share it; `Up` where there is no candidate.
    open spec fn may_choose(&self, board: Board, you: SnakeId, m: Move) -> bool {
        &&& candidates(board, you).len() == 0 ==> m == Move::Up
        &&& candidates(board, you).len() > 0 ==> exists|at: int| #[trigger]
            is_last_maximum(self.values(board, you), at) && m == candidates(board, you)[at]
    }

    fn name(&self) -> (name: &str) {
        self.name.as_str()
    }

    /// Rates every candidate move and gives the best.
    fn choose_move(&self, board: &Board, you: SnakeId) -> (m: Move) {
        let moves = candidate_moves(board, you);
        let mut scores: Vec<i64> = Vec::new();
        let mut i: usize = 0;
        while i < moves.len()
            invariant
                you.0 < 4,
                i <= moves@.len(),
                moves@ == candidates(*board, you),
                scores@.len() == i,
                forall|k: int| 0 <= k < i ==> #[trigger] scores@[k] == self.values(*board, you)[k],
            decreases moves@.len() - i,
        {
            scores.push(self.score_move(board, you, moves[i]) as i64);
            i = i + 1;
        }
        assert(scores@ =~= self.values(*board, you));
        match last_maximum(&scores) {
            Some(at) => moves[at],
            None => Move::Up,
        }
    }
}

} // verus!
