//! Agents: what every agent offers, and the agent that searches by
//! Monte-Carlo tree search for a given time.

use vstd::prelude::*;
use std::time::{Duration, Instant};
use crate::board::Board;
use crate::mcts::{
    best_move, default_move, one_pass, rates_all, recommended, search_round, searched, Node,
};
use crate::types::{Move, SnakeId};

verus! {

/// A point in time, as the clock of the machine gives it.
#[verifier::external_type_specification]
#[verifier::external_body]
pub struct ExInstant(Instant);

/// `Instant::now`: the time of the call.
pub assume_specification[ Instant::now ]() -> (now: Instant);

/// `Instant::elapsed`: the time that has passed since the instant.
pub assume_specification[ Instant::elapsed ](start: &Instant) -> (passed: Duration);

/// `Duration::as_millis`: the whole milliseconds of the duration.
pub assume_specification[ Duration::as_millis ](duration: &Duration) -> (millis: u128);

/// A snake agent: something that picks a move for one snake on a board.
pub trait Agent: Send + Sync {
    /// The name of the agent.
    spec fn label(&self) -> Seq<char>;

    /// Whether `m` is a move that the agent may choose for the snake `you` on
    /// the board. An agent that decides by rule allows one move; an agent
    /// that draws or searches against the clock allows each move it can end
    /// up with.
    spec fn may_choose(&self, board: Board, you: SnakeId, m: Move) -> bool;

    /// The name of this agent for display purposes.
    fn name(&self) -> (name: &str)
        ensures
            name@ == self.label(),
    ;

    /// Chooses a move for the snake `you` on the given board: one of the
    /// moves the agent may choose there.
    fn choose_move(&self, board: &Board, you: SnakeId) -> (m: Move)
        requires
            you.0 < 4,
        ensures
            self.may_choose(*board, you, m),
    ;

    /// Forgets what the agent may have kept from earlier games.
    fn reset(&mut self) {
    }
}

impl Agent for Box<dyn Agent> {
    /// The name of the agent in the box.
    open spec fn label(&self) -> Seq<char> {
        (**self).label()
    }

    /// What the agent in the box may choose.
    open spec fn may_choose(&self, board: Board, you: SnakeId, m: Move) -> bool {
        (**self).may_choose(board, you, m)
    }

    fn name(&self) -> &str {
        (**self).name()
    }

    fn choose_move(&self, board: &Board, you: SnakeId) -> Move {
        (**self).choose_move(board, you)
    }

    fn reset(&mut self) {
        (**self).reset()
    }
}

/// The agent that searches with Monte-Carlo tree search for a given time and
/// plays what the tree recommends. Children are rated by `score` during the
/// search.
pub struct MctsAgent<F: Fn(u32, u32, u32) -> i64 + Send + Sync> {
    name: String,
    think_time: Duration,
    score: F,
}

impl<F: Fn(u32, u32, u32) -> i64 + Send + Sync> MctsAgent<F> {
    #[verifier::type_invariant]
    spec fn score_rates_all(&self) -> bool {
        rates_all(&self.score)
    }

    /// The time the agent takes for a move.
    pub closed spec fn budget(&self) -> Duration {
        self.think_time
    }

    /// The function that rates the children during the search.
    pub closed spec fn rating(&self) -> F {
        self.score
    }

    /// An agent named "MCTS".
    pub fn new(think_time: Duration, score: F) -> (agent: Self)
        requires
            rates_all(&score),
        ensures
            agent.label() == "MCTS"@,
            agent.budget() == think_time,
            agent.rating() == score,
    {
        MctsAgent { name: "MCTS".to_owned(), think_time, score }
    }

    /// An agent of the given name.
    pub fn with_name(name: String, think_time: Duration, score: F) -> (agent: Self)
        requires
            rates_all(&score),
        ensures
            agent.label() == name@,
            agent.budget() == think_time,
            agent.rating() == score,
    {
        MctsAgent { name, think_time, score }
    }
}

impl<F: Fn(u32, u32, u32) -> i64 + Send + Sync> Agent for MctsAgent<F> {
    closed spec fn label(&self) -> Seq<char> {
        self.name@
    }

    /// The moves that a tree recommends which some number of passes of the
    /// search, rated by the agent's rating, make of a fresh root for the
    /// board: each of them is a reasonable move of `you`, or the default
    /// move.
    open spec fn may_choose(&self, board: Board, you: SnakeId, m: Move) -> bool {
        &&& exists|start: Node, root: Node, rounds: nat| #[trigger]
            searched(&self.rating(), start, root, you, rounds) && start.is_fresh(board)
                && recommended(root, you, m)
        &&& forall|at: int|
            0 <= at < board.reasonable_moves().len() && (
            #[trigger] board.reasonable_moves()[at]).0 == you
                ==> board.reasonable_moves()[at].1.contains(m) || m == default_move()
    }

    fn name(&self) -> (name: &str) {
        self.name.as_str()
    }

    /// Grows a tree from the board, round after round until the think time
    /// has passed, and gives the move that the tree recommends.
    fn choose_move(&self, board: &Board, you: SnakeId) -> (m: Move) {
        proof {
            use_type_invariant(self);
        }
        let mut root = Node::new_root(*board);
        let ghost fresh = root;
        let start = Instant::now();
        let budget: u128 = self.think_time.as_millis();
        loop
            invariant
                root.wf(),
                root.board() == *board,
                rates_all(&self.score),
                searched(&self.score, fresh, root, you, root.visit_count()),
            decreases u32::MAX - root.visit_count(),
        {
            let stopped = start.elapsed().as_millis() >= budget;
            let ghost before = root;
            if !search_round(&mut root, &you, stopped, &self.score) {
                break ;
            }
            proof {
                let outcome = choose|outcome: int| #[trigger]
                    one_pass(&self.score, before, root, you, outcome);
                assert(searched(&self.score, fresh, before, you, (root.visit_count() - 1) as nat)
                    && before.wf() && one_pass(&self.score, before, root, you, outcome));
            }
        }
        let m = best_move(&root, &you);
        assert(searched(&self.rating(), fresh, root, you, root.visit_count()) && fresh.is_fresh(
            *board,
        ) && recommended(root, you, m));
        m
    }
}

} // verus!
