//! An agent that moves at random.

use vstd::prelude::*;
use crate::agent::Agent;
use crate::board::Board;
use crate::chance::random_below;
use crate::moves::{list_of, move_of, place_of, place_of_is_first};
use crate::types::{Move, SnakeId};

verus! {

/// A simple agent that picks a random reasonable move each turn. Useful as a
/// baseline for benchmarking.
pub struct RandomAgent {
    name: String,
}

impl RandomAgent {
    /// An agent named "Random".
    pub fn new() -> (agent: Self)
        ensures
            agent.label() == "Random"@,
    {
        RandomAgent { name: "Random".to_owned() }
    }

    /// An agent of the given name.
    pub fn with_name(name: String) -> (agent: Self)
        ensures
            agent.label() == name@,
    {
        RandomAgent { name }
    }
}

impl Default for RandomAgent {
    fn default() -> (agent: Self)
        ensures
            agent.label() == "Random"@,
    {
        RandomAgent::new()
    }
}

impl Agent for RandomAgent {
    closed spec fn label(&self) -> Seq<char> {
        self.name@
    }

    /// Each of the reasonable moves of `you`; any direction where `you` is
    /// not among the live snakes.
    open spec fn may_choose(&self, board: Board, you: SnakeId, m: Move) -> bool {
        match place_of(board.reasonable_moves(), you) {
            Some(at) => board.reasonable_moves()[at].1.contains(m),
            None => true,
        }
    }

    fn name(&self) -> (name: &str) {
        self.name.as_str()
    }

    /// One of the reasonable moves of `you`, drawn at random.
    fn choose_move(&self, board: &Board, you: SnakeId) -> (m: Move) {
        let mut rng = rand::thread_rng();
        let joint = board.random_reasonable_move_for_each_snake(&mut rng);
        proof {
            place_of_is_first(joint@, you);
            place_of_is_first(board.reasonable_moves(), you);
        }
        match move_of(&joint, you) {
            Some(m) => {
                proof {
                    let at = place_of(joint@, you)->0;
                    assert(joint@[at].0 == board.reasonable_moves()[at].0);
                    match place_of(board.reasonable_moves(), you) {
                        Some(first) => {
                            assert(joint@[first].0 == board.reasonable_moves()[first].0);
                            assert(first == at);
                        },
                        None => {},
                    }
                }
                return m;
            },
            None => {},
        }
        let lists = board.reasonable_moves_for_each_snake();
        match list_of(&lists, you) {
            Some(at) => {
                proof {
                    place_of_is_first(lists@, you);
                    assert(board.reasonable_moves()[at as int].0 == lists@[at as int].0);
                    assert(joint@[at as int].0 == you);
                }
                if lists[at].1.len() > 0 {
                    return lists[at].1[0];
                }
            },
            None => {},
        }
        proof {
            place_of_is_first(lists@, you);
            if place_of(board.reasonable_moves(), you) is Some {
                let at = place_of(board.reasonable_moves(), you)->0;
                assert(joint@[at].0 == you);
            }
        }
        Move::from_index(random_below(&mut rng, 4))
    }
}

} // verus!
