//! Finding a snake's moves among the moves of all snakes, and the moves an
//! agent tries out.

use vstd::prelude::*;
use crate::board::{move_lists_view, Board, JointMove};
use crate::types::{Move, SnakeId};

verus! {

/// The place of the first entry for `you`, if there is one.
pub open spec fn place_of<T>(entries: Seq<(SnakeId, T)>, you: SnakeId) -> Option<int>
    decreases entries.len(),
{
    if entries.len() == 0 {
        None
    } else {
        match place_of(entries.drop_last(), you) {
            Some(at) => Some(at),
            None => if entries.last().0 == you {
                Some(entries.len() - 1)
            } else {
                None
            },
        }
    }
}

/// `place_of` finds the first entry for `you` and nothing else.
pub proof fn place_of_is_first<T>(entries: Seq<(SnakeId, T)>, you: SnakeId)
    ensures
        match place_of(entries, you) {
            Some(at) => 0 <= at < entries.len() && entries[at].0 == you && forall|j: int|
                0 <= j < at ==> (#[trigger] entries[j]).0 != you,
            None => forall|j: int| 0 <= j < entries.len() ==> (#[trigger] entries[j]).0 != you,
        },
    decreases entries.len(),
{
    if entries.len() > 0 {
        place_of_is_first(entries.drop_last(), you);
        match place_of(entries.drop_last(), you) {
            Some(at) => {
                assert(entries.drop_last()[at] == entries[at]);
                assert forall|j: int| 0 <= j < at implies (#[trigger] entries[j]).0 != you by {
                    assert(entries.drop_last()[j] == entries[j]);
                }
            },
            None => {
                assert forall|j: int| 0 <= j < entries.len() - 1 implies (
                #[trigger] entries[j]).0 != you by {
                    assert(entries.drop_last()[j] == entries[j]);
                }
            },
        }
    }
}

/// The move that a joint move holds for `you`.
pub fn move_of(joint: &Vec<(SnakeId, Move)>, you: SnakeId) -> (found: Option<Move>)
    ensures
        found == match place_of(joint@, you) {
            Some(at) => Some(joint@[at].1),
            None => None,
        },
{
    let mut i: usize = 0;
    while i < joint.len()
        invariant
            i <= joint@.len(),
            place_of(joint@.take(i as int), you) is None,
        decreases joint@.len() - i,
    {
        proof {
            assert(joint@.take(i + 1).drop_last() =~= joint@.take(i as int));
            place_of_is_first(joint@, you);
        }
        if joint[i].0.0 == you.0 {
            proof {
                place_of_is_first(joint@.take(i as int), you);
                assert forall|j: int| 0 <= j < i implies (#[trigger] joint@[j]).0 != you by {
                    assert(joint@.take(i as int)[j] == joint@[j]);
                }
            }
            return Some(joint[i].1);
        }
        i = i + 1;
    }
    assert(joint@.take(i as int) =~= joint@);
    None
}

/// The place of the list that holds the moves of `you`.
pub fn list_of(lists: &Vec<(SnakeId, Vec<Move>)>, you: SnakeId) -> (found: Option<usize>)
    ensures
        match found {
            Some(at) => place_of(lists@, you) == Some(at as int),
            None => place_of(lists@, you) is None,
        },
{
    let mut i: usize = 0;
    while i < lists.len()
        invariant
            i <= lists@.len(),
            place_of(lists@.take(i as int), you) is None,
        decreases lists@.len() - i,
    {
        proof {
            assert(lists@.take(i + 1).drop_last() =~= lists@.take(i as int));
            place_of_is_first(lists@, you);
        }
        if lists[i].0.0 == you.0 {
            proof {
                place_of_is_first(lists@.take(i as int), you);
                assert forall|j: int| 0 <= j < i implies (#[trigger] lists@[j]).0 != you by {
                    assert(lists@.take(i as int)[j] == lists@[j]);
                }
            }
            return Some(i);
        }
        i = i + 1;
    }
    assert(lists@.take(i as int) =~= lists@);
    None
}

/// The four directions.
pub open spec fn all_moves() -> Seq<Move> {
    seq![Move::Up, Move::Down, Move::Left, Move::Right]
}

/// The moves an agent chooses among for `you`: its reasonable moves, and all
/// four directions where `you` is not among the live snakes.
pub open spec fn candidates(board: Board, you: SnakeId) -> Seq<Move> {
    match place_of(board.reasonable_moves(), you) {
        Some(at) => board.reasonable_moves()[at].1,
        None => all_moves(),
    }
}

/// The joint move in which `you` takes `mv` and every other live snake the
/// first of its reasonable moves.
pub open spec fn trial(board: Board, you: SnakeId, mv: Move) -> Seq<(SnakeId, Move)> {
    let lists = board.reasonable_moves();
    Seq::new(
        lists.len(),
        |i: int|
            (
                lists[i].0,
                if lists[i].0 == you {
                    mv
                } else if lists[i].1.len() > 0 {
                    lists[i].1[0]
                } else {
                    Move::Up
                },
            ),
    )
}

/// The joint move in which `you` takes `mv` and every other live snake the
/// first of its reasonable moves.
pub fn trial_moves(board: &Board, you: SnakeId, mv: Move) -> (joint: JointMove)
    ensures
        joint@ == trial(*board, you, mv),
        board.covered_by(joint@),
{
    let lists = board.reasonable_moves_for_each_snake();
    let mut joint: JointMove = Vec::new();
    let mut i: usize = 0;
    while i < lists.len()
        invariant
            i <= lists@.len(),
            move_lists_view(lists@) == board.reasonable_moves(),
            joint@.len() == i,
            forall|k: int| 0 <= k < i ==> #[trigger] joint@[k] == trial(*board, you, mv)[k],
        decreases lists@.len() - i,
    {
        proof {
            assert(move_lists_view(lists@)[i as int] == board.reasonable_moves()[i as int]);
        }
        let chosen = if lists[i].0.0 == you.0 {
            mv
        } else if lists[i].1.len() > 0 {
            lists[i].1[0]
        } else {
            Move::Up
        };
        joint.push((lists[i].0, chosen));
        i = i + 1;
    }
    assert(joint@ =~= trial(*board, you, mv));
    joint
}

/// The moves to choose among for `you`.
pub fn candidate_moves(board: &Board, you: SnakeId) -> (moves: Vec<Move>)
    ensures
        moves@ == candidates(*board, you),
{
    let mut lists = board.reasonable_moves_for_each_snake();
    match list_of(&lists, you) {
        Some(at) => {
            proof {
                place_of_is_first(lists@, you);
                place_of_is_first(board.reasonable_moves(), you);
                let typed = board.reasonable_moves();
                assert(move_lists_view(lists@)[at as int] == typed[at as int]);
                assert forall|j: int| 0 <= j < lists@.len() implies (#[trigger] typed[j]).0
                    == lists@[j].0 by {
                    assert(move_lists_view(lists@)[j] == typed[j]);
                }
                assert(place_of(typed, you) == Some(at as int));
            }
            let entry = lists.swap_remove(at);
            entry.1
        },
        None => {
            proof {
                place_of_is_first(lists@, you);
                place_of_is_first(board.reasonable_moves(), you);
                let typed = board.reasonable_moves();
                assert forall|j: int| 0 <= j < lists@.len() implies (#[trigger] typed[j]).0
                    == lists@[j].0 by {
                    assert(move_lists_view(lists@)[j] == typed[j]);
                }
            }
            Move::all()
        },
    }
}

} // verus!
