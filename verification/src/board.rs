//! The game board and the simulator behind it.
//!
//! A board is an opaque snapshot held by value. Everything the engine learns
//! about it comes through the functions of this file; each of them rests on
//! one call into `battlesnake_game_types` whose contract is stated here and
//! not proved.

use vstd::prelude::*;
use crate::types::{Action, Move, SnakeId};
use battlesnake_game_types::compact_representation::standard::CellBoard4Snakes11x11;
use battlesnake_game_types::types::{
    FoodGettableGame, HeadGettableGame, HealthGettableGame, LengthGettableGame,
    NeighborDeterminableGame, RandomReasonableMovesGame, ReasonableMovesGame, SimulableGame,
    SnakeIDGettableGame, VictorDeterminableGame,
};

verus! {

/// Snapshot of a game at one turn: an 11x11 standard board for up to four
/// snakes, as `battlesnake_game_types` packs it. The packed board carries
/// bounds on traits of that library, which Verus cannot take in a declaration
/// of the type itself, so the value is kept behind this struct and nothing of
/// its inside is visible to proofs.
#[verifier::external_body]
pub struct Board {
    pub(crate) inner: CellBoard4Snakes11x11,
}

impl Clone for Board {
    /// `Clone::clone` of the packed board, a plain copy of its cells.
    #[verifier::external_body]
    fn clone(&self) -> (b: Self)
        ensures
            b == *self,
    {
        Board { inner: self.inner }
    }
}

impl Copy for Board {

}

/// Receiver of the simulator's timing reports; the engine ignores them.
#[derive(Debug)]
pub struct Simulator;

/// Source of the random draws of a playout.
#[verifier::external_type_specification]
#[verifier::external_body]
pub struct ExThreadRng(rand::rngs::ThreadRng);

/// `rand::thread_rng`: a handle on the calling thread's generator. Nothing is
/// said of the numbers it will give.
pub assume_specification[ rand::thread_rng ]() -> (rng: rand::rngs::ThreadRng);

/// For each live snake, in the simulator's order, its tag and the indices of
/// its reasonable moves.
pub uninterp spec fn moves_of(b: Board) -> Seq<(u8, Seq<u8>)>;

/// Every board that the simulator lets follow when each live snake takes
/// one of the moves listed for it, with the action that leads there as the
/// move index in each of its four slots, in the simulator's order.
pub uninterp spec fn simulated_of(b: Board, lists: Seq<(u8, Seq<u8>)>) -> Seq<
    (Seq<Option<u8>>, Board),
>;

/// Every board that the simulator lets follow when each of the given snakes
/// takes any of the four directions, with the action that leads there as
/// the move index in each of its four slots, in the simulator's order.
pub uninterp spec fn all_outcomes_of(b: Board, ids: Seq<u8>) -> Seq<(Seq<Option<u8>>, Board)>;

/// Health of the snake in a slot; 0 where the slot is empty or the snake
/// is dead.
pub uninterp spec fn health_of(b: Board, sid: u8) -> u8;

/// The tags below `bound` of the slots with health left, in rising order.
pub open spec fn live_below(b: Board, bound: nat) -> Seq<u8>
    decreases bound,
{
    if bound == 0 {
        Seq::empty()
    } else if health_of(b, (bound - 1) as u8) != 0 {
        live_below(b, (bound - 1) as nat).push((bound - 1) as u8)
    } else {
        live_below(b, (bound - 1) as nat)
    }
}

/// The tags of the live snakes, in rising order.
pub open spec fn snake_ids_of(b: Board) -> Seq<u8> {
    live_below(b, 4)
}

/// Whether the simulator counts the game as finished: the snake with tag 0
/// is dead, or at most one snake is alive.
pub open spec fn is_over_of(b: Board) -> bool {
    health_of(b, 0) == 0 || snake_ids_of(b).len() <= 1
}

/// The winner the simulator names, as a snake tag: the live snake with the
/// least tag, once the game is over.
pub open spec fn winner_of(b: Board) -> Option<u8> {
    if is_over_of(b) && snake_ids_of(b).len() > 0 {
        Some(snake_ids_of(b)[0])
    } else {
        None
    }
}

/// Every slot without health on the first board has none on the second.
pub open spec fn keeps_empty(before: Board, after: Board) -> bool {
    forall|s: u8| s < 4 && health_of(before, s) == 0 ==> health_of(after, s) == 0
}

/// No slot from `snakes` on holds a live snake.
pub open spec fn has_room_for(b: Board, snakes: int) -> bool {
    forall|s: u8| snakes <= s < 4 ==> health_of(b, s) == 0
}

/// The live tags below a bound are below it, rise, have health left, and
/// are all the tags below the bound with health left.
pub proof fn live_tags_are_the_slots_with_health(b: Board, bound: nat)
    requires
        bound <= 4,
    ensures
        live_below(b, bound).len() <= bound,
        forall|i: int|
            0 <= i < live_below(b, bound).len() ==> (#[trigger] live_below(b, bound)[i]) < bound
                && health_of(b, live_below(b, bound)[i]) != 0,
        forall|i: int, j: int|
            0 <= i < j < live_below(b, bound).len() ==> (#[trigger] live_below(b, bound)[i]) < (
            #[trigger] live_below(b, bound)[j]),
        forall|s: u8| s < bound && health_of(b, s) != 0 ==> live_below(b, bound).contains(s),
    decreases bound,
{
    if bound > 0 {
        let below = live_below(b, (bound - 1) as nat);
        let all = live_below(b, bound);
        live_tags_are_the_slots_with_health(b, (bound - 1) as nat);
        assert forall|s: u8| s < bound && health_of(b, s) != 0 implies all.contains(s) by {
            if s == bound - 1 {
                assert(all[all.len() - 1] == s);
            } else {
                assert(below.contains(s));
                let i = choose|i: int| 0 <= i < below.len() && below[i] == s;
                assert(all[i] == s);
            }
        }
    }
}

/// Length of the snake in a slot.
pub uninterp spec fn length_of(b: Board, sid: u8) -> u16;

/// Cell of the head of the snake in a slot, as column and row.
pub uninterp spec fn head_of(b: Board, sid: u8) -> (i32, i32);

/// Cells that hold food, as column and row.
pub uninterp spec fn food_of(b: Board) -> Seq<(i32, i32)>;

/// The cell one step from `head` in the direction with the index `k`: up,
/// down, left and right in the order of their indices.
pub open spec fn step_from(head: (i32, i32), k: u8) -> (int, int) {
    if k == 0 {
        (head.0 as int, head.1 + 1)
    } else if k == 1 {
        (head.0 as int, head.1 - 1)
    } else if k == 2 {
        (head.0 - 1, head.1 as int)
    } else {
        (head.0 + 1, head.1 as int)
    }
}

/// The indices below `bound` of the directions that lead from `head` to a
/// cell of the board of eleven by eleven cells, in rising order.
pub open spec fn steps_on_board(head: (i32, i32), bound: nat) -> Seq<u8>
    decreases bound,
{
    if bound == 0 {
        Seq::empty()
    } else {
        let cell = step_from(head, (bound - 1) as u8);
        if 0 <= cell.0 < 11 && 0 <= cell.1 < 11 {
            steps_on_board(head, (bound - 1) as nat).push((bound - 1) as u8)
        } else {
            steps_on_board(head, (bound - 1) as nat)
        }
    }
}

/// The indices of the directions that lead from a slot's head to a cell on
/// the board.
pub open spec fn possible_moves_of(b: Board, sid: u8) -> Seq<u8> {
    steps_on_board(head_of(b, sid), 4)
}

/// Number of neighbouring cells of a slot's head that lie on the board.
pub open spec fn mobility_of(b: Board, sid: u8) -> nat {
    possible_moves_of(b, sid).len()
}

/// An action as the simulator gives it: four slots, each empty or with a
/// move index below four.
pub open spec fn is_action(slots: Seq<Option<u8>>) -> bool {
    &&& slots.len() == 4
    &&& forall|s: int| 0 <= s < 4 ==> (#[trigger] slots[s] matches Some(k) ==> k < 4)
}

/// View of a list of per-snake move lists as nested sequences.
pub open spec fn lists_view(v: Seq<(u8, Vec<u8>)>) -> Seq<(u8, Seq<u8>)> {
    Seq::new(v.len(), |i: int| (v[i].0, v[i].1@))
}

/// What the simulator's source shows of every list of reasonable moves: at
/// most four entries, tags below four and rising, and for each snake between
/// one and four move indices below four that rise as well.
pub open spec fn lists_in_shape(lists: Seq<(u8, Seq<u8>)>) -> bool {
    &&& lists.len() <= 4
    &&& forall|i: int| 0 <= i < lists.len() ==> (#[trigger] lists[i]).0 < 4
    &&& forall|i: int, j: int| 0 <= i < j < lists.len() ==> (#[trigger] lists[i]).0 < (
    #[trigger] lists[j]).0
    &&& forall|i: int| 0 <= i < lists.len() ==> 1 <= (#[trigger] lists[i]).1.len() <= 4
    &&& forall|i: int, k: int|
        0 <= i < lists.len() && 0 <= k < lists[i].1.len() ==> (#[trigger] lists[i].1[k]) < 4
    &&& forall|i: int, k: int, l: int|
        0 <= i < lists.len() && 0 <= k < l < lists[i].1.len() ==> (#[trigger] lists[i].1[k]) < (
        #[trigger] lists[i].1[l])
}

/// Move lists as the search needs them: every list is for another snake
/// with a tag below four, and no list holds a move twice.
pub open spec fn lists_are_proper(lists: Seq<(SnakeId, Seq<Move>)>) -> bool {
    &&& forall|i: int| 0 <= i < lists.len() ==> (#[trigger] lists[i]).0.0 < 4
    &&& forall|i: int, j: int|
        0 <= i < j < lists.len() ==> (#[trigger] lists[i]).0 != (#[trigger] lists[j]).0
    &&& forall|i: int, k: int, l: int|
        0 <= i < lists.len() && 0 <= k < l < lists[i].1.len() ==> (#[trigger] lists[i].1[k]) != (
        #[trigger] lists[i].1[l])
}

/// The lists give each live snake of the board, in the simulator's order,
/// at least one direction to take.
pub open spec fn offers_moves(b: Board, lists: Seq<(u8, Seq<u8>)>) -> bool {
    &&& lists.len() == moves_of(b).len()
    &&& forall|i: int| 0 <= i < lists.len() ==> (#[trigger] lists[i]).0 == moves_of(b)[i].0
    &&& forall|i: int| 0 <= i < lists.len() ==> (#[trigger] lists[i]).1.len() >= 1
    &&& forall|i: int, k: int|
        0 <= i < lists.len() && 0 <= k < lists[i].1.len() ==> (#[trigger] lists[i].1[k]) < 4
}

/// A joint move that gives each live snake of the board, in the simulator's
/// order, one of its reasonable moves.
pub open spec fn is_reasonable(b: Board, joint: Seq<(u8, u8)>) -> bool {
    &&& joint.len() == moves_of(b).len()
    &&& forall|i: int| 0 <= i < joint.len() ==> (#[trigger] joint[i]).0 == moves_of(b)[i].0
    &&& forall|i: int| 0 <= i < joint.len() ==> (#[trigger] joint[i]).1 < 4
    &&& forall|i: int|
        0 <= i < joint.len() ==> moves_of(b)[i].1.contains((#[trigger] joint[i]).1)
}

/// The lists are for the live snakes of the board, one each, in the order
/// of their tags.
pub open spec fn names_the_live(b: Board, lists: Seq<(u8, Seq<u8>)>) -> bool {
    &&& lists.len() == snake_ids_of(b).len()
    &&& forall|i: int| 0 <= i < lists.len() ==> (#[trigger] lists[i]).0 == snake_ids_of(b)[i]
}

/// `VictorDeterminableGame::is_over` of the packed board: the source looks
/// at the four health slots alone.
#[verifier::external_body]
pub(crate) fn raw_is_over(b: &Board) -> (over: bool)
    ensures
        over == is_over_of(*b),
{
    b.inner.is_over()
}

/// `VictorDeterminableGame::get_winner` of the packed board. The source
/// takes the first health slot that is not empty, once the game is over; it
/// gives none while the game is not over.
#[verifier::external_body]
pub(crate) fn raw_winner(b: &Board) -> (w: Option<u8>)
    ensures
        w == winner_of(*b),
        w matches Some(t) ==> t < 4,
        w is Some ==> is_over_of(*b),
{
    b.inner.get_winner().map(|s| s.0)
}

/// `ReasonableMovesGame::reasonable_moves_for_each_snake` of the packed
/// board, each move given by its index. The source walks the four health
/// slots in order, skips the empty ones, filters the four directions in the
/// order of their indices and puts `Up` where none is left.
#[verifier::external_body]
pub(crate) fn raw_moves(b: &Board) -> (lists: Vec<(u8, Vec<u8>)>)
    ensures
        lists_view(lists@) == moves_of(*b),
        lists_in_shape(lists_view(lists@)),
        names_the_live(*b, lists_view(lists@)),
{
    b.inner
        .reasonable_moves_for_each_snake()
        .map(|(s, ms)| (s.0, ms.iter().map(|m| m.as_index() as u8).collect()))
        .collect()
}

/// The action is made of the listed moves: in the slot of each listed snake
/// stands the index of one of the moves listed for it, and every other slot
/// is empty.
pub open spec fn takes_from(slots: Seq<Option<u8>>, lists: Seq<(u8, Seq<u8>)>) -> bool {
    &&& is_action(slots)
    &&& forall|i: int|
        0 <= i < lists.len() && (#[trigger] lists[i]).0 < 4 ==> slots[lists[i].0 as int] is Some
            && lists[i].1.contains(slots[lists[i].0 as int]->0)
    &&& forall|s: int|
        0 <= s < 4 && (forall|i: int| 0 <= i < lists.len() ==> (#[trigger] lists[i]).0 != s)
            ==> #[trigger] slots[s] is None
}

/// View of outcomes as nested sequences.
pub open spec fn outcomes_view(all: Seq<(Vec<Option<u8>>, Board)>) -> Seq<
    (Seq<Option<u8>>, Board),
> {
    Seq::new(all.len(), |i: int| (all[i].0@, all[i].1))
}

/// `SimulableGame::simulate_with_moves` of the packed board with the moves
/// listed for each live snake, and every board it yields. Each action, which
/// holds the moves that led to its board, comes back as the move index in
/// each of its four slots. The source changes the health of the listed
/// snakes only, so a slot without health has none afterwards.
#[verifier::external_body]
pub(crate) fn raw_simulate(b: &Board, lists: &Vec<(u8, Vec<u8>)>) -> (all: Vec<
    (Vec<Option<u8>>, Board),
>)
    requires
        offers_moves(*b, lists_view(lists@)),
    ensures
        outcomes_view(all@) == simulated_of(*b, lists_view(lists@)),
        forall|i: int|
            0 <= i < all@.len() ==> takes_from((#[trigger] all@[i]).0@, lists_view(lists@)),
        forall|i: int| 0 <= i < all@.len() ==> keeps_empty(*b, (#[trigger] all@[i]).1),
{
    let moves: Vec<_> = lists.iter().map(|(s, ms)| (
        battlesnake_game_types::types::SnakeId(*s),
        ms.iter().map(|m| battlesnake_game_types::types::Move::from_index(*m as usize)).collect::<Vec<_>>(),
    )).collect();
    b.inner.simulate_with_moves(&Simulator, moves).map(|(a, inner)| (
        a.into_inner().iter().map(|o| o.map(|m| m.as_index() as u8)).collect(),
        Board { inner },
    )).collect()
}

/// `RandomReasonableMovesGame::random_reasonable_move_for_each_snake` of the
/// packed board: for each live snake one of its reasonable moves, drawn with
/// `rng`. Which one is open; that it is one of them holds of every draw.
#[verifier::external_body]
pub(crate) fn raw_random_moves(b: &Board, rng: &mut rand::rngs::ThreadRng) -> (joint: Vec<(u8, u8)>)
    ensures
        is_reasonable(*b, joint@),
{
    b.inner.random_reasonable_move_for_each_snake(rng).map(|(s, m)| (s.0, m.as_index() as u8)).collect()
}

/// `SimulableGame::simulate` of the packed board for its live snakes, and
/// every board it yields. Each action comes back as the move index in each
/// of its four slots.
#[verifier::external_body]
pub(crate) fn raw_all_outcomes(b: &Board, ids: &Vec<u8>) -> (all: Vec<(Vec<Option<u8>>, Board)>)
    requires
        ids@ == snake_ids_of(*b),
        forall|i: int| 0 <= i < ids@.len() ==> #[trigger] ids@[i] < 4,
    ensures
        outcomes_view(all@) == all_outcomes_of(*b, ids@),
        forall|i: int| 0 <= i < all@.len() ==> is_action((#[trigger] all@[i]).0@),
{
    let snakes: Vec<_> = ids.iter().map(|s| battlesnake_game_types::types::SnakeId(*s)).collect();
    b.inner.simulate(&Simulator, snakes).map(|(a, inner)| (
        a.into_inner().iter().map(|o| o.map(|m| m.as_index() as u8)).collect(),
        Board { inner },
    )).collect()
}

/// `SnakeIDGettableGame::get_snake_ids` of the packed board: the indices of
/// the health slots that are not empty, in their order.
#[verifier::external_body]
pub(crate) fn raw_snake_ids(b: &Board) -> (ids: Vec<u8>)
    ensures
        ids@ == snake_ids_of(*b),
        forall|i: int| 0 <= i < ids@.len() ==> #[trigger] ids@[i] < 4,
{
    b.inner.get_snake_ids().iter().map(|s| s.0).collect()
}

/// `HealthGettableGame::get_health` of the packed board.
#[verifier::external_body]
pub(crate) fn raw_health(b: &Board, sid: u8) -> (h: u8)
    requires
        sid < 4,
    ensures
        h == health_of(*b, sid),
{
    b.inner.get_health(&battlesnake_game_types::types::SnakeId(sid))
}

/// `LengthGettableGame::get_length` of the packed board.
#[verifier::external_body]
pub(crate) fn raw_length(b: &Board, sid: u8) -> (l: u16)
    requires
        sid < 4,
    ensures
        l == length_of(*b, sid),
{
    b.inner.get_length(&battlesnake_game_types::types::SnakeId(sid))
}

/// `HeadGettableGame::get_head_as_position` of the packed board.
#[verifier::external_body]
pub(crate) fn raw_head(b: &Board, sid: u8) -> (p: (i32, i32))
    requires
        sid < 4,
    ensures
        p == head_of(*b, sid),
{
    let p = b.inner.get_head_as_position(&battlesnake_game_types::types::SnakeId(sid));
    (p.x, p.y)
}

/// `FoodGettableGame::get_all_food_as_positions` of the packed board.
#[verifier::external_body]
pub(crate) fn raw_food(b: &Board) -> (food: Vec<(i32, i32)>)
    ensures
        food@ == food_of(*b),
{
    b.inner.get_all_food_as_positions().iter().map(|p| (p.x, p.y)).collect()
}

/// `NeighborDeterminableGame::possible_moves` from the head of a slot, as
/// `HeadGettableGame::get_head_as_native_position` gives it, each move given
/// by its index: the source goes through the four directions in the order of
/// their indices and keeps those that stay on the board, which has eleven
/// by eleven cells for every board of this library.
#[verifier::external_body]
pub(crate) fn raw_possible_moves(b: &Board, sid: u8) -> (moves: Vec<u8>)
    requires
        sid < 4,
    ensures
        moves@ == possible_moves_of(*b, sid),
        moves@.len() <= 4,
        forall|i: int| 0 <= i < moves@.len() ==> #[trigger] moves@[i] < 4,
{
    let head = b.inner.get_head_as_native_position(&battlesnake_game_types::types::SnakeId(sid));
    b.inner.possible_moves(&head).map(|(m, _)| m.as_index() as u8).collect()
}


/// A joint move: one direction for each snake that takes part, in order.
pub type JointMove = Vec<(SnakeId, Move)>;

/// The slot of an action that a slot of move indices stands for.
pub open spec fn slot_at(slot: Option<u8>) -> Option<Move> {
    match slot {
        Some(k) => Some(Move::at(k as int)),
        None => None,
    }
}

/// View of per-snake move lists as nested sequences.
pub open spec fn move_lists_view(v: Seq<(SnakeId, Vec<Move>)>) -> Seq<(SnakeId, Seq<Move>)> {
    Seq::new(v.len(), |i: int| (v[i].0, v[i].1@))
}

/// A joint move as lists of one move index for each snake.
pub open spec fn joint_lists(joint: Seq<(SnakeId, Move)>) -> Seq<(u8, Seq<u8>)> {
    Seq::new(joint.len(), |i: int| (joint[i].0.0, seq![joint[i].1.index() as u8]))
}

/// The outcomes as actions with boards.
pub open spec fn typed_outcomes_of(all: Seq<(Seq<Option<u8>>, Board)>) -> Seq<
    (Seq<Option<Move>>, Board),
> {
    Seq::new(all.len(), |i: int| (Seq::new(4, |k: int| slot_at(all[i].0[k])), all[i].1))
}

impl Board {
    /// Whether the game is finished on this board.
    pub open spec fn over(self) -> bool {
        is_over_of(self)
    }

    /// The winner of a finished game, if it has one.
    pub open spec fn winner(self) -> Option<SnakeId> {
        match winner_of(self) {
            Some(t) => Some(SnakeId(t)),
            None => None,
        }
    }

    /// For each live snake, in the simulator's order, its reasonable moves.
    pub open spec fn reasonable_moves(self) -> Seq<(SnakeId, Seq<Move>)> {
        Seq::new(
            moves_of(self).len(),
            |i: int|
                (
                    SnakeId(moves_of(self)[i].0),
                    Seq::new(
                        moves_of(self)[i].1.len(),
                        |k: int| Move::at(moves_of(self)[i].1[k] as int),
                    ),
                ),
        )
    }

    /// The joint move gives one direction to each live snake, in order.
    pub open spec fn covered_by(self, joint: Seq<(SnakeId, Move)>) -> bool {
        &&& joint.len() == self.reasonable_moves().len()
        &&& forall|i: int|
            0 <= i < joint.len() ==> (#[trigger] joint[i]).0 == self.reasonable_moves()[i].0
    }

    /// The joint move gives each live snake one of its reasonable moves.
    pub open spec fn admits(self, joint: Seq<(SnakeId, Move)>) -> bool {
        &&& self.covered_by(joint)
        &&& forall|i: int|
            0 <= i < joint.len() ==> self.reasonable_moves()[i].1.contains((#[trigger] joint[i]).1)
    }

    /// What the simulator makes of a joint move: the action's slots and the
    /// next board, or nothing.
    pub open spec fn simulated(self, joint: Seq<(SnakeId, Move)>) -> Option<
        (Seq<Option<Move>>, Board),
    > {
        let all = typed_outcomes_of(simulated_of(self, joint_lists(joint)));
        if all.len() > 0 {
            Some(all[0])
        } else {
            None
        }
    }

    /// The board that follows a joint move, where the simulator yields one.
    pub open spec fn successor(self, joint: Seq<(SnakeId, Move)>) -> Option<Board> {
        match self.simulated(joint) {
            Some(step) => Some(step.1),
            None => None,
        }
    }

    /// Whether the game is finished on this board.
    pub fn is_over(&self) -> (over: bool)
        ensures
            over == self.over(),
    {
        raw_is_over(self)
    }

    /// The winner of a finished game, if it has one.
    pub fn get_winner(&self) -> (w: Option<SnakeId>)
        ensures
            w == self.winner(),
            w matches Some(s) ==> s.0 < 4,
            w is Some ==> self.over(),
    {
        match raw_winner(self) {
            Some(t) => Some(SnakeId(t)),
            None => None,
        }
    }

    /// The reasonable moves of every live snake, in the order of the tags.
    /// Tags are below four and differ; every list holds at least one move
    /// and none twice.
    pub fn reasonable_moves_for_each_snake(&self) -> (lists: Vec<(SnakeId, Vec<Move>)>)
        ensures
            move_lists_view(lists@) == self.reasonable_moves(),
            lists_are_proper(self.reasonable_moves()),
            lists@.len() == self.snake_ids().len(),
            forall|i: int| 0 <= i < lists@.len() ==> (#[trigger] lists@[i]).0 == self.snake_ids()[i],
            lists@.len() <= 4,
            forall|i: int| 0 <= i < lists@.len() ==> (#[trigger] lists@[i]).0.0 < 4,
            forall|i: int| 0 <= i < lists@.len() ==> 1 <= (#[trigger] lists@[i]).1@.len() <= 4,
    {
        let raw = raw_moves(self);
        let mut lists: Vec<(SnakeId, Vec<Move>)> = Vec::new();
        let mut i: usize = 0;
        while i < raw.len()
            invariant
                i <= raw@.len(),
                lists_view(raw@) == moves_of(*self),
                lists_in_shape(lists_view(raw@)),
                names_the_live(*self, lists_view(raw@)),
                lists@.len() == i,
                forall|j: int|
                    0 <= j < i ==> (#[trigger] lists@[j]).0 == SnakeId(raw@[j].0)
                        && lists@[j].1@ == Seq::new(
                        raw@[j].1@.len(),
                        |k: int| Move::at(raw@[j].1@[k] as int),
                    ),
            decreases raw@.len() - i,
        {
            let ghost entry = lists_view(raw@)[i as int];
            assert(entry.1 == raw@[i as int].1@);
            let mut moves: Vec<Move> = Vec::new();
            let mut k: usize = 0;
            while k < raw[i].1.len()
                invariant
                    i < raw@.len(),
                    k <= raw@[i as int].1@.len(),
                    moves@.len() == k,
                    forall|n: int| 0 <= n < raw@[i as int].1@.len() ==> raw@[i as int].1@[n] < 4,
                    forall|n: int|
                        0 <= n < k ==> #[trigger] moves@[n] == Move::at(raw@[i as int].1@[n] as int),
                decreases raw@[i as int].1@.len() - k,
            {
                moves.push(Move::from_index(raw[i].1[k] as usize));
                k = k + 1;
            }
            assert(moves@ =~= Seq::new(
                raw@[i as int].1@.len(),
                |n: int| Move::at(raw@[i as int].1@[n] as int),
            ));
            lists.push((SnakeId(raw[i].0), moves));
            i = i + 1;
        }
        proof {
            let m = moves_of(*self);
            assert(m.len() == raw@.len());
            assert forall|j: int| 0 <= j < lists@.len() implies (#[trigger] lists@[j]).0
                == self.snake_ids()[j] by {
                assert(lists_view(raw@)[j].0 == snake_ids_of(*self)[j]);
            }
            assert forall|j: int| 0 <= j < lists@.len() implies (#[trigger] move_lists_view(
                lists@,
            )[j]) == self.reasonable_moves()[j] by {
                assert(lists_view(raw@)[j] == m[j]);
                assert(m[j].1 == raw@[j].1@);
            }
            assert(move_lists_view(lists@) =~= self.reasonable_moves());
            assert forall|j: int| 0 <= j < lists@.len() implies (#[trigger] lists@[j]).0.0 < 4
                && 1 <= lists@[j].1@.len() <= 4 by {
                assert(lists_view(raw@)[j] == m[j]);
            }
            let typed = self.reasonable_moves();
            assert forall|i: int, j: int| 0 <= i < j < typed.len() implies (#[trigger] typed[i]).0
                != (#[trigger] typed[j]).0 by {
                assert(m[i].0 < m[j].0);
            }
            assert forall|i: int, k: int, l: int|
                0 <= i < typed.len() && 0 <= k < l < typed[i].1.len() implies (
            #[trigger] typed[i].1[k]) != (#[trigger] typed[i].1[l]) by {
                assert(m[i].1[k] < m[i].1[l]);
                assert(m[i].1[k] < 4 && m[i].1[l] < 4);
            }
            assert forall|i: int| 0 <= i < typed.len() implies (#[trigger] typed[i]).0.0 < 4 by {
                assert(m[i].0 < 4);
            }
        }
        lists
    }

    /// Plays one direction per live snake and gives the action the simulator
    /// names with the board that follows, or nothing where the simulator
    /// yields no board. The action holds for every snake of the joint move
    /// the direction it took.
    pub fn simulate_with_moves(&self, joint: &JointMove) -> (next: Option<(Action, Board)>)
        requires
            self.covered_by(joint@),
        ensures
            next matches Some((action, board)) ==> self.simulated(joint@) == Some(
                (action@, board),
            ) && forall|i: int|
                0 <= i < joint@.len() && (#[trigger] joint@[i]).0.0 < 4 ==> action@[joint@[i].0.0 as int]
                    == Some(joint@[i].1),
            next matches Some((action, board)) ==> keeps_empty(*self, board),
            next is None ==> self.simulated(joint@) is None,
    {
        let mut lists: Vec<(u8, Vec<u8>)> = Vec::new();
        let mut i: usize = 0;
        while i < joint.len()
            invariant
                i <= joint@.len(),
                lists@.len() == i,
                forall|j: int|
                    0 <= j < i ==> (#[trigger] lists@[j]).0 == joint@[j].0.0 && lists@[j].1@
                        == seq![joint@[j].1.index() as u8],
            decreases joint@.len() - i,
        {
            let (sid, mv) = joint[i];
            let k: usize = mv.as_index();
            let only: Vec<u8> = vec![k as u8];
            lists.push((sid.0, only));
            i = i + 1;
        }
        let ghost plain = lists_view(lists@);
        assert(plain =~= joint_lists(joint@));
        assert(offers_moves(*self, plain)) by {
            assert forall|j: int| 0 <= j < plain.len() implies (#[trigger] plain[j]).0
                == moves_of(*self)[j].0 by {
                assert(joint@[j].0 == self.reasonable_moves()[j].0);
            }
        }
        let mut all = Board::typed_outcomes(raw_simulate(self, &lists));
        if all.len() == 0 {
            return None;
        }
        let first = all.swap_remove(0);
        proof {
            let action = first.0;
            let slots = simulated_of(*self, plain)[0].0;
            assert(takes_from(slots, plain));
            assert forall|i: int|
                0 <= i < joint@.len() && (#[trigger] joint@[i]).0.0 < 4 implies action@[joint@[i].0.0 as int]
                == Some(joint@[i].1) by {
                let tag = plain[i].0 as int;
                assert(slots[tag] is Some && plain[i].1.contains(slots[tag]->0));
                assert(plain[i].1 == seq![joint@[i].1.index() as u8]);
                let k = choose|k: int| 0 <= k < plain[i].1.len() && plain[i].1[k] == slots[tag]->0;
                assert(slots[tag] == Some(joint@[i].1.index() as u8));
            }
        }
        Some(first)
    }

    fn slot(slot: Option<u8>) -> (s: Option<Move>)
        requires
            slot matches Some(k) ==> k < 4,
        ensures
            s == slot_at(slot),
    {
        match slot {
            Some(k) => Some(Move::from_index(k as usize)),
            None => None,
        }
    }

    /// One reasonable move for every live snake, each drawn at random.
    pub fn random_reasonable_move_for_each_snake(&self, rng: &mut rand::rngs::ThreadRng) -> (joint:
        JointMove)
        ensures
            self.admits(joint@),
    {
        let raw = raw_random_moves(self, rng);
        let mut joint: JointMove = Vec::new();
        let mut i: usize = 0;
        while i < raw.len()
            invariant
                i <= raw@.len(),
                is_reasonable(*self, raw@),
                joint@.len() == i,
                forall|j: int|
                    0 <= j < i ==> (#[trigger] joint@[j]) == (
                        SnakeId(raw@[j].0),
                        Move::at(raw@[j].1 as int),
                    ),
            decreases raw@.len() - i,
        {
            joint.push((SnakeId(raw[i].0), Move::from_index(raw[i].1 as usize)));
            i = i + 1;
        }
        proof {
            assert forall|j: int| 0 <= j < joint@.len() implies (#[trigger] joint@[j]).0
                == self.reasonable_moves()[j].0 && self.reasonable_moves()[j].1.contains(
                joint@[j].1,
            ) by {
                let list = moves_of(*self)[j].1;
                assert(list.contains(raw@[j].1));
                let k = choose|k: int| 0 <= k < list.len() && list[k] == raw@[j].1;
                assert(self.reasonable_moves()[j].1[k] == joint@[j].1);
            }
        }
        joint
    }

    /// Every outcome of the reasonable moves, as the action's slots and the
    /// board that follows.
    pub open spec fn outcomes(self) -> Seq<(Seq<Option<Move>>, Board)> {
        typed_outcomes_of(simulated_of(self, moves_of(self)))
    }

    /// Every outcome of any moves of the live snakes, as the action's slots
    /// and the board that follows.
    pub open spec fn all_outcomes(self) -> Seq<(Seq<Option<Move>>, Board)> {
        typed_outcomes_of(all_outcomes_of(self, snake_ids_of(self)))
    }

    /// The live snakes.
    pub open spec fn snake_ids(self) -> Seq<SnakeId> {
        Seq::new(snake_ids_of(self).len(), |i: int| SnakeId(snake_ids_of(self)[i]))
    }

    /// The actions and boards that slots of move indices and boards stand
    /// for.
    fn typed_outcomes(raw: Vec<(Vec<Option<u8>>, Board)>) -> (all: Vec<(Action, Board)>)
        requires
            forall|j: int| 0 <= j < raw@.len() ==> is_action((#[trigger] raw@[j]).0@),
        ensures
            all@.len() == raw@.len(),
            forall|j: int|
                0 <= j < all@.len() ==> ((#[trigger] all@[j]).0@, all@[j].1) == typed_outcomes_of(
                    outcomes_view(raw@),
                )[j],
    {
        let mut all: Vec<(Action, Board)> = Vec::new();
        let mut i: usize = 0;
        while i < raw.len()
            invariant
                i <= raw@.len(),
                forall|j: int| 0 <= j < raw@.len() ==> is_action((#[trigger] raw@[j]).0@),
                all@.len() == i,
                forall|j: int|
                    0 <= j < i ==> ((#[trigger] all@[j]).0@, all@[j].1) == typed_outcomes_of(
                        outcomes_view(raw@),
                    )[j],
            decreases raw@.len() - i,
        {
            let slots = &raw[i].0;
            assert(is_action(raw@[i as int].0@));
            let action = Action::new(
                [
                    Board::slot(slots[0]),
                    Board::slot(slots[1]),
                    Board::slot(slots[2]),
                    Board::slot(slots[3]),
                ],
            );
            assert(action@ =~= typed_outcomes_of(outcomes_view(raw@))[i as int].0);
            all.push((action, raw[i].1));
            i = i + 1;
        }
        all
    }

    /// Plays every combination of reasonable moves that the simulator
    /// considers and gives each action with the board that follows.
    pub fn simulate_reasonable_moves(&self) -> (all: Vec<(Action, Board)>)
        ensures
            all@.len() == self.outcomes().len(),
            forall|i: int|
                0 <= i < all@.len() ==> (#[trigger] all@[i]).0@ == self.outcomes()[i].0
                    && all@[i].1 == self.outcomes()[i].1,
    {
        let lists = raw_moves(self);
        Board::typed_outcomes(raw_simulate(self, &lists))
    }

    /// Plays every combination of the four directions that the simulator
    /// considers for the live snakes and gives each action with the board
    /// that follows.
    pub fn simulate(&self) -> (all: Vec<(Action, Board)>)
        ensures
            all@.len() == self.all_outcomes().len(),
            forall|i: int|
                0 <= i < all@.len() ==> (#[trigger] all@[i]).0@ == self.all_outcomes()[i].0
                    && all@[i].1 == self.all_outcomes()[i].1,
    {
        let ids = raw_snake_ids(self);
        Board::typed_outcomes(raw_all_outcomes(self, &ids))
    }

    /// The tags of the live snakes.
    pub fn get_snake_ids(&self) -> (ids: Vec<SnakeId>)
        ensures
            ids@ == self.snake_ids(),
            forall|i: int| 0 <= i < ids@.len() ==> (#[trigger] ids@[i]).0 < 4,
    {
        let raw = raw_snake_ids(self);
        let mut ids: Vec<SnakeId> = Vec::new();
        let mut i: usize = 0;
        while i < raw.len()
            invariant
                i <= raw@.len(),
                raw@ == snake_ids_of(*self),
                forall|j: int| 0 <= j < raw@.len() ==> #[trigger] raw@[j] < 4,
                ids@.len() == i,
                forall|j: int| 0 <= j < i ==> #[trigger] ids@[j] == SnakeId(raw@[j]),
            decreases raw@.len() - i,
        {
            ids.push(SnakeId(raw[i]));
            i = i + 1;
        }
        assert(ids@ =~= self.snake_ids());
        ids
    }

    /// Whether the snake is alive: whether it has health left.
    pub fn is_alive(&self, sid: SnakeId) -> (alive: bool)
        requires
            sid.0 < 4,
        ensures
            alive == (health_of(*self, sid.0) != 0),
    {
        raw_health(self, sid.0) != 0
    }

    /// Number of neighbouring cells of the snake's head that lie on the
    /// board.
    pub fn count_possible_moves(&self, sid: SnakeId) -> (n: usize)
        requires
            sid.0 < 4,
        ensures
            n == mobility_of(*self, sid.0),
            n <= 4,
    {
        raw_possible_moves(self, sid.0).len()
    }

    /// The cell of the snake's head, as column and row.
    pub fn get_head_as_position(&self, sid: SnakeId) -> (head: (i32, i32))
        requires
            sid.0 < 4,
        ensures
            head == head_of(*self, sid.0),
    {
        raw_head(self, sid.0)
    }

    /// The cells that hold food, as column and row.
    pub fn get_all_food_as_positions(&self) -> (food: Vec<(i32, i32)>)
        ensures
            food@ == food_of(*self),
    {
        raw_food(self)
    }

    /// The health of the snake in a slot; 0 for a dead snake and an empty slot.
    pub fn get_health(&self, sid: SnakeId) -> (h: u8)
        requires
            sid.0 < 4,
        ensures
            h == health_of(*self, sid.0),
    {
        raw_health(self, sid.0)
    }

    /// The length of the snake in a slot.
    pub fn get_length(&self, sid: SnakeId) -> (l: u16)
        requires
            sid.0 < 4,
        ensures
            l == length_of(*self, sid.0),
    {
        raw_length(self, sid.0)
    }
}

impl battlesnake_game_types::types::SimulatorInstruments for Simulator {
    fn observe_simulation(&self, _d: std::time::Duration) {
    }
}

} // verus!
