//! The search tree and the Monte-Carlo tree search that grows it.
//!
//! A node owns its children; the way back to the root is the way the search
//! came down, so a playout's outcome is added to every node on that way as
//! the descent returns.

use vstd::prelude::*;
use std::sync::atomic::{AtomicBool, Ordering};
use crate::board::{lists_are_proper, Board, JointMove};
use crate::eval::{evaluate_board, evaluation};
use crate::combinations::{
    combinations, generate_move_combinations, joint_moves_view, nth_combination,
    places_differ_somewhere,
};
use crate::non_pushable_queue::NonPushableQueue;
use crate::selection::{is_last_maximum, last_maximum};
use crate::types::{action_key, slot_of, Action, Move, SnakeId};

verus! {

/// A child of a node: the action that leads to it and the node itself.
pub struct Child {
    action: Action,
    node: Node,
}

/// One position of the search tree.
pub struct Node {
    board: Board,
    next_nodes: Vec<Child>,
    possible_moves: NonPushableQueue<JointMove>,
    wins: u32,
    visits: u32,
}

/// The joint moves a node on this board starts with: none where the game is
/// over, else every combination of the snakes' reasonable moves.
pub open spec fn initial_moves(board: Board) -> Seq<Seq<(SnakeId, Move)>> {
    if board.over() {
        Seq::empty()
    } else {
        combinations(board.reasonable_moves())
    }
}

/// Children stand in the rising order of their actions' keys.
spec fn ordered(children: Seq<Child>) -> bool {
    forall|i: int, j: int|
        0 <= i < j < children.len() ==> action_key((#[trigger] children[i]).action@) < action_key(
            (#[trigger] children[j]).action@,
        )
}

/// The action holds for every snake of the joint move the direction it took.
pub open spec fn holds_moves(slots: Seq<Option<Move>>, joint: Seq<(SnakeId, Move)>) -> bool {
    forall|i: int|
        0 <= i < joint.len() && (#[trigger] joint[i]).0.0 < 4 ==> slots[joint[i].0.0 as int]
            == Some(joint[i].1)
}

/// The action `slots` and the board `next` are what the simulator makes of
/// one of the first `done` initial moves of the board, and the action holds
/// the directions of that move.
pub open spec fn is_outcome_of(
    board: Board,
    done: int,
    slots: Seq<Option<Move>>,
    next: Board,
) -> bool {
    exists|k: int|
        0 <= k < done && board.simulated(#[trigger] initial_moves(board)[k]) == Some((slots, next))
            && holds_moves(slots, initial_moves(board)[k])
}

/// The action made of the initial move at place `done` differs from every
/// action made of an earlier initial move.
proof fn later_move_gives_another_action(
    board: Board,
    done: int,
    earlier: Seq<Option<Move>>,
    next: Board,
    later: Seq<Option<Move>>,
)
    requires
        !board.over(),
        lists_are_proper(board.reasonable_moves()),
        0 <= done < initial_moves(board).len(),
        is_outcome_of(board, done, earlier, next),
        holds_moves(later, initial_moves(board)[done]),
        earlier.len() == 4,
        later.len() == 4,
    ensures
        action_key(earlier) != action_key(later),
{
    let lists = board.reasonable_moves();
    let initial = initial_moves(board);
    let k = choose|k: int|
        0 <= k < done && board.simulated(#[trigger] initial_moves(board)[k]) == Some(
            (earlier, next),
        ) && holds_moves(earlier, initial_moves(board)[k]);
    places_differ_somewhere(lists, k, done);
    let p = choose|p: int|
        0 <= p < lists.len() && (#[trigger] nth_combination(lists, k)[p]).1 != nth_combination(
            lists,
            done,
        )[p].1;
    assert(initial[k][p].0 == lists[p].0 && initial[done][p].0 == lists[p].0);
    assert(earlier[lists[p].0.0 as int] == Some(initial[k][p].1));
    assert(later[lists[p].0.0 as int] == Some(initial[done][p].1));
    if action_key(earlier) == action_key(later) {
        crate::types::slots_with_one_key_are_the_same(earlier, later);
    }
}

/// The child is what the simulator makes of one of the first `done` initial
/// moves of the board.
spec fn comes_from(board: Board, done: int, child: Child) -> bool {
    is_outcome_of(board, done, child.action@, child.node.board)
}

/// The visits of all the children together.
pub open spec fn visits_below(children: Seq<(Seq<Option<Move>>, Node)>) -> nat
    decreases children.len(),
{
    if children.len() == 0 {
        0
    } else {
        visits_below(children.drop_last()) + children.last().1.visit_count()
    }
}

/// A child that is slipped in adds its visits to those of the others.
proof fn visits_below_after_insert(
    children: Seq<(Seq<Option<Move>>, Node)>,
    at: int,
    child: (Seq<Option<Move>>, Node),
)
    requires
        0 <= at <= children.len(),
    ensures
        visits_below(children.insert(at, child)) == visits_below(children) + child.1.visit_count(),
    decreases children.len(),
{
    let after = children.insert(at, child);
    if at == children.len() {
        assert(after.drop_last() =~= children);
    } else {
        assert(after.drop_last() =~= children.drop_last().insert(at, child));
        assert(after.last() == children.last());
        visits_below_after_insert(children.drop_last(), at, child);
    }
}

/// A child that takes the place of another brings its visits for the
/// other's.
proof fn visits_below_after_update(
    children: Seq<(Seq<Option<Move>>, Node)>,
    at: int,
    child: (Seq<Option<Move>>, Node),
)
    requires
        0 <= at < children.len(),
    ensures
        visits_below(children.update(at, child)) == visits_below(children)
            - children[at].1.visit_count() + child.1.visit_count(),
        children[at].1.visit_count() <= visits_below(children),
    decreases children.len(),
{
    let after = children.update(at, child);
    if at == children.len() - 1 {
        assert(after.drop_last() =~= children.drop_last());
    } else {
        assert(after.drop_last() =~= children.drop_last().update(at, child));
        assert(after.last() == children.last());
        visits_below_after_update(children.drop_last(), at, child);
    }
}

/// The first children were visited no more often together than all of
/// them.
proof fn visits_below_grow(children: Seq<(Seq<Option<Move>>, Node)>, k: int)
    requires
        0 <= k <= children.len(),
    ensures
        visits_below(children.take(k)) <= visits_below(children),
    decreases children.len() - k,
{
    if k < children.len() {
        visits_below_grow(children, k + 1);
        assert(children.take(k + 1).drop_last() =~= children.take(k));
    } else {
        assert(children.take(k) =~= children);
    }
}

/// `after` is `before` with the child slipped in at place `at`.
pub open spec fn put_at(
    before: Seq<(Seq<Option<Move>>, Node)>,
    after: Seq<(Seq<Option<Move>>, Node)>,
    at: int,
    slots: Seq<Option<Move>>,
    fresh: Node,
) -> bool {
    0 <= at <= before.len() && after == before.insert(at, (slots, fresh))
}

/// `after` is `before` with a fresh node for the board `next` put under the
/// action `slots`.
pub open spec fn gained_child(
    before: Seq<(Seq<Option<Move>>, Node)>,
    after: Seq<(Seq<Option<Move>>, Node)>,
    slots: Seq<Option<Move>>,
    next: Board,
) -> bool {
    exists|at: int, fresh: Node| #[trigger]
        put_at(before, after, at, slots, fresh) && fresh.wf() && fresh.is_fresh(next)
}

impl Node {
    /// The board of this node.
    pub closed spec fn board(&self) -> Board {
        self.board
    }

    /// Number of playouts that passed through this node.
    pub closed spec fn visit_count(&self) -> nat {
        self.visits as nat
    }

    /// Number of those playouts that were won.
    pub closed spec fn win_count(&self) -> nat {
        self.wins as nat
    }

    /// The children in the order of their actions' keys, each as the slots of
    /// its action with its node.
    pub closed spec fn children(&self) -> Seq<(Seq<Option<Move>>, Node)> {
        Seq::new(
            self.next_nodes@.len(),
            |i: int| (self.next_nodes@[i].action@, self.next_nodes@[i].node),
        )
    }

    /// The joint moves that are not expanded yet, the next one first.
    pub closed spec fn pending(&self) -> Seq<Seq<(SnakeId, Move)>> {
        joint_moves_view(self.possible_moves@)
    }

    /// Number of joint moves that were taken from the pending ones.
    pub open spec fn expanded(&self) -> int {
        initial_moves(self.board()).len() - self.pending().len()
    }

    /// No chain of children below this node is longer than `depth`.
    pub closed spec fn depth_at_most(&self, depth: nat) -> bool
        decreases self,
    {
        forall|i: int|
            0 <= i < self.next_nodes@.len() ==> depth > 0 && (
            #[trigger] self.next_nodes@[i]).node.depth_at_most((depth - 1) as nat)
    }

    /// The invariant of the tree below and at this node: the node has no
    /// more wins than visits, its children were visited no more often
    /// together than the node itself, they are ordered by key without
    /// repeats, every child comes from an expanded joint move of this board,
    /// and what is pending is the rest of the enumeration.
    pub closed spec fn wf(&self) -> bool
        decreases self,
    {
        &&& self.wins <= self.visits
        &&& visits_below(self.children()) <= self.visits
        &&& !self.board.over() ==> lists_are_proper(self.board.reasonable_moves())
        &&& self.pending().len() <= initial_moves(self.board).len()
        &&& self.pending() == initial_moves(self.board).skip(self.expanded())
        &&& self.next_nodes@.len() <= self.expanded()
        &&& ordered(self.next_nodes@)
        &&& forall|i: int|
            0 <= i < self.next_nodes@.len() ==> {
                &&& (#[trigger] self.next_nodes@[i]).node.wf()
                &&& self.next_nodes@[i].node.visits <= self.visits
                &&& comes_from(self.board, self.expanded(), self.next_nodes@[i])
            }
    }

    /// A node without children and without playouts whose pending moves are
    /// all the initial moves of the board.
    pub open spec fn is_fresh(&self, board: Board) -> bool {
        &&& self.board() == board
        &&& self.visit_count() == 0
        &&& self.win_count() == 0
        &&& self.children().len() == 0
        &&& self.pending() == initial_moves(board)
    }

    /// In a well-formed tree no node has more wins than visits, the children
    /// of a node were visited no more often together than the node, and
    /// every child is a well-formed tree again.
    pub proof fn wins_never_exceed_visits(&self)
        requires
            self.wf(),
        ensures
            self.win_count() <= self.visit_count(),
            visits_below(self.children()) <= self.visit_count(),
            forall|i: int|
                0 <= i < self.children().len() ==> (#[trigger] self.children()[i]).1.wf()
                    && self.children()[i].1.visit_count() <= self.visit_count(),
    {
        assert forall|i: int| 0 <= i < self.children().len() implies (
        #[trigger] self.children()[i]).1.wf() && self.children()[i].1.visit_count()
            <= self.visit_count() by {
            assert(self.next_nodes@[i].node.wf());
        }
    }

    /// In a well-formed tree a node has no more children than it had pending
    /// moves at the start, no two children stand under the same action, and
    /// every child holds what the simulator makes of one of the node's
    /// initial moves that is no longer pending.
    pub proof fn children_come_from_the_enumeration(&self)
        requires
            self.wf(),
        ensures
            self.children().len() + self.pending().len() <= initial_moves(self.board()).len(),
            self.pending() == initial_moves(self.board()).skip(self.expanded()),
            forall|i: int, j: int|
                0 <= i < j < self.children().len() ==> (#[trigger] self.children()[i]).0 != (
                #[trigger] self.children()[j]).0,
            forall|i: int|
                0 <= i < self.children().len() ==> is_outcome_of(
                    self.board(),
                    self.expanded(),
                    (#[trigger] self.children()[i]).0,
                    self.children()[i].1.board(),
                ),
    {
        assert forall|i: int, j: int| 0 <= i < j < self.children().len() implies (
        #[trigger] self.children()[i]).0 != (#[trigger] self.children()[j]).0 by {
            assert(action_key(self.next_nodes@[i].action@) < action_key(
                self.next_nodes@[j].action@,
            ));
        }
        assert forall|i: int| 0 <= i < self.children().len() implies is_outcome_of(
            self.board(),
            self.expanded(),
            (#[trigger] self.children()[i]).0,
            self.children()[i].1.board(),
        ) by {
            assert(comes_from(self.board, self.expanded(), self.next_nodes@[i]));
        }
    }

    /// In a well-formed tree the action of every child holds, for each live
    /// snake of the node's board, one of the snake's reasonable moves.
    pub proof fn children_hold_reasonable_moves(&self)
        requires
            self.wf(),
        ensures
            forall|i: int, at: int|
                0 <= i < self.children().len() && 0 <= at < self.board().reasonable_moves().len()
                    && self.board().reasonable_moves()[at].0.0 < 4 ==> {
                    let list = self.board().reasonable_moves()[at];
                    let slot = (#[trigger] self.children()[i]).0[list.0.0 as int];
                    slot is Some && (#[trigger] self.board().reasonable_moves()[at]).1.contains(
                        slot->0,
                    )
                },
    {
        let lists = self.board().reasonable_moves();
        assert forall|i: int, at: int|
            0 <= i < self.children().len() && 0 <= at < lists.len() && lists[at].0.0 < 4 implies {
            let list = self.board().reasonable_moves()[at];
            let slot = (#[trigger] self.children()[i]).0[list.0.0 as int];
            slot is Some && (#[trigger] self.board().reasonable_moves()[at]).1.contains(slot->0)
        } by {
            assert(comes_from(self.board, self.expanded(), self.next_nodes@[i]));
            let slots = self.children()[i].0;
            let k = choose|k: int|
                0 <= k < self.expanded() && self.board.simulated(
                    #[trigger] initial_moves(self.board)[k],
                ) == Some((slots, self.next_nodes@[i].node.board)) && holds_moves(
                    slots,
                    initial_moves(self.board)[k],
                );
            let joint = initial_moves(self.board)[k];
            crate::combinations::digits_are_valid(lists, k);
            let digits = crate::combinations::digits_at(lists, k);
            assert(joint[at] == (lists[at].0, lists[at].1[digits[at]]));
            assert(slots[joint[at].0.0 as int] == Some(joint[at].1));
        }
    }
}

/// A bound on the depth only grows.
proof fn depth_bound_grows(node: Node, low: nat, high: nat)
    requires
        node.depth_at_most(low),
        low <= high,
    ensures
        node.depth_at_most(high),
    decreases node,
{
    assert forall|i: int| 0 <= i < node.next_nodes@.len() implies high > 0 && (
    #[trigger] node.next_nodes@[i]).node.depth_at_most((high - 1) as nat) by {
        depth_bound_grows(node.next_nodes@[i].node, (low - 1) as nat, (high - 1) as nat);
    }
}

/// The rating function can be asked about any counters.
pub open spec fn rates_all<F: Fn(u32, u32, u32) -> i64>(score: &F) -> bool {
    forall|wins: u32, visits: u32, parent_visits: u32|
        call_requires(score, (wins, visits, parent_visits))
}

/// The rating that looks at nothing but the wins of a child: what remains of
/// a rating by upper confidence bounds when exploration has no weight.
pub fn exploit(wins: u32, _visits: u32, _parent_visits: u32) -> (rating: i64)
    ensures
        rating == wins,
{
    wins as i64
}

/// `scores` holds, child by child, a rating that `score` can give to the
/// child's wins and visits and the parent's visits.
pub open spec fn rated_by<F: Fn(u32, u32, u32) -> i64>(
    score: &F,
    parent_visits: nat,
    children: Seq<(Seq<Option<Move>>, Node)>,
    scores: Seq<i64>,
) -> bool {
    &&& scores.len() == children.len()
    &&& forall|j: int|
        0 <= j < children.len() ==> call_ensures(
            score,
            (
                children[j].1.win_count() as u32,
                children[j].1.visit_count() as u32,
                parent_visits as u32,
            ),
            #[trigger] scores[j],
        )
}

/// `at` is the place of the child that the rating function prefers: the one
/// with the greatest rating, the last such child where several share it.
pub open spec fn preferred<F: Fn(u32, u32, u32) -> i64>(
    score: &F,
    parent_visits: nat,
    children: Seq<(Seq<Option<Move>>, Node)>,
    at: int,
) -> bool {
    exists|scores: Seq<i64>| #[trigger]
        rated_by(score, parent_visits, children, scores) && is_last_maximum(scores, at)
}

/// `a` has fewer visits than `b`, or as many visits and no more wins.
pub open spec fn no_better(a: Node, b: Node) -> bool {
    a.visit_count() < b.visit_count() || (a.visit_count() == b.visit_count() && a.win_count()
        <= b.win_count())
}

/// The child at `at` has the most visits; among children with as many visits
/// it has the most wins; among children equal in both it stands last.
pub open spec fn is_most_visited(children: Seq<(Seq<Option<Move>>, Node)>, at: int) -> bool {
    &&& 0 <= at < children.len()
    &&& forall|j: int|
        0 <= j < children.len() ==> no_better(#[trigger] children[j].1, children[at].1)
    &&& forall|j: int|
        at < j < children.len() ==> !no_better(children[at].1, #[trigger] children[j].1)
}

/// What a playout is worth to `you`: 1 where `you` has won, else 0.
pub open spec fn outcome_for(winner: Option<SnakeId>, you: SnakeId) -> int {
    if winner == Some(you) {
        1
    } else {
        0
    }
}

/// What a playout that ended with `winner` is worth to `you`.
pub fn playout_outcome(winner: Option<SnakeId>, you: &SnakeId) -> (outcome: u32)
    ensures
        outcome == outcome_for(winner, *you),
{
    match winner {
        Some(w) => if w.0 == you.0 {
            1
        } else {
            0
        },
        None => 0,
    }
}

/// `next` follows `board` by a joint move that gives every live snake one of
/// its reasonable moves.
pub open spec fn follows(board: Board, next: Board) -> bool {
    exists|joint: Seq<(SnakeId, Move)>| #[trigger]
        board.admits(joint) && board.successor(joint) == Some(next)
}

/// The simulator yields no board for some reasonable joint move on `board`.
pub open spec fn is_dead_end(board: Board) -> bool {
    exists|joint: Seq<(SnakeId, Move)>| #[trigger]
        board.admits(joint) && board.simulated(joint) is None
}

/// `end` is reached from `start` by `steps` reasonable joint moves, each
/// played on a board where the game is not over.
pub open spec fn reaches(start: Board, end: Board, steps: nat) -> bool
    decreases steps,
{
    if steps == 0 {
        start == end
    } else {
        exists|mid: Board|
            #![trigger follows(mid, end)]
            reaches(start, mid, (steps - 1) as nat) && !mid.over() && follows(mid, end)
    }
}

/// On a board where the game is over no move is played.
pub proof fn nothing_follows_the_end(start: Board, end: Board, steps: nat)
    requires
        start.over(),
        reaches(start, end, steps),
    ensures
        steps == 0,
        end == start,
    decreases steps,
{
    if steps > 0 {
        let mid = choose|mid: Board|
            #![trigger follows(mid, end)]
            reaches(start, mid, (steps - 1) as nat) && !mid.over() && follows(mid, end);
        nothing_follows_the_end(start, mid, (steps - 1) as nat);
    }
}

/// `end` is where a playout from `start` can stop after `steps` moves: the
/// game is over there, or the simulator gives no next board, or the count of
/// moves has reached the largest `u64`.
pub open spec fn ends_playout(start: Board, end: Board, steps: nat) -> bool {
    &&& reaches(start, end, steps)
    &&& end.over() || is_dead_end(end) || steps == u64::MAX
}

/// Plays reasonable moves drawn at random, one per live snake and turn, until
/// the game is over. Gives the board at the end and the number of turns
/// played.
pub fn random_playout(board: &Board) -> (end: (Board, u64))
    ensures
        ends_playout(*board, end.0, end.1 as nat),
{
    let mut rng = rand::thread_rng();
    let mut current: Board = *board;
    let mut steps: u64 = 0;
    while !current.is_over() && steps < u64::MAX
        invariant
            reaches(*board, current, steps as nat),
        ensures
            ends_playout(*board, current, steps as nat),
        decreases u64::MAX - steps,
    {
        let moves = current.random_reasonable_move_for_each_snake(&mut rng);
        match current.simulate_with_moves(&moves) {
            Some((_, next)) => {
                proof {
                    assert(current.admits(moves@) && current.successor(moves@) == Some(next));
                    assert(follows(current, next));
                    let turns = (steps + 1) as nat;
                    assert(reaches(*board, current, (turns - 1) as nat) && !current.over()
                        && follows(current, next));
                    assert(reaches(*board, next, turns));
                }
                current = next;
                steps = steps + 1;
            },
            None => {
                proof {
                    assert(current.admits(moves@) && current.simulated(moves@) is None);
                }
                break ;
            },
        }
    }
    (current, steps)
}

/// What one expansion makes of a node. Where no move is pending nothing
/// changes. Else the first pending move is played: where the simulator
/// yields a board, the move leaves the pending ones and a fresh node for the
/// board is put under the action; where it yields none, no child appears and
/// nothing stays pending, so that the node is left alone from then on.
pub open spec fn expansion(before: Node, after: Node) -> bool {
    if before.pending().len() == 0 {
        after.pending() == before.pending() && after.children() == before.children()
    } else {
        match before.board().simulated(before.pending()[0]) {
            None => after.pending().len() == 0 && after.children() == before.children(),
            Some((slots, next)) => after.pending() == before.pending().drop_first()
                && gained_child(before.children(), after.children(), slots, next),
        }
    }
}

/// A pass of the search goes no further than this node: the game is over
/// here, or a move is pending, or there is no child to go to.
pub open spec fn stops_at(node: Node) -> bool {
    node.board().over() || node.pending().len() > 0 || node.children().len() == 0
}

/// What a pass does to the node where it stops: the first pending move, if
/// there is one, is expanded, and `outcome` is what a playout from the
/// node's board is worth to `you`.
pub open spec fn stopped_pass(before: Node, after: Node, you: SnakeId, outcome: int) -> bool {
    &&& if before.board().over() {
        after.pending() == before.pending() && after.children() == before.children()
    } else {
        expansion(before, after)
    }
    &&& exists|end: Board, steps: nat| #[trigger]
        ends_playout(before.board(), end, steps) && outcome == outcome_for(end.winner(), you)
}

/// What a pass does to a node that it goes through: the child at `at` stays
/// under its action and is what one pass with the same outcome makes of it,
/// and nothing else has changed at the node.
pub open spec fn descended_pass<F: Fn(u32, u32, u32) -> i64>(
    score: &F,
    before: Node,
    after: Node,
    you: SnakeId,
    at: int,
    outcome: int,
) -> bool
    decreases before, 0nat,
{
    &&& after.pending() == before.pending()
    &&& after.children().len() == before.children().len()
    &&& 0 <= at < before.children().len()
    &&& forall|i: int|
        0 <= i < before.children().len() && i != at ==> #[trigger] after.children()[i]
            == before.children()[i]
    &&& after.children()[at].0 == before.children()[at].0
    &&& one_pass(score, before.children()[at].1, after.children()[at].1, you, outcome)
}

/// `after` is `before` after one pass of the search for `you`: the board is
/// the same, there is one visit more and as many wins more as the pass's
/// playout was worth, and the pass stopped at the node or went on into the
/// child that `score` prefers.
pub open spec fn one_pass<F: Fn(u32, u32, u32) -> i64>(
    score: &F,
    before: Node,
    after: Node,
    you: SnakeId,
    outcome: int,
) -> bool
    decreases before, 1nat,
{
    &&& 0 <= outcome <= 1
    &&& after.board() == before.board()
    &&& after.visit_count() == before.visit_count() + 1
    &&& after.win_count() == before.win_count() + outcome
    &&& stops_at(before) ==> stopped_pass(before, after, you, outcome)
    &&& !stops_at(before) ==> exists|at: int| #[trigger]
        preferred(score, before.visit_count(), before.children(), at) && descended_pass(
            score,
            before,
            after,
            you,
            at,
            outcome,
        )
}

/// A pass that stops at a node is a playout started there and leaves the
/// visits of the node's children together as they were; a pass that goes on
/// adds one to them. So a node's visits are the playouts started at it and
/// the visits of its children together.
pub proof fn a_pass_counts_once_below<F: Fn(u32, u32, u32) -> i64>(
    score: &F,
    before: Node,
    after: Node,
    you: SnakeId,
    outcome: int,
)
    requires
        one_pass(score, before, after, you, outcome),
    ensures
        after.visit_count() == before.visit_count() + 1,
        visits_below(after.children()) == visits_below(before.children()) + if stops_at(before) {
            0nat
        } else {
            1nat
        },
{
    if stops_at(before) {
        assert(stopped_pass(before, after, you, outcome));
        if !before.board().over() && before.pending().len() > 0 {
            match before.board().simulated(before.pending()[0]) {
                None => {},
                Some((slots, next)) => {
                    let (at, fresh) = choose|at: int, fresh: Node| #[trigger]
                        put_at(before.children(), after.children(), at, slots, fresh) && fresh.wf()
                            && fresh.is_fresh(next);
                    visits_below_after_insert(before.children(), at, (slots, fresh));
                },
            }
        }
    } else {
        let at = choose|at: int| #[trigger]
            preferred(score, before.visit_count(), before.children(), at) && descended_pass(
                score,
                before,
                after,
                you,
                at,
                outcome,
            );
        visits_below_after_update(before.children(), at, after.children()[at]);
        assert(after.children() =~= before.children().update(at, after.children()[at]));
    }
}

/// Puts a child at its place in the order of keys.
fn place(children: &mut Vec<Child>, child: Child) -> (at: usize)
    requires
        ordered(old(children)@),
        forall|i: int|
            0 <= i < old(children)@.len() ==> action_key((#[trigger] old(children)@[i]).action@)
                != action_key(child.action@),
    ensures
        ordered(final(children)@),
        at <= old(children)@.len(),
        final(children)@ == old(children)@.insert(at as int, child),
{
    let key: u16 = child.action.key();
    let ghost before = children@;
    let mut at: usize = 0;
    while at < children.len() && children[at].action.key() < key
        invariant
            at <= children@.len(),
            children@ == before,
            key == action_key(child.action@),
            forall|i: int| 0 <= i < at ==> action_key((#[trigger] before[i]).action@) < key,
        decreases children@.len() - at,
    {
        at = at + 1;
    }
    children.insert(at, child);
    proof {
        let after = children@;
        assert(after == before.insert(at as int, child));
        assert forall|i: int, j: int| 0 <= i < j < after.len() implies action_key(
            (#[trigger] after[i]).action@,
        ) < action_key((#[trigger] after[j]).action@) by {
            let first = if i < at {
                before[i]
            } else if i == at {
                child
            } else {
                before[i - 1]
            };
            let second = if j < at {
                before[j]
            } else if j == at {
                child
            } else {
                before[j - 1]
            };
            assert(after[i] == first && after[j] == second);
            if j > at {
                assert(action_key(before[at as int].action@) <= action_key(second.action@)) by {
                    if j - 1 > at {
                        assert(action_key(before[at as int].action@) < action_key(
                            before[j - 1].action@,
                        ));
                    }
                }
            }
        }
    }
    at
}

impl Node {
    /// The root of a new tree.
    pub fn new_root(board: Board) -> (node: Self)
        ensures
            node.wf(),
            node.is_fresh(board),
    {
        Node::new_child(board)
    }

    /// A node for a board that a joint move led to.
    pub fn new_child(board: Board) -> (node: Self)
        ensures
            node.wf(),
            node.is_fresh(board),
    {
        let moves: Vec<JointMove> = if board.is_over() {
            Vec::new()
        } else {
            let iter = generate_move_combinations(board.reasonable_moves_for_each_snake());
            iter.collect()
        };
        assert(joint_moves_view(moves@) =~= initial_moves(board));
        let node = Node {
            board,
            next_nodes: Vec::new(),
            possible_moves: NonPushableQueue::new_from_iterator(moves.into_iter()),
            wins: 0,
            visits: 0,
        };
        assert(node.pending() =~= initial_moves(board).skip(0));
        assert(node.children().len() == 0);
        node
    }

    /// Whether the game is over on the board of this node.
    pub fn is_terminal(&self) -> (terminal: bool)
        ensures
            terminal == self.board().over(),
    {
        self.board.is_over()
    }

    /// Whether no joint move is pending at this node.
    pub fn is_fully_expanded(&self) -> (full: bool)
        ensures
            full == (self.pending().len() == 0),
    {
        self.possible_moves.is_empty()
    }

    /// Number of playouts that passed through this node.
    pub fn visits(&self) -> (n: u32)
        ensures
            n == self.visit_count(),
    {
        self.visits
    }

    /// Number of those playouts that were won.
    pub fn wins(&self) -> (n: u32)
        ensures
            n == self.win_count(),
    {
        self.wins
    }

    /// Number of children.
    pub fn child_count(&self) -> (n: usize)
        ensures
            n == self.children().len(),
    {
        self.next_nodes.len()
    }

    /// The visits of all the children together.
    pub fn child_visits(&self) -> (total: u32)
        requires
            self.wf(),
        ensures
            total == visits_below(self.children()),
            total <= self.visit_count(),
    {
        let mut total: u32 = 0;
        let mut i: usize = 0;
        while i < self.next_nodes.len()
            invariant
                i <= self.next_nodes@.len(),
                self.children().len() == self.next_nodes@.len(),
                visits_below(self.children()) <= self.visits,
                total == visits_below(self.children().take(i as int)),
            decreases self.next_nodes@.len() - i,
        {
            proof {
                visits_below_grow(self.children(), i + 1);
                assert(self.children().take(i + 1).drop_last() =~= self.children().take(i as int));
            }
            total = total + self.next_nodes[i].node.visits;
            i = i + 1;
        }
        assert(self.children().take(i as int) =~= self.children());
        total
    }

    /// The actions of the children, in the order of their keys.
    pub fn child_actions(&self) -> (actions: Vec<Action>)
        ensures
            actions@.len() == self.children().len(),
            forall|i: int| 0 <= i < actions@.len() ==> (#[trigger] actions@[i])@ == self.children()[i].0,
    {
        let mut actions: Vec<Action> = Vec::new();
        let mut i: usize = 0;
        while i < self.next_nodes.len()
            invariant
                i <= self.next_nodes@.len(),
                actions@.len() == i,
                forall|k: int|
                    0 <= k < i ==> (#[trigger] actions@[k])@ == self.next_nodes@[k].action@,
            decreases self.next_nodes@.len() - i,
        {
            actions.push(self.next_nodes[i].action);
            i = i + 1;
        }
        actions
    }

    /// Takes the next pending joint move, plays it on the board and puts the
    /// board that follows under its action as a fresh child. Nothing happens
    /// where no move is pending. Where the simulator yields no board, no
    /// child appears and all pending moves are given up: the node is not
    /// expanded again.
    pub fn expand(&mut self, _you: &SnakeId)
        requires
            old(self).wf(),
        ensures
            final(self).wf(),
            final(self).board() == old(self).board(),
            final(self).visit_count() == old(self).visit_count(),
            final(self).win_count() == old(self).win_count(),
            expansion(*old(self), *final(self)),
    {
        let ghost initial = initial_moves(self.board);
        let ghost done = self.expanded();
        let ghost before = self.next_nodes@;
        let moves = match self.possible_moves.pop_front() {
            Some(moves) => moves,
            None => {
                return ;
            },
        };
        proof {
            assert(old(self).pending()[0] == moves@);
            assert(moves@ == initial[done]);
            assert(self.pending() =~= old(self).pending().drop_first());
            assert(self.pending() =~= initial.skip(done + 1));
            assert(self.board.covered_by(moves@));
            assert forall|i: int| 0 <= i < before.len() implies comes_from(
                self.board,
                done + 1,
                #[trigger] before[i],
            ) by {
                assert(comes_from(self.board, done, before[i]));
            }
        }
        match self.board.simulate_with_moves(&moves) {
            None => {
                self.possible_moves.clear();
                proof {
                    assert(self.children() =~= old(self).children());
                    assert(self.pending() =~= initial.skip(initial.len() as int));
                    assert forall|i: int| 0 <= i < before.len() implies comes_from(
                        self.board,
                        initial.len() as int,
                        #[trigger] before[i],
                    ) by {
                        assert(comes_from(self.board, done, before[i]));
                    }
                }
            },
            Some((action, next)) => {
                let child = Child { action, node: Node::new_child(next) };
                assert(comes_from(self.board, done + 1, child)) by {
                    assert(self.board.simulated(initial[done]) == Some(
                        (child.action@, child.node.board),
                    ) && holds_moves(child.action@, initial[done]));
                }
                proof {
                    assert forall|i: int| 0 <= i < before.len() implies action_key(
                        (#[trigger] before[i]).action@,
                    ) != action_key(child.action@) by {
                        assert(comes_from(self.board, done, before[i]));
                        before[i].action.has_four_slots();
                        child.action.has_four_slots();
                        later_move_gives_another_action(
                            self.board,
                            done,
                            before[i].action@,
                            before[i].node.board,
                            child.action@,
                        );
                    }
                }
                let at = place(&mut self.next_nodes, child);
                proof {
                    assert(self.children() =~= old(self).children().insert(
                        at as int,
                        (action@, child.node),
                    ));
                    assert(put_at(
                        old(self).children(),
                        self.children(),
                        at as int,
                        action@,
                        child.node,
                    ));
                    visits_below_after_insert(
                        old(self).children(),
                        at as int,
                        (action@, child.node),
                    );
                }
            },
        }
    }

    /// The place of the child that `score` prefers, if there is a child.
    fn best_child_index<F: Fn(u32, u32, u32) -> i64>(&self, score: &F) -> (best: Option<usize>)
        requires
            rates_all(score),
        ensures
            self.children().len() == 0 <==> best is None,
            best matches Some(at) ==> preferred(
                score,
                self.visit_count(),
                self.children(),
                at as int,
            ),
    {
        let mut scores: Vec<i64> = Vec::new();
        let mut i: usize = 0;
        while i < self.next_nodes.len()
            invariant
                rates_all(score),
                i <= self.next_nodes@.len(),
                scores@.len() == i,
                forall|j: int|
                    0 <= j < i ==> call_ensures(
                        score,
                        (
                            self.next_nodes@[j].node.wins,
                            self.next_nodes@[j].node.visits,
                            self.visits,
                        ),
                        #[trigger] scores@[j],
                    ),
            decreases self.next_nodes@.len() - i,
        {
            let child = &self.next_nodes[i].node;
            let rating: i64 = score(child.wins, child.visits, self.visits);
            scores.push(rating);
            i = i + 1;
        }
        let best = last_maximum(&scores);
        proof {
            if best is Some {
                assert(rated_by(score, self.visit_count(), self.children(), scores@));
            }
        }
        best
    }

    /// The child that `score` prefers: the one whose wins and visits, rated
    /// together with this node's visits, give the greatest rating; of
    /// several such children the one whose action has the greatest key.
    /// `None` exactly where the node has no child.
    pub fn best_child<F: Fn(u32, u32, u32) -> i64>(&self, score: &F) -> (best: Option<
        (Action, &Node),
    >)
        requires
            rates_all(score),
        ensures
            self.children().len() == 0 <==> best is None,
            best matches Some((action, node)) ==> exists|at: int| #[trigger]
                preferred(score, self.visit_count(), self.children(), at) && self.children()[at]
                    == (action@, *node),
    {
        match self.best_child_index(score) {
            Some(at) => {
                assert(self.children()[at as int] == (
                    self.next_nodes@[at as int].action@,
                    self.next_nodes@[at as int].node,
                ));
                Some((self.next_nodes[at].action, &self.next_nodes[at].node))
            },
            None => None,
        }
    }

    /// The child with the most visits; of several such children the one with
    /// the most wins, and of those the one whose action has the greatest key.
    /// `None` exactly where the node has no child.
    pub fn most_visited_child(&self) -> (best: Option<(Action, &Node)>)
        ensures
            self.children().len() == 0 <==> best is None,
            best matches Some((action, node)) ==> exists|at: int| #[trigger]
                is_most_visited(self.children(), at) && self.children()[at] == (action@, *node),
    {
        if self.next_nodes.len() == 0 {
            return None;
        }
        let mut at: usize = 0;
        let mut i: usize = 1;
        while i < self.next_nodes.len()
            invariant
                1 <= i <= self.next_nodes@.len(),
                at < i,
                forall|j: int|
                    0 <= j < i ==> no_better(
                        (#[trigger] self.next_nodes@[j]).node,
                        self.next_nodes@[at as int].node,
                    ),
                forall|j: int|
                    at < j < i ==> !no_better(
                        self.next_nodes@[at as int].node,
                        (#[trigger] self.next_nodes@[j]).node,
                    ),
            decreases self.next_nodes@.len() - i,
        {
            let best = &self.next_nodes[at].node;
            let other = &self.next_nodes[i].node;
            if other.visits > best.visits || (other.visits == best.visits && other.wins
                >= best.wins) {
                at = i;
            }
            i = i + 1;
        }
        proof {
            let children = self.children();
            assert forall|j: int| 0 <= j < children.len() implies no_better(
                #[trigger] children[j].1,
                children[at as int].1,
            ) by {
                assert(children[j].1 == self.next_nodes@[j].node);
            }
            assert forall|j: int| at < j < children.len() implies !no_better(
                children[at as int].1,
                #[trigger] children[j].1,
            ) by {
                assert(children[j].1 == self.next_nodes@[j].node);
            }
            assert(is_most_visited(children, at as int));
        }
        Some((self.next_nodes[at].action, &self.next_nodes[at].node))
    }

    /// Plays the game out from this node's board with random reasonable
    /// moves and tells whether `you` has won: 1 if so, else 0.
    pub fn rollout(&self, you: &SnakeId) -> (outcome: u32)
        ensures
            outcome <= 1,
            exists|end: Board, steps: nat| #[trigger]
                ends_playout(self.board(), end, steps) && outcome == outcome_for(
                    end.winner(),
                    *you,
                ),
    {
        let (end, steps) = random_playout(&self.board);
        let outcome = playout_outcome(end.get_winner(), you);
        assert(ends_playout(self.board(), end, steps as nat));
        outcome
    }

    /// Counts one more playout through this node, and one more win if
    /// `result` is 1. A node whose visits stand at the largest `u32` counts
    /// no more: both counters stay as they are, so that wins never pass
    /// visits.
    pub fn backpropagate(&mut self, result: u32)
        requires
            old(self).wf(),
            result <= 1,
        ensures
            final(self).wf(),
            final(self).win_count() <= final(self).visit_count(),
            old(self).visit_count() < u32::MAX ==> final(self).visit_count() == old(
                self,
            ).visit_count() + 1 && final(self).win_count() == old(self).win_count() + result,
            old(self).visit_count() >= u32::MAX ==> final(self).visit_count() == old(
                self,
            ).visit_count() && final(self).win_count() == old(self).win_count(),
            final(self).board() == old(self).board(),
            final(self).pending() == old(self).pending(),
            final(self).children() == old(self).children(),
    {
        if self.visits < u32::MAX {
            self.visits = self.visits + 1;
            self.wins = self.wins + result;
        }
    }

    /// One pass of the search through this node. While the node is not
    /// terminal, has no pending move and has a child, the pass goes on into
    /// the child that `score` prefers. Where it stops, one pending move is
    /// expanded unless the node is terminal, a playout is run from the node,
    /// and its outcome is counted at the node and, as the pass returns, at
    /// every node it came through.
    pub fn search_once<F: Fn(u32, u32, u32) -> i64>(&mut self, you: &SnakeId, score: &F) -> (outcome:
        u32)
        requires
            old(self).wf(),
            old(self).visit_count() < u32::MAX,
            rates_all(score),
        ensures
            final(self).wf(),
            old(self).children().len() <= final(self).children().len() <= old(
                self,
            ).children().len() + 1,
            one_pass(score, *old(self), *final(self), *you, outcome as int),
        decreases *old(self),
    {
        if !self.is_terminal() && self.is_fully_expanded() {
            match self.best_child_index(score) {
                Some(at) => {
                    let ghost before = self.next_nodes@;
                    let outcome = self.next_nodes[at].node.search_once(you, score);
                    proof {
                        let after = self.next_nodes@;
                        assert(after.len() == before.len());
                        assert(after[at as int].action == before[at as int].action);
                        assert forall|i: int| 0 <= i < after.len() && i != at implies after[i]
                            == before[i] by {}
                        assert(comes_from(self.board, self.expanded(), before[at as int]));
                        assert(comes_from(self.board, self.expanded(), after[at as int]));
                        assert(ordered(before));
                        assert(ordered(after)) by {
                            assert forall|i: int, j: int|
                                0 <= i < j < after.len() implies action_key(
                                (#[trigger] after[i]).action@,
                            ) < action_key((#[trigger] after[j]).action@) by {
                                assert(after[i].action == before[i].action);
                                assert(after[j].action == before[j].action);
                            }
                        }
                        assert(self.pending() == old(self).pending());
                    }
                    self.visits = self.visits + 1;
                    self.wins = self.wins + outcome;
                    proof {
                        let after = self.next_nodes@;
                        assert forall|i: int|
                            0 <= i < before.len() && i != at implies #[trigger] self.children()[i]
                            == old(self).children()[i] by {
                            assert(after[i] == before[i]);
                        }
                        visits_below_after_update(
                            old(self).children(),
                            at as int,
                            self.children()[at as int],
                        );
                        assert(self.children() =~= old(self).children().update(
                            at as int,
                            self.children()[at as int],
                        ));
                        assert(descended_pass(
                            score,
                            *old(self),
                            *self,
                            *you,
                            at as int,
                            outcome as int,
                        ));
                    }
                    return outcome;
                },
                None => {},
            }
        }
        if !self.is_terminal() {
            self.expand(you);
        }
        let ghost grown = *self;
        let outcome = self.rollout(you);
        self.backpropagate(outcome);
        proof {
            assert(self.children() == grown.children());
            assert(self.pending() == grown.pending());
            assert(stopped_pass(*old(self), *self, *you, outcome as int));
        }
        outcome
    }

    /// Length of the longest chain of children below this node; the largest
    /// `u32` where the chain is as long as that or longer.
    pub fn get_depth(&self) -> (depth: u32)
        ensures
            depth < u32::MAX ==> self.depth_at_most(depth as nat),
            depth > 0 ==> !self.depth_at_most((depth - 1) as nat),
        decreases self,
    {
        let mut depth: u32 = 0;
        let mut i: usize = 0;
        let ghost mut deepest: int = 0;
        while i < self.next_nodes.len()
            invariant
                i <= self.next_nodes@.len(),
                i == 0 <==> depth == 0,
                depth < u32::MAX ==> forall|j: int|
                    0 <= j < i ==> (#[trigger] self.next_nodes@[j]).node.depth_at_most(
                        (depth - 1) as nat,
                    ),
                depth > 0 ==> 0 <= deepest < i && (depth == 1 || !self.next_nodes@[deepest].node.depth_at_most(
                    (depth - 2) as nat,
                )),
            decreases self.next_nodes@.len() - i,
        {
            let below: u32 = self.next_nodes[i].node.get_depth();
            let through: u32 = if below == u32::MAX {
                u32::MAX
            } else {
                below + 1
            };
            proof {
                let child = self.next_nodes@[i as int].node;
                if through > depth {
                    if through < u32::MAX {
                        assert forall|j: int| 0 <= j < i implies (
                        #[trigger] self.next_nodes@[j]).node.depth_at_most((through - 1) as nat) by {
                            depth_bound_grows(
                                self.next_nodes@[j].node,
                                (depth - 1) as nat,
                                (through - 1) as nat,
                            );
                        }
                    }
                    if through > 1 && child.depth_at_most((through - 2) as nat) {
                        depth_bound_grows(child, (through - 2) as nat, (below - 1) as nat);
                    }
                    deepest = i as int;
                } else {
                    if depth < u32::MAX {
                        depth_bound_grows(child, below as nat, (depth - 1) as nat);
                    }
                }
            }
            if through > depth {
                depth = through;
            }
            i = i + 1;
        }
        depth
    }

    /// The quick estimate of this node's board for `you`.
    pub fn get_score(&self, you: &SnakeId) -> (score: u32)
        requires
            you.0 < 4,
        ensures
            score == evaluation(self.board(), *you),
    {
        evaluate_board(&self.board, you)
    }
}

/// `after` is what `rounds` passes of the search for `you`, one after
/// another, make of `before`.
pub open spec fn searched<F: Fn(u32, u32, u32) -> i64>(
    score: &F,
    before: Node,
    after: Node,
    you: SnakeId,
    rounds: nat,
) -> bool
    decreases rounds,
{
    if rounds == 0 {
        after == before
    } else {
        exists|mid: Node, outcome: int|
            #![trigger one_pass(score, mid, after, you, outcome)]
            searched(score, before, mid, you, (rounds - 1) as nat) && mid.wf() && one_pass(
                score,
                mid,
                after,
                you,
                outcome,
            )
    }
}

/// Reads the stop flag.
fn stop_requested(stop: &AtomicBool) -> bool {
    stop.load(Ordering::Relaxed)
}

/// One round of the search loop, for the value of the stop flag read at its
/// start. Where the flag is set, or the root's visits stand at the largest
/// `u32`, nothing is touched and the round reports `false`. Else one pass of
/// the search goes through the tree, the root has one visit more, and the
/// round reports `true`.
pub fn search_round<F: Fn(u32, u32, u32) -> i64>(
    root: &mut Node,
    you: &SnakeId,
    stopped: bool,
    score: &F,
) -> (searched: bool)
    requires
        old(root).wf(),
        rates_all(score),
    ensures
        final(root).wf(),
        searched == (!stopped && old(root).visit_count() < u32::MAX),
        !searched ==> *final(root) == *old(root),
        searched ==> {
            &&& old(root).children().len() <= final(root).children().len() <= old(
                root,
            ).children().len() + 1
            &&& exists|outcome: int| #[trigger]
                one_pass(score, *old(root), *final(root), *you, outcome)
        },
{
    if stopped || root.visits == u32::MAX {
        return false;
    }
    let outcome = root.search_once(you, score);
    assert(one_pass(score, *old(root), *root, *you, outcome as int));
    true
}

/// Searches from `root` for the snake `you` until `stop` is set: reads the
/// flag, runs one round, and so on. The tree afterwards is what as many
/// passes make of the tree as the root has gained visits; it only grows and
/// its counters only rise. The search also ends when the root's visits reach
/// the largest `u32`.
pub fn mcts_search<F: Fn(u32, u32, u32) -> i64>(
    root: &mut Node,
    you: &SnakeId,
    stop: &AtomicBool,
    score: &F,
)
    requires
        old(root).wf(),
        rates_all(score),
    ensures
        final(root).wf(),
        final(root).board() == old(root).board(),
        final(root).visit_count() >= old(root).visit_count(),
        final(root).win_count() >= old(root).win_count(),
        final(root).win_count() - old(root).win_count() <= final(root).visit_count() - old(
            root,
        ).visit_count(),
        final(root).children().len() >= old(root).children().len(),
        searched(
            score,
            *old(root),
            *final(root),
            *you,
            (final(root).visit_count() - old(root).visit_count()) as nat,
        ),
{
    loop
        invariant
            root.wf(),
            rates_all(score),
            searched(
                score,
                *old(root),
                *root,
                *you,
                (root.visit_count() - old(root).visit_count()) as nat,
            ),
            root.board() == old(root).board(),
            root.visit_count() >= old(root).visit_count(),
            root.win_count() >= old(root).win_count(),
            root.win_count() - old(root).win_count() <= root.visit_count() - old(
                root,
            ).visit_count(),
            root.children().len() >= old(root).children().len(),
        decreases u32::MAX - root.visit_count(),
    {
        let stopped = stop_requested(stop);
        let ghost before = *root;
        if !search_round(root, you, stopped, score) {
            break ;
        }
        proof {
            let rounds = (root.visit_count() - old(root).visit_count()) as nat;
            let outcome = choose|outcome: int| #[trigger]
                one_pass(score, before, *root, *you, outcome);
            assert(searched(score, *old(root), before, *you, (rounds - 1) as nat) && before.wf()
                && one_pass(score, before, *root, *you, outcome));
        }
    }
}

/// The move to play when the search has nothing to say.
pub open spec fn default_move() -> Move {
    Move::Down
}

/// The move that the tree under `root` recommends to `you`: the one that
/// `you` takes in the action of the most visited child, and the default move
/// where there is no child or its action holds no move for `you`.
pub open spec fn recommended(root: Node, you: SnakeId, m: Move) -> bool {
    if root.children().len() == 0 {
        m == default_move()
    } else {
        exists|at: int| #[trigger]
            is_most_visited(root.children(), at) && m == match slot_of(
                root.children()[at].0,
                you,
            ) {
                Some(own) => own,
                None => default_move(),
            }
    }
}

/// The move for `you` that the tree under `root` recommends once the search
/// has stopped. Where the tree is well formed and has grown, and `you` is
/// among the live snakes of the root's board, this is one of the reasonable
/// moves of `you` there.
pub fn best_move(root: &Node, you: &SnakeId) -> (m: Move)
    ensures
        recommended(*root, *you, m),
        root.wf() && root.children().len() > 0 ==> forall|at: int|
            0 <= at < root.board().reasonable_moves().len() && (
            #[trigger] root.board().reasonable_moves()[at]).0 == *you && you.0 < 4
                ==> root.board().reasonable_moves()[at].1.contains(m),
{
    proof {
        if root.wf() {
            root.children_hold_reasonable_moves();
        }
    }
    match root.most_visited_child() {
        Some((action, _)) => match action.move_of(*you) {
            Some(own) => own,
            None => Move::Down,
        },
        None => Move::Down,
    }
}

} // verus!
