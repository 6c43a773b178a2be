//! Enumeration of joint moves: every way to give each snake one of its moves,
//! in mixed-radix order with the last snake's move changing fastest.

use vstd::prelude::*;
use crate::board::{move_lists_view, JointMove};
use crate::types::{Move, SnakeId};

verus! {

/// Number of joint moves over the lists: the product of their lengths, and 1
/// where there is no list.
pub open spec fn count(lists: Seq<(SnakeId, Seq<Move>)>) -> nat
    decreases lists.len(),
{
    if lists.len() == 0 {
        1
    } else {
        count(lists.drop_last()) * lists.last().1.len()
    }
}

/// One index into every list.
pub open spec fn valid_digits(lists: Seq<(SnakeId, Seq<Move>)>, digits: Seq<int>) -> bool {
    &&& digits.len() == lists.len()
    &&& forall|i: int| 0 <= i < lists.len() ==> 0 <= #[trigger] digits[i] < lists[i].1.len()
}

/// The place of a choice of indices in the enumeration: its value as a
/// mixed-radix number whose last digit counts least.
pub open spec fn rank(lists: Seq<(SnakeId, Seq<Move>)>, digits: Seq<int>) -> int
    decreases lists.len(),
{
    if lists.len() == 0 {
        0
    } else {
        rank(lists.drop_last(), digits.drop_last()) * lists.last().1.len() + digits.last()
    }
}

/// The indices chosen at place `n` of the enumeration.
pub open spec fn digits_at(lists: Seq<(SnakeId, Seq<Move>)>, n: int) -> Seq<int>
    decreases lists.len(),
{
    if lists.len() == 0 {
        Seq::empty()
    } else {
        let radix = lists.last().1.len() as int;
        digits_at(lists.drop_last(), n / radix).push(n % radix)
    }
}

/// The joint move that takes, for each snake, the move at its index.
pub open spec fn pick(lists: Seq<(SnakeId, Seq<Move>)>, digits: Seq<int>) -> Seq<(SnakeId, Move)> {
    Seq::new(lists.len(), |i: int| (lists[i].0, lists[i].1[digits[i]]))
}

/// The joint move at place `n` of the enumeration.
pub open spec fn nth_combination(lists: Seq<(SnakeId, Seq<Move>)>, n: int) -> Seq<
    (SnakeId, Move),
> {
    pick(lists, digits_at(lists, n))
}

/// All joint moves over the lists, in the order of the enumeration.
pub open spec fn combinations(lists: Seq<(SnakeId, Seq<Move>)>) -> Seq<Seq<(SnakeId, Move)>> {
    Seq::new(count(lists), |n: int| nth_combination(lists, n))
}

/// A valid choice of indices has a place below the count.
pub proof fn rank_in_range(lists: Seq<(SnakeId, Seq<Move>)>, digits: Seq<int>)
    requires
        valid_digits(lists, digits),
    ensures
        0 <= rank(lists, digits) < count(lists),
    decreases lists.len(),
{
    if lists.len() > 0 {
        let front = lists.drop_last();
        let radix = lists.last().1.len() as int;
        rank_in_range(front, digits.drop_last());
        let r = rank(front, digits.drop_last());
        let c = count(front) as int;
        assert(r * radix + digits.last() < c * radix) by (nonlinear_arith)
            requires
                0 <= r < c,
                0 <= digits.last() < radix,
        ;
        assert(0 <= r * radix) by (nonlinear_arith)
            requires
                0 <= r,
                0 <= radix,
        ;
    }
}

/// Every place below the count holds a valid choice of indices.
pub proof fn digits_are_valid(lists: Seq<(SnakeId, Seq<Move>)>, n: int)
    requires
        0 <= n < count(lists),
    ensures
        valid_digits(lists, digits_at(lists, n)),
    decreases lists.len(),
{
    if lists.len() > 0 {
        let front = lists.drop_last();
        let radix = lists.last().1.len() as int;
        let c = count(front) as int;
        assert(radix > 0 && 0 <= n / radix < c) by (nonlinear_arith)
            requires
                0 <= n < c * radix,
                0 <= radix,
                0 <= c,
        ;
        digits_are_valid(front, n / radix);
        let d = digits_at(lists, n);
        assert(d.len() == lists.len());
        assert forall|i: int| 0 <= i < lists.len() implies 0 <= #[trigger] d[i] < lists[i].1.len() by {
            if i < lists.len() - 1 {
                assert(d[i] == digits_at(front, n / radix)[i]);
                assert(lists[i] == front[i]);
            }
        }
    }
}

/// The place of the indices at place `n` is `n`.
pub proof fn rank_of_digits(lists: Seq<(SnakeId, Seq<Move>)>, n: int)
    requires
        0 <= n < count(lists),
    ensures
        rank(lists, digits_at(lists, n)) == n,
    decreases lists.len(),
{
    if lists.len() > 0 {
        let front = lists.drop_last();
        let radix = lists.last().1.len() as int;
        let c = count(front) as int;
        assert(radix > 0 && 0 <= n / radix < c) by (nonlinear_arith)
            requires
                0 <= n < c * radix,
                0 <= radix,
                0 <= c,
        ;
        rank_of_digits(front, n / radix);
        let d = digits_at(lists, n);
        assert(d.drop_last() =~= digits_at(front, n / radix));
        assert((n / radix) * radix + n % radix == n) by (nonlinear_arith)
            requires
                radix > 0,
        ;
    }
}

/// The indices at the place of a valid choice are that choice.
pub proof fn digits_of_rank(lists: Seq<(SnakeId, Seq<Move>)>, digits: Seq<int>)
    requires
        valid_digits(lists, digits),
    ensures
        digits_at(lists, rank(lists, digits)) == digits,
    decreases lists.len(),
{
    if lists.len() > 0 {
        let front = lists.drop_last();
        let radix = lists.last().1.len() as int;
        let r = rank(front, digits.drop_last());
        let last = digits.last();
        digits_of_rank(front, digits.drop_last());
        assert((r * radix + last) / radix == r && (r * radix + last) % radix == last)
            by (nonlinear_arith)
            requires
                0 <= last < radix,
        ;
        assert(digits_at(lists, rank(lists, digits)) =~= digits);
    } else {
        assert(digits =~= Seq::<int>::empty());
    }
}

/// Where no list holds a move twice, the joint moves at two different places
/// differ in the move of some snake.
pub proof fn places_differ_somewhere(lists: Seq<(SnakeId, Seq<Move>)>, a: int, b: int)
    requires
        0 <= a < count(lists),
        0 <= b < count(lists),
        a != b,
        forall|i: int, k: int, l: int|
            0 <= i < lists.len() && 0 <= k < l < lists[i].1.len() ==> (#[trigger] lists[i].1[k]) != (
            #[trigger] lists[i].1[l]),
    ensures
        exists|p: int|
            0 <= p < lists.len() && (#[trigger] nth_combination(lists, a)[p]).1 != nth_combination(
                lists,
                b,
            )[p].1,
{
    let first = digits_at(lists, a);
    let second = digits_at(lists, b);
    digits_are_valid(lists, a);
    digits_are_valid(lists, b);
    rank_of_digits(lists, a);
    rank_of_digits(lists, b);
    if forall|p: int| 0 <= p < lists.len() ==> first[p] == second[p] {
        assert(first =~= second);
    }
    let p = choose|p: int| 0 <= p < lists.len() && first[p] != second[p];
    if first[p] < second[p] {
        assert(lists[p].1[first[p]] != lists[p].1[second[p]]);
    } else {
        assert(lists[p].1[second[p]] != lists[p].1[first[p]]);
    }
    assert(nth_combination(lists, a)[p].1 != nth_combination(lists, b)[p].1);
}

/// There is no joint move exactly when some snake has no move.
pub proof fn count_is_zero_iff_some_list_is_empty(lists: Seq<(SnakeId, Seq<Move>)>)
    ensures
        count(lists) == 0 <==> exists|i: int| 0 <= i < lists.len() && (#[trigger] lists[i]).1.len() == 0,
    decreases lists.len(),
{
    if lists.len() > 0 {
        let front = lists.drop_last();
        let radix = lists.last().1.len() as int;
        let c = count(front) as int;
        count_is_zero_iff_some_list_is_empty(front);
        assert(c * radix == 0 <==> (c == 0 || radix == 0)) by (nonlinear_arith);
        if count(lists) == 0 {
            if c == 0 {
                let i = choose|i: int| 0 <= i < front.len() && (#[trigger] front[i]).1.len() == 0;
                assert(lists[i] == front[i]);
            } else {
                assert(lists[lists.len() - 1].1.len() == 0);
            }
        }
        if exists|i: int| 0 <= i < lists.len() && (#[trigger] lists[i]).1.len() == 0 {
            let i = choose|i: int| 0 <= i < lists.len() && (#[trigger] lists[i]).1.len() == 0;
            if i < lists.len() - 1 {
                assert(front[i] == lists[i]);
            }
        }
    }
}

/// The enumeration is the cartesian product of the lists, each member once:
/// places below the count and valid choices of indices correspond one to
/// one, and the joint move at a place takes the moves at its indices.
pub proof fn enumeration_is_the_product(lists: Seq<(SnakeId, Seq<Move>)>)
    ensures
        combinations(lists).len() == count(lists),
        forall|n: int|
            0 <= n < count(lists) ==> valid_digits(lists, #[trigger] digits_at(lists, n)) && rank(
                lists,
                digits_at(lists, n),
            ) == n && combinations(lists)[n] == pick(lists, digits_at(lists, n)),
        forall|digits: Seq<int>|
            valid_digits(lists, digits) ==> 0 <= #[trigger] rank(lists, digits) < count(lists)
                && digits_at(lists, rank(lists, digits)) == digits,
        count(lists) == 0 <==> exists|i: int| 0 <= i < lists.len() && (#[trigger] lists[i]).1.len() == 0,
        lists.len() == 0 <==> combinations(lists) == seq![Seq::<(SnakeId, Move)>::empty()],
{
    assert forall|n: int| 0 <= n < count(lists) implies valid_digits(
        lists,
        #[trigger] digits_at(lists, n),
    ) && rank(lists, digits_at(lists, n)) == n && combinations(lists)[n] == pick(
        lists,
        digits_at(lists, n),
    ) by {
        digits_are_valid(lists, n);
        rank_of_digits(lists, n);
    }
    assert forall|digits: Seq<int>| valid_digits(lists, digits) implies 0 <= #[trigger] rank(
        lists,
        digits,
    ) < count(lists) && digits_at(lists, rank(lists, digits)) == digits by {
        rank_in_range(lists, digits);
        digits_of_rank(lists, digits);
    }
    count_is_zero_iff_some_list_is_empty(lists);
    if lists.len() == 0 {
        assert(nth_combination(lists, 0) =~= Seq::<(SnakeId, Move)>::empty());
        assert(combinations(lists) =~= seq![Seq::<(SnakeId, Move)>::empty()]);
    }
    if combinations(lists) == seq![Seq::<(SnakeId, Move)>::empty()] {
        assert(seq![Seq::<(SnakeId, Move)>::empty()].len() == 1);
        assert(count(lists) == 1);
        assert(combinations(lists)[0] == nth_combination(lists, 0));
        assert(seq![Seq::<(SnakeId, Move)>::empty()][0].len() == 0);
        assert(nth_combination(lists, 0).len() == lists.len());
    }
}

/// Raising the digit at place `p` by one and clearing the digits after it,
/// which all stood at their highest, moves one place on in the enumeration.
proof fn rank_of_successor(
    lists: Seq<(SnakeId, Seq<Move>)>,
    before: Seq<int>,
    after: Seq<int>,
    p: int,
)
    requires
        valid_digits(lists, before),
        valid_digits(lists, after),
        0 <= p < lists.len(),
        after[p] == before[p] + 1,
        forall|j: int| 0 <= j < p ==> after[j] == before[j],
        forall|j: int| p < j < lists.len() ==> after[j] == 0 && before[j] == lists[j].1.len() - 1,
    ensures
        rank(lists, after) == rank(lists, before) + 1,
    decreases lists.len(),
{
    let front = lists.drop_last();
    let radix = lists.last().1.len() as int;
    if p == lists.len() - 1 {
        assert(after.drop_last() =~= before.drop_last());
    } else {
        rank_of_successor(front, before.drop_last(), after.drop_last(), p);
        let r = rank(front, before.drop_last());
        assert((r + 1) * radix == r * radix + radix) by (nonlinear_arith);
    }
}

/// The choice that takes the last move of every list stands at the last
/// place.
proof fn rank_of_last(lists: Seq<(SnakeId, Seq<Move>)>, digits: Seq<int>)
    requires
        valid_digits(lists, digits),
        forall|j: int| 0 <= j < lists.len() ==> digits[j] == lists[j].1.len() - 1,
    ensures
        rank(lists, digits) == count(lists) - 1,
    decreases lists.len(),
{
    if lists.len() > 0 {
        let front = lists.drop_last();
        let radix = lists.last().1.len() as int;
        rank_of_last(front, digits.drop_last());
        let c = count(front) as int;
        assert((c - 1) * radix + (radix - 1) == c * radix - 1) by (nonlinear_arith);
    }
}

/// The choice of the first move of every list stands at the first place.
proof fn rank_of_first(lists: Seq<(SnakeId, Seq<Move>)>, digits: Seq<int>)
    requires
        digits.len() == lists.len(),
        forall|j: int| 0 <= j < lists.len() ==> digits[j] == 0,
    ensures
        rank(lists, digits) == 0,
    decreases lists.len(),
{
    if lists.len() > 0 {
        rank_of_first(lists.drop_last(), digits.drop_last());
        assert(0 * lists.last().1.len() == 0) by (nonlinear_arith);
    }
}

/// View of a list of joint moves as nested sequences.
pub open spec fn joint_moves_view(v: Seq<JointMove>) -> Seq<Seq<(SnakeId, Move)>> {
    Seq::new(v.len(), |i: int| v[i]@)
}

/// Walks the joint moves over per-snake move lists one by one.
pub struct MoveCombinationIterator {
    snake_moves: Vec<(SnakeId, Vec<Move>)>,
    indices: Vec<usize>,
    exhausted: bool,
}

impl MoveCombinationIterator {
    /// The per-snake move lists that are enumerated.
    pub closed spec fn lists(&self) -> Seq<(SnakeId, Seq<Move>)> {
        move_lists_view(self.snake_moves@)
    }

    spec fn digits(&self) -> Seq<int> {
        Seq::new(self.indices@.len(), |i: int| self.indices@[i] as int)
    }

    /// Number of joint moves given out so far.
    pub closed spec fn position(&self) -> nat {
        if self.exhausted {
            count(self.lists())
        } else {
            rank(self.lists(), self.digits()) as nat
        }
    }

    /// The indices fit the lists.
    pub closed spec fn wf(&self) -> bool {
        &&& self.indices@.len() == self.snake_moves@.len()
        &&& !self.exhausted ==> valid_digits(self.lists(), self.digits())
    }

    /// The joint moves still to come.
    pub open spec fn remaining(&self) -> Seq<Seq<(SnakeId, Move)>> {
        combinations(self.lists()).skip(self.position() as int)
    }

    /// The enumeration of all joint moves over the given move lists, at its
    /// start.
    pub fn new(snake_moves: Vec<(SnakeId, Vec<Move>)>) -> (iter: Self)
        ensures
            iter.wf(),
            iter.lists() == move_lists_view(snake_moves@),
            iter.position() == 0,
    {
        let mut exhausted = false;
        let mut indices: Vec<usize> = Vec::new();
        let mut i: usize = 0;
        while i < snake_moves.len()
            invariant
                i <= snake_moves@.len(),
                indices@.len() == i,
                forall|j: int| 0 <= j < i ==> #[trigger] indices@[j] == 0,
                exhausted <==> exists|j: int| 0 <= j < i && (#[trigger] snake_moves@[j]).1@.len() == 0,
            decreases snake_moves@.len() - i,
        {
            if snake_moves[i].1.len() == 0 {
                exhausted = true;
            }
            indices.push(0);
            i = i + 1;
        }
        let iter = MoveCombinationIterator { snake_moves, indices, exhausted };
        proof {
            let lists = iter.lists();
            count_is_zero_iff_some_list_is_empty(lists);
            if exhausted {
                let j = choose|j: int| 0 <= j < i && (#[trigger] snake_moves@[j]).1@.len() == 0;
                assert(lists[j].1.len() == 0);
            } else {
                assert forall|j: int| 0 <= j < lists.len() implies 0 <= #[trigger] iter.digits()[j]
                    < lists[j].1.len() by {
                    assert(snake_moves@[j].1@.len() != 0);
                }
                rank_of_first(lists, iter.digits());
            }
        }
        iter
    }

    /// Gives the next joint move of the enumeration, or `None` once all were
    /// given.
    pub fn next(&mut self) -> (item: Option<JointMove>)
        requires
            old(self).wf(),
        ensures
            final(self).wf(),
            final(self).lists() == old(self).lists(),
            old(self).position() <= count(old(self).lists()),
            old(self).position() < count(old(self).lists()) ==> {
                &&& final(self).position() == old(self).position() + 1
                &&& item matches Some(joint)
                &&& joint@ == nth_combination(old(self).lists(), old(self).position() as int)
            },
            old(self).position() >= count(old(self).lists()) ==> {
                &&& item is None
                &&& final(self).position() == old(self).position()
            },
    {
        proof {
            if !self.exhausted {
                rank_in_range(self.lists(), self.digits());
                digits_of_rank(self.lists(), self.digits());
            }
        }
        if self.exhausted {
            return None;
        }
        let ghost lists = self.lists();
        let ghost before = self.digits();
        let n: usize = self.snake_moves.len();
        let mut combination: JointMove = Vec::new();
        let mut i: usize = 0;
        while i < n
            invariant
                n == self.snake_moves@.len(),
                self.indices@.len() == n,
                lists == self.lists(),
                before == self.digits(),
                valid_digits(lists, before),
                i <= n,
                combination@.len() == i,
                forall|j: int| 0 <= j < i ==> #[trigger] combination@[j] == pick(lists, before)[j],
            decreases n - i,
        {
            assert(lists[i as int].1 == self.snake_moves@[i as int].1@);
            assert(before[i as int] == self.indices@[i as int]);
            let k: usize = self.indices[i];
            combination.push((self.snake_moves[i].0, self.snake_moves[i].1[k]));
            i = i + 1;
        }
        assert(combination@ =~= pick(lists, before));

        let mut carry = true;
        let mut i: usize = n;
        while i > 0 && carry
            invariant
                n == self.snake_moves@.len(),
                self.indices@.len() == n,
                lists == self.lists(),
                !self.exhausted,
                valid_digits(lists, before),
                valid_digits(lists, self.digits()),
                i <= n,
                carry ==> forall|j: int| 0 <= j < i ==> #[trigger] self.digits()[j] == before[j],
                carry ==> forall|j: int|
                    i <= j < n ==> #[trigger] self.digits()[j] == 0 && before[j] == lists[j].1.len()
                        - 1,
                !carry ==> rank(lists, self.digits()) == rank(lists, before) + 1,
            decreases i,
        {
            i = i - 1;
            let ghost current = self.digits();
            assert(lists[i as int].1 == self.snake_moves@[i as int].1@);
            assert(current[i as int] == self.indices@[i as int]);
            assert(0 <= current[i as int] < lists[i as int].1.len());
            assert(current[i as int] == before[i as int]);
            let radix: usize = self.snake_moves[i].1.len();
            let next: usize = self.indices[i] + 1;
            if next >= radix {
                self.indices[i] = 0;
            } else {
                self.indices[i] = next;
                carry = false;
            }
            proof {
                let after = self.digits();
                assert forall|j: int| 0 <= j < n implies 0 <= #[trigger] after[j] < lists[j].1.len() by {
                    if j != i {
                        assert(after[j] == current[j]);
                    }
                }
                if !carry {
                    assert forall|j: int| 0 <= j < i implies #[trigger] after[j] == before[j] by {
                        assert(after[j] == current[j]);
                    }
                    assert forall|j: int| i < j < n implies #[trigger] after[j] == 0 && before[j]
                        == lists[j].1.len() - 1 by {
                        assert(after[j] == current[j]);
                    }
                    rank_of_successor(lists, before, after, i as int);
                } else {
                    assert forall|j: int| 0 <= j < i implies #[trigger] after[j] == before[j] by {
                        assert(after[j] == current[j]);
                    }
                    assert forall|j: int| i <= j < n implies #[trigger] after[j] == 0 && before[j]
                        == lists[j].1.len() - 1 by {
                        if j != i {
                            assert(after[j] == current[j]);
                        } else {
                            assert(after[j] == self.indices@[j]);
                        }
                    }
                }
            }
        }
        if carry {
            proof {
                assert forall|j: int| 0 <= j < lists.len() implies before[j] == lists[j].1.len()
                    - 1 by {
                    assert(self.digits()[j] == 0);
                }
                rank_of_last(lists, before);
            }
            self.exhausted = true;
        }
        Some(combination)
    }

    /// Gives out all joint moves that are still to come, in order.
    pub fn collect(self) -> (all: Vec<JointMove>)
        requires
            self.wf(),
        ensures
            joint_moves_view(all@) == self.remaining(),
    {
        let mut iter = self;
        let mut all: Vec<JointMove> = Vec::new();
        let ghost lists = iter.lists();
        let ghost start = iter.position();
        proof {
            if !iter.exhausted {
                rank_in_range(iter.lists(), iter.digits());
            }
        }
        loop
            invariant
                iter.wf(),
                iter.lists() == lists,
                start <= iter.position() <= count(lists),
                all@.len() == iter.position() - start,
                forall|j: int|
                    0 <= j < all@.len() ==> (#[trigger] all@[j])@ == nth_combination(lists, start + j),
            ensures
                iter.position() == count(lists),
                all@.len() == count(lists) - start,
                forall|j: int|
                    0 <= j < all@.len() ==> (#[trigger] all@[j])@ == nth_combination(lists, start + j),
            decreases count(lists) - iter.position(),
        {
            match iter.next() {
                Some(joint) => {
                    all.push(joint);
                },
                None => {
                    break ;
                },
            }
        }
        assert(joint_moves_view(all@) =~= combinations(lists).skip(start as int));
        all
    }
}

/// Starts the enumeration of all joint moves over the given move lists.
pub fn generate_move_combinations(snake_moves: Vec<(SnakeId, Vec<Move>)>) -> (iter:
    MoveCombinationIterator)
    ensures
        iter.wf(),
        iter.lists() == move_lists_view(snake_moves@),
        iter.position() == 0,
{
    MoveCombinationIterator::new(snake_moves)
}

} // verus!
