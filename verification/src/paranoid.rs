//! Paranoid minimax: a search to a fixed depth that expects every other
//! snake to play against the engine's snake.

use vstd::prelude::*;
use crate::board::{health_of, length_of, mobility_of, Board};
use crate::types::{slot_of, Move, SnakeId};

verus! {

/// One rated move: the score, the move, and the depth left where the score
/// was taken.
pub type Rated = (u16, Move, i64);

/// What a board is worth to one snake: its health, a tenth of its length,
/// and two for every neighbouring cell of its head that lies on the board.
pub open spec fn player_value(board: Board, sid: SnakeId) -> int {
    health_of(board, sid.0) + length_of(board, sid.0) / 10 + mobility_of(board, sid.0) * 2
}

/// The values of the board to all listed snakes but `you`, added up.
pub open spec fn others_value(board: Board, you: SnakeId, ids: Seq<SnakeId>) -> int
    decreases ids.len(),
{
    if ids.len() == 0 {
        0
    } else {
        others_value(board, you, ids.drop_last()) + if ids.last() != you {
            player_value(board, ids.last())
        } else {
            0
        }
    }
}

/// What a board is worth to `you` among the listed snakes: its own value
/// less the others' values divided by the number of listed snakes, and 0
/// where that would fall below 0.
pub open spec fn board_value(board: Board, you: SnakeId, ids: Seq<SnakeId>) -> int {
    let own = player_value(board, you);
    let rest = others_value(board, you, ids) / (ids.len() as int);
    if own >= rest {
        own - rest
    } else {
        0
    }
}

/// The worst entry of a bucket: the first of its entries with the least
/// score.
pub open spec fn worst(bucket: Seq<Rated>) -> Option<Rated>
    decreases bucket.len(),
{
    if bucket.len() == 0 {
        None
    } else {
        match worst(bucket.drop_last()) {
            None => Some(bucket.last()),
            Some(entry) => if bucket.last().0 < entry.0 {
                Some(bucket.last())
            } else {
                Some(entry)
            },
        }
    }
}

/// The best of the worst entries of the buckets: the one with the greatest
/// score, and of several such entries the one from the last bucket.
pub open spec fn best_of_worst(buckets: Seq<Seq<Rated>>) -> Option<Rated>
    decreases buckets.len(),
{
    if buckets.len() == 0 {
        None
    } else {
        let rest = best_of_worst(buckets.drop_last());
        match worst(buckets.last()) {
            None => rest,
            Some(candidate) => match rest {
                None => Some(candidate),
                Some(entry) => if candidate.0 >= entry.0 {
                    Some(candidate)
                } else {
                    Some(entry)
                },
            },
        }
    }
}

/// View of buckets as nested sequences.
pub open spec fn buckets_view(buckets: Seq<Vec<Rated>>) -> Seq<Seq<Rated>> {
    Seq::new(buckets.len(), |i: int| buckets[i]@)
}

/// The worst entry stands in the bucket, no entry has a smaller score, and
/// the entries before it have greater scores.
pub proof fn worst_is_the_first_minimum(bucket: Seq<Rated>)
    ensures
        bucket.len() == 0 <==> worst(bucket) is None,
        worst(bucket) matches Some(entry) ==> exists|at: int|
            0 <= at < bucket.len() && #[trigger] bucket[at] == entry && (forall|j: int|
                0 <= j < bucket.len() ==> entry.0 <= (#[trigger] bucket[j]).0) && (forall|j: int|
                0 <= j < at ==> entry.0 < (#[trigger] bucket[j]).0),
    decreases bucket.len(),
{
    if bucket.len() > 0 {
        let front = bucket.drop_last();
        worst_is_the_first_minimum(front);
        let entry = worst(bucket)->0;
        match worst(front) {
            None => {
                assert(bucket[bucket.len() - 1] == entry);
            },
            Some(before) => {
                let at = choose|at: int|
                    0 <= at < front.len() && #[trigger] front[at] == before && (forall|j: int|
                        0 <= j < front.len() ==> before.0 <= (#[trigger] front[j]).0) && (forall|
                        j: int,
                    |
                        0 <= j < at ==> before.0 < (#[trigger] front[j]).0);
                if bucket.last().0 < before.0 {
                    assert(bucket[bucket.len() - 1] == entry);
                    assert forall|j: int| 0 <= j < bucket.len() - 1 implies entry.0 < (
                    #[trigger] bucket[j]).0 by {
                        assert(front[j] == bucket[j]);
                    }
                } else {
                    assert(bucket[at] == entry);
                    assert forall|j: int| 0 <= j < bucket.len() implies entry.0 <= (
                    #[trigger] bucket[j]).0 by {
                        if j < bucket.len() - 1 {
                            assert(front[j] == bucket[j]);
                        }
                    }
                    assert forall|j: int| 0 <= j < at implies entry.0 < (#[trigger] bucket[j]).0 by {
                        assert(front[j] == bucket[j]);
                    }
                }
            },
        }
    }
}

/// The first entry of a bucket with the least score.
pub fn worst_of(bucket: &Vec<Rated>) -> (entry: Option<Rated>)
    ensures
        entry == worst(bucket@),
{
    let mut entry: Option<Rated> = None;
    let mut i: usize = 0;
    while i < bucket.len()
        invariant
            i <= bucket@.len(),
            entry == worst(bucket@.take(i as int)),
        decreases bucket@.len() - i,
    {
        proof {
            assert(bucket@.take(i + 1).drop_last() =~= bucket@.take(i as int));
        }
        entry = match entry {
            None => Some(bucket[i]),
            Some(least) => if bucket[i].0 < least.0 {
                Some(bucket[i])
            } else {
                Some(least)
            },
        };
        i = i + 1;
    }
    assert(bucket@.take(i as int) =~= bucket@);
    entry
}

/// Of the worst entries of the buckets the one with the greatest score, and
/// of several such entries the one from the last bucket. `None` where every
/// bucket is empty.
pub fn get_best_move_from_buckets(buckets: &Vec<Vec<Rated>>) -> (best: Option<Rated>)
    ensures
        best == best_of_worst(buckets_view(buckets@)),
{
    let mut best: Option<Rated> = None;
    let mut b: usize = 0;
    while b < buckets.len()
        invariant
            b <= buckets@.len(),
            best == best_of_worst(buckets_view(buckets@).take(b as int)),
        decreases buckets@.len() - b,
    {
        proof {
            let all = buckets_view(buckets@);
            assert(all.take(b + 1).drop_last() =~= all.take(b as int));
            assert(all.take(b + 1).last() == buckets@[b as int]@);
        }
        match worst_of(&buckets[b]) {
            Some(candidate) => {
                best = match best {
                    None => Some(candidate),
                    Some(entry) => if candidate.0 >= entry.0 {
                        Some(candidate)
                    } else {
                        Some(entry)
                    },
                };
            },
            None => {},
        }
        b = b + 1;
    }
    assert(buckets_view(buckets@).take(b as int) =~= buckets_view(buckets@));
    best
}

/// Whether `you` has won on this board.
pub fn is_won(board: &Board, you: &SnakeId) -> (won: bool)
    ensures
        won == (board.winner() == Some(*you)),
{
    match board.get_winner() {
        Some(w) => w.0 == you.0,
        None => false,
    }
}

/// Whether `you` has lost on this board: whether it has no health left.
pub fn is_lost(board: &Board, you: &SnakeId) -> (lost: bool)
    requires
        you.0 < 4,
    ensures
        lost == (health_of(*board, you.0) == 0),
{
    !board.is_alive(*you)
}

/// Rates the board for one snake.
pub fn evaluate_for_player(board: &Board, you: &SnakeId) -> (value: u16)
    requires
        you.0 < 4,
    ensures
        value == player_value(*board, *you),
        value <= 7318,
{
    let health: u16 = board.get_health(*you) as u16;
    let length: u16 = board.get_length(*you);
    let moves: u16 = board.count_possible_moves(*you) as u16;
    health + length / 10 + moves * 2
}

/// Rates the board for `you` against the listed snakes.
pub fn evaluate_board(board: &Board, you: &SnakeId, snake_ids: &Vec<SnakeId>) -> (value: u16)
    requires
        you.0 < 4,
        snake_ids@.len() > 0,
        forall|i: int| 0 <= i < snake_ids@.len() ==> (#[trigger] snake_ids@[i]).0 < 4,
    ensures
        value == board_value(*board, *you, snake_ids@),
{
    let own: u16 = evaluate_for_player(board, you);
    let mut others: u128 = 0;
    let mut i: usize = 0;
    while i < snake_ids.len()
        invariant
            i <= snake_ids@.len(),
            forall|k: int| 0 <= k < snake_ids@.len() ==> (#[trigger] snake_ids@[k]).0 < 4,
            others == others_value(*board, *you, snake_ids@.take(i as int)),
            others <= i * 7318,
        decreases snake_ids@.len() - i,
    {
        proof {
            assert(snake_ids@.take(i + 1).drop_last() =~= snake_ids@.take(i as int));
            assert(i * 7318 <= usize::MAX * 7318) by (nonlinear_arith)
                requires
                    i <= usize::MAX,
            ;
        }
        if snake_ids[i].0 != you.0 {
            others = others + evaluate_for_player(board, &snake_ids[i]) as u128;
        }
        i = i + 1;
    }
    assert(snake_ids@.take(i as int) =~= snake_ids@);
    let rest: u128 = others / (snake_ids.len() as u128);
    assert(rest <= 7318) by (nonlinear_arith)
        requires
            rest == others / (i as u128),
            others <= i * 7318,
            i > 0,
    ;
    if own as u128 >= rest {
        own - rest as u16
    } else {
        0
    }
}

/// The outcomes of a board, each rated by the search one turn less deep
/// and put under the move that `you` took in it; outcomes without a move of
/// `you` are left out.
pub open spec fn rated_outcomes(board: Board, depth: nat, you: SnakeId, ids: Seq<SnakeId>) -> Seq<
    Option<Rated>,
>
    decreases depth, 0nat,
{
    if depth == 0 {
        Seq::empty()
    } else {
        Seq::new(
            board.outcomes().len(),
            |i: int|
                match slot_of(board.outcomes()[i].0, you) {
                    Some(own) => Some(
                        (
                            paranoid_value(board.outcomes()[i].1, (depth - 1) as nat, you, ids).0,
                            own,
                            paranoid_value(board.outcomes()[i].1, (depth - 1) as nat, you, ids).2,
                        ),
                    ),
                    None => None,
                },
        )
    }
}

/// The rated outcomes that fall under the move with the given index, in
/// their order.
pub open spec fn bucket_of(rated: Seq<Option<Rated>>, index: int) -> Seq<Rated>
    decreases rated.len(),
{
    if rated.len() == 0 {
        Seq::empty()
    } else {
        match rated.last() {
            Some(entry) => if entry.1.index() == index {
                bucket_of(rated.drop_last(), index).push(entry)
            } else {
                bucket_of(rated.drop_last(), index)
            },
            None => bucket_of(rated.drop_last(), index),
        }
    }
}

/// The rated outcomes sorted into the buckets of the four moves.
pub open spec fn buckets_of(rated: Seq<Option<Rated>>) -> Seq<Seq<Rated>> {
    Seq::new(4, |index: int| bucket_of(rated, index))
}

/// The board as it stands, rated for `you` with `depth` turns left.
pub open spec fn standing_value(board: Board, depth: nat, you: SnakeId, ids: Seq<SnakeId>) -> Rated {
    (board_value(board, you, ids) as u16, Move::Down, depth as i64)
}

/// What the search says of a board without looking at what follows it, if
/// it does so: the greatest `u16` for a game won; 0 for a dead snake; else,
/// at depth 0 or where time has run out (`late`), the board's value. On any
/// other board the search looks further and this is `None`.
pub open spec fn settled(
    board: Board,
    depth: nat,
    you: SnakeId,
    ids: Seq<SnakeId>,
    late: bool,
) -> Option<Rated> {
    if board.winner() == Some(you) {
        Some((u16::MAX, Move::Down, depth as i64))
    } else if health_of(board, you.0) == 0 {
        Some((0u16, Move::Down, depth as i64))
    } else if late || depth == 0 {
        Some(standing_value(board, depth, you, ids))
    } else {
        None
    }
}

/// Some outcome of the board holds `m` as the move of `you`.
pub open spec fn is_own_move(board: Board, you: SnakeId, m: Move) -> bool {
    exists|i: int|
        0 <= i < board.outcomes().len() && slot_of((#[trigger] board.outcomes()[i]).0, you)
            == Some(m)
}

/// What the search finds on a board `depth` turns deep when time never runs
/// out, as the score, the move and the depth left where the score was taken:
/// what is settled at the board, if anything is; the board's value where the
/// board has no outcome with a move of `you`; else the best of the worst
/// rated outcomes of each of the four moves.
pub open spec fn paranoid_value(board: Board, depth: nat, you: SnakeId, ids: Seq<SnakeId>) -> Rated
    decreases depth, 1nat,
{
    match settled(board, depth, you, ids, false) {
        Some(found) => found,
        None => match best_of_worst(buckets_of(rated_outcomes(board, depth, you, ids))) {
            Some(entry) => entry,
            None => standing_value(board, depth, you, ids),
        },
    }
}

/// Rates a board without looking at what follows it, where the search does
/// so; `late` says whether time has run out.
pub fn settle(
    board: &Board,
    depth: u32,
    you: &SnakeId,
    snake_ids: &Vec<SnakeId>,
    late: bool,
) -> (found: Option<Rated>)
    requires
        you.0 < 4,
        snake_ids@.len() > 0,
        forall|i: int| 0 <= i < snake_ids@.len() ==> (#[trigger] snake_ids@[i]).0 < 4,
    ensures
        found == settled(*board, depth as nat, *you, snake_ids@, late),
{
    if is_won(board, you) {
        Some((u16::MAX, Move::Down, depth as i64))
    } else if is_lost(board, you) {
        Some((0, Move::Down, depth as i64))
    } else if late || depth == 0 {
        Some((evaluate_board(board, you, snake_ids), Move::Down, depth as i64))
    } else {
        None
    }
}

/// Searches `depth` turns deep for the move of `you` whose worst outcome is
/// best. A board that is won, lost or at depth 0 is rated without a look at
/// the clock. At every other board `expired` is asked; where it says yes,
/// the board is rated as it stands. Where it never says yes the result is
/// the paranoid value of the board; where it always says yes, the standing
/// value. In between, the result is the standing value or holds a move that
/// `you` makes in one of the board's outcomes.
pub fn paranoid_minimax<F: Fn() -> bool>(
    board: &Board,
    depth: u32,
    you: &SnakeId,
    snake_ids: &Vec<SnakeId>,
    expired: &F,
) -> (found: Rated)
    requires
        you.0 < 4,
        snake_ids@.len() > 0,
        forall|i: int| 0 <= i < snake_ids@.len() ==> (#[trigger] snake_ids@[i]).0 < 4,
        call_requires(expired, ()),
    ensures
        found.2 <= depth,
        settled(*board, depth as nat, *you, snake_ids@, false) matches Some(rated) ==> found
            == rated,
        (forall|late: bool| call_ensures(expired, (), late) ==> !late) ==> found == paranoid_value(
            *board,
            depth as nat,
            *you,
            snake_ids@,
        ),
        (forall|late: bool| call_ensures(expired, (), late) ==> late) ==> Some(found) == settled(
            *board,
            depth as nat,
            *you,
            snake_ids@,
            true,
        ),
        Some(found) == settled(*board, depth as nat, *you, snake_ids@, true) || (found.2 < depth
            && is_own_move(*board, *you, found.1)),
    decreases depth,
{
    if is_won(board, you) {
        return (u16::MAX, Move::Down, depth as i64);
    }
    if is_lost(board, you) {
        return (0, Move::Down, depth as i64);
    }
    let late = depth > 0 && expired();
    match settle(board, depth, you, snake_ids, late) {
        Some(found) => {
            return found;
        },
        None => {},
    }
    let outcomes = board.simulate_reasonable_moves();
    let ghost rated = rated_outcomes(*board, depth as nat, *you, snake_ids@);
    let ghost punctual = forall|late: bool| call_ensures(expired, (), late) ==> !late;
    let mut up: Vec<Rated> = Vec::new();
    let mut down: Vec<Rated> = Vec::new();
    let mut left: Vec<Rated> = Vec::new();
    let mut right: Vec<Rated> = Vec::new();
    let mut i: usize = 0;
    while i < outcomes.len()
        invariant
            you.0 < 4,
            depth > 0,
            snake_ids@.len() > 0,
            forall|k: int| 0 <= k < snake_ids@.len() ==> (#[trigger] snake_ids@[k]).0 < 4,
            call_requires(expired, ()),
            punctual == (forall|late: bool| call_ensures(expired, (), late) ==> !late),
            !(forall|late: bool| call_ensures(expired, (), late) ==> late),
            rated == rated_outcomes(*board, depth as nat, *you, snake_ids@),
            i <= outcomes@.len(),
            outcomes@.len() == board.outcomes().len(),
            forall|k: int|
                0 <= k < outcomes@.len() ==> (#[trigger] outcomes@[k]).0@ == board.outcomes()[k].0
                    && outcomes@[k].1 == board.outcomes()[k].1,
            punctual ==> up@ == bucket_of(rated.take(i as int), 0),
            punctual ==> down@ == bucket_of(rated.take(i as int), 1),
            punctual ==> left@ == bucket_of(rated.take(i as int), 2),
            punctual ==> right@ == bucket_of(rated.take(i as int), 3),
            forall|k: int|
                0 <= k < up@.len() ==> (#[trigger] up@[k]).2 < depth && is_own_move(
                    *board,
                    *you,
                    up@[k].1,
                ),
            forall|k: int|
                0 <= k < down@.len() ==> (#[trigger] down@[k]).2 < depth && is_own_move(
                    *board,
                    *you,
                    down@[k].1,
                ),
            forall|k: int|
                0 <= k < left@.len() ==> (#[trigger] left@[k]).2 < depth && is_own_move(
                    *board,
                    *you,
                    left@[k].1,
                ),
            forall|k: int|
                0 <= k < right@.len() ==> (#[trigger] right@[k]).2 < depth && is_own_move(
                    *board,
                    *you,
                    right@[k].1,
                ),
        decreases outcomes@.len() - i,
    {
        proof {
            assert(rated.take(i + 1).drop_last() =~= rated.take(i as int));
            assert(rated.take(i + 1).last() == rated[i as int]);
        }
        let (action, next) = outcomes[i];
        match action.move_of(*you) {
            Some(own) => {
                let below = paranoid_minimax(&next, depth - 1, you, snake_ids, expired);
                let entry: Rated = (below.0, own, below.2);
                match own {
                    Move::Up => up.push(entry),
                    Move::Down => down.push(entry),
                    Move::Left => left.push(entry),
                    Move::Right => right.push(entry),
                }
            },
            None => {},
        }
        i = i + 1;
    }
    let mut buckets: Vec<Vec<Rated>> = Vec::new();
    buckets.push(up);
    buckets.push(down);
    buckets.push(left);
    buckets.push(right);
    proof {
        assert(rated.take(i as int) =~= rated);
        if punctual {
            assert(buckets_view(buckets@) =~= buckets_of(rated));
        }
    }
    match get_best_move_from_buckets(&buckets) {
        Some(entry) => {
            proof {
                best_comes_from_a_bucket(buckets_view(buckets@));
                let at = choose|at: (int, int)|
                    0 <= at.0 < 4 && 0 <= at.1 < buckets_view(buckets@)[at.0].len()
                        && #[trigger] buckets_view(buckets@)[at.0][at.1] == entry;
                assert(buckets@[at.0]@[at.1] == entry);
            }
            entry
        },
        None => (evaluate_board(board, you, snake_ids), Move::Down, depth as i64),
    }
}

/// The best of the worst entries is an entry of one of the buckets.
proof fn best_comes_from_a_bucket(buckets: Seq<Seq<Rated>>)
    ensures
        best_of_worst(buckets) matches Some(entry) ==> exists|at: (int, int)|
            0 <= at.0 < buckets.len() && 0 <= at.1 < buckets[at.0].len()
                && #[trigger] buckets[at.0][at.1] == entry,
    decreases buckets.len(),
{
    if buckets.len() > 0 {
        let front = buckets.drop_last();
        best_comes_from_a_bucket(front);
        worst_is_the_first_minimum(buckets.last());
        let entry = best_of_worst(buckets)->0;
        if best_of_worst(buckets) is Some {
            if worst(buckets.last()) == Some(entry) {
                let k = choose|k: int|
                    0 <= k < buckets.last().len() && #[trigger] buckets.last()[k] == entry;
                let at = (buckets.len() - 1, k);
                assert(buckets[at.0][at.1] == entry);
            } else {
                let at = choose|at: (int, int)|
                    0 <= at.0 < front.len() && 0 <= at.1 < front[at.0].len()
                        && #[trigger] front[at.0][at.1] == entry;
                assert(buckets[at.0][at.1] == entry);
            }
        }
    }
}

/// The move that the search to `depth` finds for the engine's snake, the
/// snake with tag 0.
pub fn calc_move<F: Fn() -> bool>(board: &Board, depth: u32, expired: &F) -> (m: Move)
    requires
        call_requires(expired, ()),
    ensures
        board.snake_ids().len() == 0 ==> m == Move::Down,
        board.winner() == Some(SnakeId(0)) || health_of(*board, 0) == 0 || depth == 0 ==> m
            == Move::Down,
        board.snake_ids().len() > 0 && (forall|late: bool|
            call_ensures(expired, (), late) ==> !late) ==> m == paranoid_value(
            *board,
            depth as nat,
            SnakeId(0),
            board.snake_ids(),
        ).1,
        (forall|late: bool| call_ensures(expired, (), late) ==> late) ==> m == Move::Down,
        m == Move::Down || is_own_move(*board, SnakeId(0), m),
{
    let you = SnakeId(0);
    let snake_ids = board.get_snake_ids();
    if snake_ids.len() == 0 {
        return Move::Down;
    }
    paranoid_minimax(board, depth, &you, &snake_ids, expired).1
}

} // verus!
