use bene_snake::board::Board;
use bene_snake::paranoid::{
    calc_move, evaluate_board, evaluate_for_player, get_best_move_from_buckets, is_lost, is_won,
    paranoid_minimax, settle, worst_of,
};
use bene_snake::state::{GameState, Position, SnakeState};
use bene_snake::types::{Move, SnakeId};

fn cells(list: &[(i32, i32)]) -> Vec<Position> {
    list.iter().map(|&(x, y)| Position { x, y }).collect()
}

fn snake(health: i32, body: &[(i32, i32)]) -> SnakeState {
    SnakeState { health, body: cells(body) }
}

fn board_of(snakes: Vec<SnakeState>, food: &[(i32, i32)]) -> Board {
    let state = GameState { width: 11, height: 11, snakes, food: cells(food), hazards: vec![], hazard_damage: 15 };
    assert!(state.is_valid());
    state.to_board()
}

fn duel() -> Board {
    board_of(
        vec![
            snake(93, &[(7, 4), (6, 4), (5, 4), (4, 4), (4, 5), (5, 5), (6, 5)]),
            snake(97, &[(7, 0), (6, 0), (5, 0), (4, 0), (4, 1), (4, 2), (3, 2), (2, 2), (1, 2), (0, 2), (0, 3)]),
        ],
        &[(7, 9)],
    )
}

/// Three snakes late in a game.
fn three_snakes() -> Board {
    board_of(
        vec![
            snake(100, &[(3, 6), (2, 6), (2, 5), (1, 5), (1, 4), (2, 4), (2, 3), (2, 2), (2, 2)]),
            snake(
                91,
                &[
                    (10, 9), (10, 10), (9, 10), (9, 9), (9, 8), (8, 8), (8, 7), (8, 6), (8, 5), (7, 5),
                    (7, 6), (6, 6), (6, 5), (5, 5), (5, 4), (4, 4), (4, 5), (4, 6), (4, 7),
                ],
            ),
            snake(
                76,
                &[
                    (5, 2), (4, 2), (4, 1), (3, 1), (3, 2), (3, 3), (4, 3), (5, 3), (6, 3), (6, 4), (7, 4),
                    (7, 3), (8, 3),
                ],
            ),
        ],
        &[(4, 0), (3, 4)],
    )
}

fn never() -> bool {
    false
}

fn always() -> bool {
    true
}

#[test]
fn lib_test_calc_move() {
    let board = duel();
    let chosen = calc_move(&board, 3, &never);
    assert!([Move::Up, Move::Down, Move::Right].contains(&chosen));
}

#[test]
fn test_simulate_moves() {
    let board = duel();
    let simulation = board.simulate();
    assert_eq!(6, simulation.len());
}

#[test]
fn reasonable_moves_have_as_many_outcomes_as_combinations() {
    let board = duel();
    // three moves of the one snake with two of the other
    assert_eq!(board.simulate_reasonable_moves().len(), 6);
}

#[test]
fn lib_dedup_vec() {
    let v = vec![
        (5.0, Move::Down),
        (10.0, Move::Down),
        (-5.0, Move::Down),
        (3.0, Move::Up),
        (-5.0, Move::Up),
        (10.0, Move::Left),
        (7.0, Move::Left),
    ];
    let mut buckets = vec![vec![]; 4];
    for (score, mv) in v.iter() {
        buckets[mv.as_index()].push((score, mv));
    }
    let max_move = buckets
        .iter()
        .filter_map(|bucket| {
            bucket.iter().min_by(|(score, _), (other_score, _)| {
                score.partial_cmp(other_score).unwrap_or(std::cmp::Ordering::Equal)
            })
        })
        .max_by(|(score, _), (other_score, _)| {
            score.partial_cmp(other_score).unwrap_or(std::cmp::Ordering::Equal)
        })
        .unwrap();
    println!("{:?}", max_move);
    assert_eq!(max_move, &(&7.0, &Move::Left));
}

#[test]
fn engine_dedup_vec() {
    let v = vec![
        (5.0, Move::Down),
        (10.0, Move::Down),
        (-5.0, Move::Down),
        (3.0, Move::Up),
        (-5.0, Move::Up),
        (10.0, Move::Left),
        (7.0, Move::Left),
    ];
    let mut buckets = vec![vec![]; 4];
    for (score, mv) in v.iter() {
        buckets[mv.as_index()].push((score, mv));
    }
    let max_move = buckets
        .iter()
        .filter_map(|bucket| {
            bucket.iter().min_by(|(score, _), (other_score, _)| {
                score.partial_cmp(other_score).unwrap_or(std::cmp::Ordering::Equal)
            })
        })
        .max_by(|(score, _), (other_score, _)| {
            score.partial_cmp(other_score).unwrap_or(std::cmp::Ordering::Equal)
        })
        .unwrap();
    println!("{:?}", max_move);
}

#[test]
fn buckets_pick_the_best_of_the_worst() {
    // the same scores as whole numbers, through the library
    let v: Vec<(u16, Move)> = vec![
        (10, Move::Down),
        (15, Move::Down),
        (0, Move::Down),
        (8, Move::Up),
        (0, Move::Up),
        (15, Move::Left),
        (12, Move::Left),
    ];
    let mut buckets = vec![vec![]; 4];
    for (score, mv) in v.iter() {
        buckets[mv.as_index()].push((*score, *mv, 0i64));
    }
    let max_move = get_best_move_from_buckets(&buckets);
    println!("{:?}", max_move);
    assert_eq!(max_move, Some((12, Move::Left, 0)));
}

#[test]
fn test_possible_moves() {
    let board = duel();
    // the head has four neighbours on the grid, one of them its neck
    assert_eq!(board.count_possible_moves(SnakeId(0)), 4);
    let reasonable = board.reasonable_moves_for_each_snake();
    assert_eq!(reasonable[0].0, SnakeId(0));
    assert_ne!(reasonable[0].1.len(), 4);
}

#[test]
fn does_not_do_dumb_move() {
    let board = three_snakes();
    let chosen = calc_move(&board, 3, &never);
    assert_ne!(chosen, Move::Down);
}

#[test]
fn the_worst_of_a_bucket_is_its_first_minimum() {
    assert_eq!(worst_of(&vec![]), None);
    assert_eq!(
        worst_of(&vec![(5, Move::Down, 1), (3, Move::Down, 2), (9, Move::Down, 3), (3, Move::Down, 4)]),
        Some((3, Move::Down, 2))
    );
}

#[test]
fn the_best_move_is_the_last_maximum_of_the_minima() {
    let buckets = vec![
        vec![(3, Move::Up, 0), (5, Move::Up, 1)],
        vec![(5, Move::Down, 0), (10, Move::Down, 1), (4, Move::Down, 2)],
        vec![(10, Move::Left, 0), (7, Move::Left, 1)],
        vec![],
    ];
    assert_eq!(get_best_move_from_buckets(&buckets), Some((7, Move::Left, 1)));
    let ties = vec![vec![(4, Move::Up, 0)], vec![(4, Move::Down, 5)], vec![], vec![(2, Move::Right, 0)]];
    assert_eq!(get_best_move_from_buckets(&ties), Some((4, Move::Down, 5)));
    assert_eq!(get_best_move_from_buckets(&vec![vec![], vec![], vec![], vec![]]), None);
    assert_eq!(get_best_move_from_buckets(&vec![]), None);
}

#[test]
fn boards_are_rated_against_the_other_snakes() {
    let board = duel();
    // health 93, a tenth of length 7, twice four neighbours
    assert_eq!(evaluate_for_player(&board, &SnakeId(0)), 93 + 0 + 8);
    // health 97, a tenth of length 11, twice three neighbours
    assert_eq!(evaluate_for_player(&board, &SnakeId(1)), 97 + 1 + 6);
    let ids = vec![SnakeId(0), SnakeId(1)];
    assert_eq!(evaluate_board(&board, &SnakeId(0), &ids), 101 - 104 / 2);
    assert_eq!(evaluate_board(&board, &SnakeId(1), &ids), 104 - 101 / 2);
    // alone in the list nothing is taken off
    assert_eq!(evaluate_board(&board, &SnakeId(0), &vec![SnakeId(0)]), 101);
    // where the others weigh more than the snake itself, the value is 0
    let crowd = vec![SnakeId(1), SnakeId(1), SnakeId(1)];
    assert_eq!(evaluate_board(&board, &SnakeId(3), &crowd), 0);
}

#[test]
fn winning_and_losing_are_read_from_the_board() {
    let board = duel();
    assert!(!is_won(&board, &SnakeId(0)));
    assert!(!is_lost(&board, &SnakeId(0)));
    assert!(is_lost(&board, &SnakeId(2)));
    let joint = vec![(SnakeId(0), Move::Up), (SnakeId(1), Move::Down)];
    let (_, next) = board.simulate_with_moves(&joint).expect("the simulator gives a board");
    assert!(is_won(&next, &SnakeId(0)));
    assert!(!is_won(&next, &SnakeId(1)));
    assert!(is_lost(&next, &SnakeId(1)));
}

#[test]
fn the_search_stops_at_depth_zero_and_when_time_is_up() {
    let board = duel();
    let ids = board.get_snake_ids();
    assert_eq!(ids, vec![SnakeId(0), SnakeId(1)]);
    let value = evaluate_board(&board, &SnakeId(0), &ids);
    assert_eq!(paranoid_minimax(&board, 0, &SnakeId(0), &ids, &never), (value, Move::Down, 0));
    assert_eq!(paranoid_minimax(&board, 4, &SnakeId(0), &ids, &always), (value, Move::Down, 4));
}

#[test]
fn one_turn_deep_the_worst_outcome_of_each_move_counts() {
    let board = duel();
    let ids = board.get_snake_ids();
    let (score, chosen, depth) = paranoid_minimax(&board, 1, &SnakeId(0), &ids, &never);
    assert_eq!(depth, 0);
    assert!([Move::Up, Move::Down, Move::Right].contains(&chosen));
    // reproduce the search by hand
    let mut worst: Vec<Option<u16>> = vec![None; 4];
    for (action, next) in board.simulate_reasonable_moves() {
        let own = action.move_of(SnakeId(0)).expect("the snake takes part");
        let value = if is_won(&next, &SnakeId(0)) {
            u16::MAX
        } else if is_lost(&next, &SnakeId(0)) {
            0
        } else {
            evaluate_board(&next, &SnakeId(0), &ids)
        };
        let slot = &mut worst[own.as_index()];
        *slot = Some(slot.map_or(value, |w| w.min(value)));
    }
    let mut best: Option<(u16, usize)> = None;
    for (index, value) in worst.iter().enumerate() {
        if let Some(value) = value {
            if best.map_or(true, |(b, _)| *value >= b) {
                best = Some((*value, index));
            }
        }
    }
    let (expected_score, expected_index) = best.expect("some move has an outcome");
    assert_eq!(score, expected_score);
    assert_eq!(chosen.as_index(), expected_index);
}

#[test]
fn a_board_without_snakes_gets_the_default_move() {
    let board = board_of(vec![snake(0, &[(0, 0)])], &[]);
    assert_eq!(calc_move(&board, 3, &never), Move::Down);
}

#[test]
fn a_board_is_settled_when_won_lost_out_of_depth_or_out_of_time() {
    let board = duel();
    let ids = board.get_snake_ids();
    let value = evaluate_board(&board, &SnakeId(0), &ids);
    assert_eq!(settle(&board, 3, &SnakeId(0), &ids, false), None);
    assert_eq!(settle(&board, 3, &SnakeId(0), &ids, true), Some((value, Move::Down, 3)));
    assert_eq!(settle(&board, 0, &SnakeId(0), &ids, false), Some((value, Move::Down, 0)));
    // the snake in the third slot is not there, so it has lost
    assert_eq!(settle(&board, 3, &SnakeId(2), &ids, false), Some((0, Move::Down, 3)));
    let joint = vec![(SnakeId(0), Move::Up), (SnakeId(1), Move::Down)];
    let (_, next) = board.simulate_with_moves(&joint).expect("the simulator gives a board");
    assert_eq!(settle(&next, 2, &SnakeId(0), &ids, false), Some((u16::MAX, Move::Down, 2)));
    assert_eq!(settle(&next, 2, &SnakeId(0), &ids, true), Some((u16::MAX, Move::Down, 2)));
    assert_eq!(settle(&next, 2, &SnakeId(1), &ids, true), Some((0, Move::Down, 2)));
}

#[test]
fn a_won_or_lost_board_is_rated_whatever_the_clock_says() {
    let board = duel();
    let ids = board.get_snake_ids();
    let joint = vec![(SnakeId(0), Move::Up), (SnakeId(1), Move::Down)];
    let (_, next) = board.simulate_with_moves(&joint).expect("the simulator gives a board");
    assert_eq!(paranoid_minimax(&next, 5, &SnakeId(0), &ids, &always), (u16::MAX, Move::Down, 5));
    assert_eq!(paranoid_minimax(&next, 5, &SnakeId(0), &ids, &never), (u16::MAX, Move::Down, 5));
    assert_eq!(paranoid_minimax(&next, 5, &SnakeId(1), &ids, &always), (0, Move::Down, 5));
    assert_eq!(paranoid_minimax(&next, 5, &SnakeId(1), &ids, &never), (0, Move::Down, 5));
}

#[test]
fn a_search_out_of_time_moves_down() {
    let board = duel();
    assert_eq!(calc_move(&board, 3, &always), Move::Down);
    assert_eq!(calc_move(&board, 0, &never), Move::Down);
}
