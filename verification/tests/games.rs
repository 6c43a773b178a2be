use bene_snake::mcts::{best_move, search_round, Node};
use bene_snake::state::{GameState, Position, SnakeState};
use bene_snake::types::{Move, SnakeId};

fn cells(list: &[(i32, i32)]) -> Vec<Position> {
    list.iter().map(|&(x, y)| Position { x, y }).collect()
}

fn snake(health: i32, body: &[(i32, i32)]) -> SnakeState {
    SnakeState { health, body: cells(body) }
}

fn ucb1(c: f32) -> impl Fn(u32, u32, u32) -> i64 {
    move |wins, visits, parent_visits| {
        let rating = wins as f32 + c * ((parent_visits as f32).ln() / (visits as f32 + 1.0)).sqrt();
        let bits = rating.to_bits() as i32;
        (bits ^ ((((bits >> 31) as u32) >> 1) as i32)) as i64
    }
}

fn late_stage() -> GameState {
    GameState {
        width: 11,
        height: 11,
        snakes: vec![
            snake(58, &[(4, 6), (4, 5), (5, 5), (5, 6), (6, 6), (6, 7), (5, 7)]),
            snake(81, &[(7, 7), (7, 6), (7, 5), (8, 5), (8, 4), (9, 4), (9, 3), (8, 3), (7, 3),
                (7, 4)]),
        ],
        food: cells(&[(0, 2), (0, 9), (10, 0), (0, 1), (8, 0), (0, 4), (6, 0), (10, 1), (4, 3),
            (9, 1), (9, 10)]),
        hazards: cells(&[(0, 0), (0, 0), (0, 1), (0, 2), (0, 3), (0, 4), (0, 5), (0, 6), (0, 7),
            (0, 8), (0, 9), (0, 10), (1, 0), (1, 1), (1, 9), (1, 10), (2, 0), (2, 1), (2, 9),
            (2, 10), (3, 0), (3, 1), (3, 9), (3, 10), (4, 0), (4, 1), (4, 9), (4, 10), (5, 0),
            (5, 1), (5, 9), (5, 10), (6, 0), (6, 1), (6, 9), (6, 10), (7, 0), (7, 1), (7, 9),
            (7, 10), (8, 0), (8, 1), (8, 9), (8, 10), (9, 0), (9, 1), (9, 9), (9, 10), (10, 0),
            (10, 1), (10, 2), (10, 3), (10, 4), (10, 5), (10, 6), (10, 7), (10, 8), (10, 9),
            (10, 10)]),
        hazard_damage: 15,
    }
}

fn cornered() -> GameState {
    GameState {
        width: 11,
        height: 11,
        snakes: vec![
            snake(100, &[(0, 10), (0, 9), (1, 9), (1, 10), (2, 10)]),
        ],
        food: cells(&[]),
        hazards: cells(&[]),
        hazard_damage: 15,
    }
}

fn four_snake_game() -> GameState {
    GameState {
        width: 11,
        height: 11,
        snakes: vec![
            snake(86, &[(10, 4), (10, 5), (9, 5), (8, 5), (7, 5), (6, 5), (5, 5), (4, 5),
                (4, 4), (5, 4)]),
            snake(100, &[(2, 0), (2, 1), (2, 2), (2, 3), (2, 4), (2, 5), (2, 5)]),
            snake(78, &[(3, 7), (3, 8), (4, 8), (5, 8), (6, 8), (7, 8), (7, 7)]),
            snake(65, &[(1, 9), (2, 9), (3, 9), (3, 10), (2, 10)]),
        ],
        food: cells(&[(10, 3)]),
        hazards: cells(&[(0, 0), (0, 1), (0, 2), (0, 3), (0, 4), (0, 5), (0, 6), (0, 7), (0, 8),
            (0, 9), (0, 10), (1, 0), (1, 1), (1, 2), (1, 3), (1, 4), (1, 5), (1, 6), (1, 7),
            (1, 8), (1, 9), (1, 10), (2, 0), (2, 1), (2, 2), (2, 3), (2, 4), (2, 5), (2, 6),
            (2, 7), (2, 8), (2, 9), (2, 10)]),
        hazard_damage: 15,
    }
}

fn body_collision() -> GameState {
    GameState {
        width: 11,
        height: 11,
        snakes: vec![
            snake(100, &[(1, 3), (1, 2), (1, 1), (1, 0)]),
            snake(100, &[(0, 4), (0, 3), (0, 2), (0, 1)]),
        ],
        food: cells(&[]),
        hazards: cells(&[(1, 4)]),
        hazard_damage: 15,
    }
}

/// Searches for the engine's snake and checks that the move found is one of
/// its reasonable moves.
fn search_finds_a_reasonable_move(state: GameState, rounds: u32) {
    assert!(state.is_valid());
    let board = state.to_board();
    assert!(!board.is_over());
    let reasonable: Vec<Move> = board
        .reasonable_moves_for_each_snake()
        .into_iter()
        .find(|(sid, _)| *sid == SnakeId(0))
        .map(|(_, moves)| moves)
        .expect("the snake is alive");
    let mut root = Node::new_root(board);
    let score = ucb1(1.4);
    for _ in 0..rounds {
        assert!(search_round(&mut root, &SnakeId(0), false, &score));
    }
    assert_eq!(root.visits(), rounds);
    assert!(root.child_count() > 0);
    let chosen = best_move(&root, &SnakeId(0));
    assert!(reasonable.contains(&chosen), "{:?} is not among {:?}", chosen, reasonable);
}

#[test]
fn late_in_a_game_the_search_finds_a_reasonable_move() {
    search_finds_a_reasonable_move(late_stage(), 400);
}

#[test]
fn among_four_snakes_the_search_finds_a_reasonable_move() {
    search_finds_a_reasonable_move(four_snake_game(), 400);
}

#[test]
fn next_to_another_snake_the_search_finds_a_reasonable_move() {
    search_finds_a_reasonable_move(body_collision(), 400);
}

#[test]
fn a_snake_alone_on_the_board_gets_the_default_move() {
    let state = cornered();
    assert!(state.is_valid());
    let board = state.to_board();
    // a single snake has won already: there is nothing to search
    assert!(board.is_over());
    let mut root = Node::new_root(board);
    assert!(root.is_terminal());
    assert!(root.is_fully_expanded());
    let score = ucb1(1.4);
    for _ in 0..10 {
        assert!(search_round(&mut root, &SnakeId(0), false, &score));
    }
    assert_eq!(root.visits(), 10);
    assert_eq!(root.wins(), 10);
    assert_eq!(root.child_count(), 0);
    assert_eq!(best_move(&root, &SnakeId(0)), Move::Down);
}
