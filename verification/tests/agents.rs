use bene_snake::agent::{Agent, MctsAgent};
use bene_snake::board::Board;
use bene_snake::heuristic_agent::{nearest_cell, rate, HeuristicAgent};
use bene_snake::minimax_agent::MinimaxAgent;
use bene_snake::moves::{candidate_moves, list_of, move_of, trial_moves};
use bene_snake::random_agent::RandomAgent;
use bene_snake::state::{GameState, Position, SnakeState};
use bene_snake::types::{Move, SnakeId};
use std::time::Duration;

fn cells(list: &[(i32, i32)]) -> Vec<Position> {
    list.iter().map(|&(x, y)| Position { x, y }).collect()
}

fn snake(health: i32, body: &[(i32, i32)]) -> SnakeState {
    SnakeState { health, body: cells(body) }
}

fn board_of(snakes: Vec<SnakeState>, food: &[(i32, i32)]) -> Board {
    let state = GameState { width: 11, height: 11, snakes, food: cells(food), hazards: vec![], hazard_damage: 15 };
    assert!(state.is_valid());
    state.to_board()
}

fn duel() -> Board {
    board_of(
        vec![
            snake(93, &[(7, 4), (6, 4), (5, 4), (4, 4), (4, 5), (5, 5), (6, 5)]),
            snake(97, &[(7, 0), (6, 0), (5, 0), (4, 0), (4, 1), (4, 2), (3, 2), (2, 2), (1, 2), (0, 2), (0, 3)]),
        ],
        &[(7, 9)],
    )
}

/// The engine's snake is hungry; food lies two steps to its left.
fn hungry() -> Board {
    board_of(
        vec![snake(10, &[(5, 5), (5, 4), (5, 3)]), snake(90, &[(9, 9), (9, 8), (9, 7)])],
        &[(3, 5), (0, 0)],
    )
}

fn ucb1(c: f32) -> impl Fn(u32, u32, u32) -> i64 + Send + Sync {
    move |wins, visits, parent_visits| {
        let rating = wins as f32 + c * ((parent_visits as f32).ln() / (visits as f32 + 1.0)).sqrt();
        let bits = rating.to_bits() as i32;
        (bits ^ ((((bits >> 31) as u32) >> 1) as i32)) as i64
    }
}

#[test]
fn agents_are_named() {
    assert_eq!(RandomAgent::new().name(), "Random");
    assert_eq!(RandomAgent::with_name("dice".to_string()).name(), "dice");
    assert_eq!(HeuristicAgent::new().name(), "Heuristic");
    assert_eq!(HeuristicAgent::with_name("rules".to_string()).with_hunger_threshold(50).name(), "rules");
    assert_eq!(MinimaxAgent::new(3).name(), "Minimax");
    assert_eq!(MinimaxAgent::with_name("deep".to_string(), 5).name(), "deep");
    assert_eq!(MctsAgent::new(Duration::from_millis(5), ucb1(1.4)).name(), "MCTS");
    assert_eq!(
        MctsAgent::with_name("MCTS-10ms".to_string(), Duration::from_millis(10), ucb1(1.4)).name(),
        "MCTS-10ms"
    );
    let boxed: Box<dyn Agent> = Box::new(RandomAgent::new());
    assert_eq!(boxed.name(), "Random");
    assert_eq!(RandomAgent::default().name(), "Random");
    assert_eq!(HeuristicAgent::default().name(), "Heuristic");
    assert_eq!(MinimaxAgent::default().name(), "Minimax");
}

#[test]
fn the_random_agent_plays_reasonable_moves() {
    let board = duel();
    let agent = RandomAgent::new();
    for _ in 0..50 {
        assert!([Move::Up, Move::Down, Move::Right].contains(&agent.choose_move(&board, SnakeId(0))));
        assert!([Move::Up, Move::Right].contains(&agent.choose_move(&board, SnakeId(1))));
    }
    // a snake that is not on the board gets some direction
    let _ = agent.choose_move(&board, SnakeId(3));
}

#[test]
fn entries_are_found_by_snake() {
    let joint = vec![(SnakeId(0), Move::Up), (SnakeId(2), Move::Left), (SnakeId(2), Move::Right)];
    assert_eq!(move_of(&joint, SnakeId(0)), Some(Move::Up));
    assert_eq!(move_of(&joint, SnakeId(2)), Some(Move::Left));
    assert_eq!(move_of(&joint, SnakeId(1)), None);
    let lists = vec![(SnakeId(1), vec![Move::Up]), (SnakeId(3), vec![])];
    assert_eq!(list_of(&lists, SnakeId(3)), Some(1));
    assert_eq!(list_of(&lists, SnakeId(0)), None);
}

#[test]
fn the_heuristic_rating_adds_up_its_parts() {
    assert_eq!(rate(3, 0, 7, 93), 30 + 7);
    assert_eq!(rate(4, 90, 3, 10), 40 + 90 + 3 - 20);
    assert_eq!(rate(0, 0, 0, 19), -2);
    assert_eq!(rate(0, 0, 0, 20), 0);
    assert_eq!(rate(0, 100, u16::MAX, 0), 100 + 65535 - 40);
}

#[test]
fn the_nearest_cell_is_measured_in_steps() {
    assert_eq!(nearest_cell((5, 5), &vec![(3, 5), (0, 0)]), 2);
    assert_eq!(nearest_cell((5, 5), &vec![(0, 0), (6, 7), (9, 9)]), 3);
    assert_eq!(nearest_cell((5, 5), &vec![(5, 5)]), 0);
    assert_eq!(nearest_cell((5, 5), &vec![]), i32::MAX as i64);
    assert_eq!(nearest_cell((i32::MIN, 0), &vec![(i32::MAX, 0)]), i32::MAX as i64);
}

#[test]
fn trial_moves_give_the_others_their_first_move() {
    let board = duel();
    assert_eq!(
        trial_moves(&board, SnakeId(0), Move::Right),
        vec![(SnakeId(0), Move::Right), (SnakeId(1), Move::Up)]
    );
    assert_eq!(
        trial_moves(&board, SnakeId(1), Move::Right),
        vec![(SnakeId(0), Move::Up), (SnakeId(1), Move::Right)]
    );
    assert_eq!(candidate_moves(&board, SnakeId(1)), vec![Move::Up, Move::Right]);
    assert_eq!(candidate_moves(&board, SnakeId(2)), vec![Move::Up, Move::Down, Move::Left, Move::Right]);
}

#[test]
fn the_heuristic_agent_rates_moves_as_described() {
    let agent = HeuristicAgent::new();
    let board = duel();
    // after any of its moves the head has four neighbours on the grid; length 7; health 93
    assert_eq!(agent.score_move(&board, SnakeId(0), Move::Up), 40 + 7);
    assert_eq!(agent.score_move(&board, SnakeId(0), Move::Right), 40 + 7);
    // moving onto the own neck kills
    assert_eq!(agent.score_move(&board, SnakeId(0), Move::Left), i32::MIN);
    // of equal ratings the last wins
    assert_eq!(agent.choose_move(&board, SnakeId(0)), Move::Right);

    let board = hungry();
    // health 10 is below the threshold 30: food two steps off adds (20 - 2) * 5,
    // and the low health costs (20 - 10) * 2
    assert_eq!(agent.score_move(&board, SnakeId(0), Move::Left), 40 + 90 + 3 - 20);
    assert_eq!(agent.score_move(&board, SnakeId(0), Move::Up), 40 + 90 + 3 - 20);
    let sated = HeuristicAgent::new().with_hunger_threshold(5);
    assert_eq!(sated.score_move(&board, SnakeId(0), Move::Left), 40 + 3 - 20);
}

#[test]
fn the_minimax_agent_rates_boards_as_described() {
    let agent = MinimaxAgent::new(2);
    let board = duel();
    assert_eq!(agent.evaluate(&board, SnakeId(0)), 93 + 70 + 20);
    assert_eq!(agent.evaluate(&board, SnakeId(1)), 97 + 110 + 15);
    assert_eq!(agent.minimax(&board, SnakeId(0), 0, i32::MIN, i32::MAX, true), 93 + 70 + 20);
    let lonely = board_of(vec![snake(100, &[(0, 10), (0, 9), (1, 9), (1, 10), (2, 10)])], &[]);
    assert_eq!(agent.evaluate(&lonely, SnakeId(0)), 10000);
    assert_eq!(agent.evaluate(&lonely, SnakeId(1)), -10000);
    assert_eq!(agent.minimax(&lonely, SnakeId(0), 5, i32::MIN, i32::MAX, true), 10000);
}

#[test]
fn one_turn_ahead_minimax_takes_the_best_or_the_worst_follower() {
    let agent = MinimaxAgent::new(1);
    let board = duel();
    // whatever both snakes do, the engine's snake is on a cell with four
    // neighbours afterwards and has lost one point of health
    assert_eq!(agent.minimax(&board, SnakeId(0), 1, i32::MIN, i32::MAX, true), 92 + 70 + 20);
    assert_eq!(agent.minimax(&board, SnakeId(0), 1, i32::MIN, i32::MAX, false), 92 + 70 + 20);
    // the other snake wins where the engine's snake dies, which it cannot here
    assert!(agent.minimax(&board, SnakeId(1), 1, i32::MIN, i32::MAX, true) >= 96 + 110);
}

#[test]
fn minimax_combinations_skip_snakes_without_moves() {
    let lists = vec![
        (SnakeId(0), vec![Move::Up, Move::Down]),
        (SnakeId(1), vec![]),
        (SnakeId(2), vec![Move::Left, Move::Right]),
    ];
    assert_eq!(
        MinimaxAgent::generate_move_combinations(&lists),
        vec![
            vec![(SnakeId(0), Move::Up), (SnakeId(2), Move::Left)],
            vec![(SnakeId(0), Move::Up), (SnakeId(2), Move::Right)],
            vec![(SnakeId(0), Move::Down), (SnakeId(2), Move::Left)],
            vec![(SnakeId(0), Move::Down), (SnakeId(2), Move::Right)],
        ]
    );
    assert_eq!(MinimaxAgent::generate_move_combinations(&vec![]), vec![Vec::<(SnakeId, Move)>::new()]);
    assert_eq!(
        MinimaxAgent::generate_move_combinations(&vec![(SnakeId(3), vec![])]),
        vec![Vec::<(SnakeId, Move)>::new()]
    );
}

#[test]
fn the_minimax_agent_avoids_its_neck() {
    let board = duel();
    for depth in 0..3 {
        let chosen = MinimaxAgent::new(depth).choose_move(&board, SnakeId(0));
        assert!([Move::Up, Move::Down, Move::Right].contains(&chosen));
    }
    // all moves are worth the same one turn ahead, so the first one is taken
    assert_eq!(MinimaxAgent::new(1).choose_move(&board, SnakeId(0)), Move::Up);
}

#[test]
fn the_mcts_agent_plays_a_reasonable_move() {
    let agent = MctsAgent::new(Duration::from_millis(30), ucb1(1.4));
    let board = duel();
    let chosen = agent.choose_move(&board, SnakeId(0));
    assert!([Move::Up, Move::Down, Move::Right].contains(&chosen));
}

#[test]
fn the_mcts_agent_thinks_as_long_as_it_is_given() {
    let agent = MctsAgent::new(Duration::from_millis(60), ucb1(1.4));
    let board = duel();
    let began = std::time::Instant::now();
    let _ = agent.choose_move(&board, SnakeId(0));
    let took = began.elapsed();
    assert!(took >= Duration::from_millis(60));
    assert!(took < Duration::from_secs(5));
}

#[test]
fn the_mcts_agent_falls_back_on_a_finished_board() {
    let agent = MctsAgent::new(Duration::from_millis(1), ucb1(1.4));
    let lonely = board_of(vec![snake(100, &[(0, 10), (0, 9), (1, 9), (1, 10), (2, 10)])], &[]);
    assert_eq!(agent.choose_move(&lonely, SnakeId(0)), Move::Down);
}
