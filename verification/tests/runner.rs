use bene_snake::agent::Agent;
use bene_snake::heuristic_agent::HeuristicAgent;
use bene_snake::random_agent::RandomAgent;
use bene_snake::runner::{game_result, generate_random_game, run_game, run_tournament, GameConfig};
use bene_snake::state::Position;
use bene_snake::stats::TournamentStats;
use bene_snake::types::SnakeId;

#[test]
fn the_standard_game_has_four_snakes() {
    let config = GameConfig::standard_4_snake();
    assert_eq!((config.width, config.height), (11, 11));
    assert_eq!(config.num_snakes, 4);
    assert_eq!(config.initial_health, 100);
    assert_eq!(config.initial_length, 3);
    assert_eq!(config.num_food, 5);
    assert_eq!(config.max_turns, 500);
    assert!(config.is_playable());
}

#[test]
fn a_duel_has_two_snakes_and_three_food() {
    let config = GameConfig::duel();
    assert_eq!((config.width, config.height), (11, 11));
    assert_eq!(config.num_snakes, 2);
    assert_eq!(config.num_food, 3);
    assert_eq!(config.initial_health, 100);
    assert_eq!(config.max_turns, 500);
    let short = GameConfig::duel().with_max_turns(7);
    assert_eq!(short.max_turns, 7);
    assert_eq!(short.num_snakes, 2);
}

#[test]
fn unplayable_configurations_are_told() {
    let mut config = GameConfig::default();
    config.num_snakes = 5;
    assert!(!config.is_playable());
    let mut config = GameConfig::default();
    config.width = 10;
    config.height = 10;
    assert!(!config.is_playable());
    let mut config = GameConfig::default();
    config.initial_length = 4;
    assert!(!config.is_playable());
    let mut config = GameConfig::default();
    config.initial_health = 0;
    assert!(!config.is_playable());
}

#[test]
fn a_random_game_starts_on_standard_positions() {
    let standard: Vec<Position> = [(1, 1), (1, 5), (1, 9), (5, 1), (5, 9), (9, 1), (9, 5), (9, 9)]
        .iter()
        .map(|&(x, y)| Position { x, y })
        .collect();
    for _ in 0..20 {
        let config = GameConfig::standard_4_snake();
        let game = generate_random_game(&config);
        assert!(game.is_valid());
        assert_eq!((game.width, game.height), (11, 11));
        assert_eq!(game.snakes.len(), 4);
        assert!(game.hazards.is_empty());
        for (i, snake) in game.snakes.iter().enumerate() {
            assert_eq!(snake.health, 100);
            assert_eq!(snake.body.len(), 3);
            assert!(standard.contains(&snake.body[0]));
            assert_eq!(snake.body[0], snake.body[1]);
            assert_eq!(snake.body[1], snake.body[2]);
            for other in &game.snakes[..i] {
                assert_ne!(other.body[0], snake.body[0]);
            }
            assert!(!game.food.contains(&snake.body[0]));
        }
        assert_eq!(game.food.len(), 5);
        for (i, food) in game.food.iter().enumerate() {
            assert!(0 <= food.x && food.x < 11 && 0 <= food.y && food.y < 11);
            assert!(!game.food[..i].contains(food));
        }
    }
}

#[test]
fn random_games_differ() {
    let config = GameConfig::standard_4_snake();
    let first = generate_random_game(&config);
    let mut other_start = false;
    let mut other_food = false;
    for _ in 0..40 {
        let game = generate_random_game(&config);
        other_start |= game.snakes[0].body[0] != first.snakes[0].body[0];
        other_food |= game.food != first.food;
    }
    assert!(other_start);
    assert!(other_food);
}

#[test]
fn food_stops_where_the_grid_is_full() {
    let mut config = GameConfig::duel();
    config.num_food = 1000;
    let game = generate_random_game(&config);
    assert!(game.is_valid());
    assert_eq!(game.food.len(), 119);
}

#[test]
fn a_result_records_the_winner_by_place() {
    let result = game_result(Some(SnakeId(2)), 17, 4);
    assert_eq!(result.winner, Some(2));
    assert_eq!(result.turns, 17);
    assert_eq!(result.num_snakes, 4);
    assert_eq!(game_result(None, 0, 2).winner, None);
}

#[test]
fn a_game_ends_within_its_turns() {
    let first = HeuristicAgent::new();
    let second = RandomAgent::new();
    let agents: Vec<&dyn Agent> = vec![&first, &second];
    let config = GameConfig::duel().with_max_turns(40);
    for _ in 0..5 {
        let result = run_game(&agents, &config);
        assert!(result.turns <= 40);
        assert_eq!(result.num_snakes, 2);
        if let Some(winner) = result.winner {
            assert!(winner < 2);
        }
    }
}

#[test]
fn a_game_of_no_turns_is_a_draw_after_no_turn() {
    let first = RandomAgent::new();
    let second = RandomAgent::new();
    let agents: Vec<&dyn Agent> = vec![&first, &second];
    let result = run_game(&agents, &GameConfig::duel().with_max_turns(0));
    assert_eq!(result.turns, 0);
    assert_eq!(result.winner, None);
}

#[test]
fn a_tournament_plays_every_game() {
    let agents_owned: Vec<Box<dyn Agent>> = vec![
        Box::new(RandomAgent::new()),
        Box::new(HeuristicAgent::new()),
        Box::new(RandomAgent::with_name("other".to_string())),
        Box::new(RandomAgent::with_name("last".to_string())),
    ];
    let agents: Vec<&dyn Agent> = agents_owned.iter().map(|a| a.as_ref()).collect();
    let names: Vec<String> = agents.iter().map(|a| a.name().to_string()).collect();
    let config = GameConfig::standard_4_snake().with_max_turns(200);
    let results = run_tournament(&agents, &config, 6);
    assert_eq!(results.len(), 6);
    let stats = TournamentStats::from_results(&results, &names);
    assert_eq!(stats.total_games, 6);
    assert!(stats.max_game_length <= 200);
    for record in &stats.agent_stats {
        assert_eq!(record.total_games, 6);
        assert_eq!(record.wins + record.losses + record.draws, 6);
    }
    let wins: u32 = stats.agent_stats.iter().map(|s| s.wins).sum();
    assert_eq!(wins + stats.total_draws, 6);
}

#[test]
fn a_random_game_has_up_to_eight_snakes_of_the_configured_length() {
    let mut config = GameConfig::standard_4_snake();
    config.num_snakes = 7;
    config.initial_length = 5;
    config.num_food = 9;
    let game = generate_random_game(&config);
    assert_eq!(game.snakes.len(), 7);
    for (i, snake) in game.snakes.iter().enumerate() {
        assert_eq!(snake.body.len(), 5);
        assert!(snake.body.iter().all(|p| *p == snake.body[0]));
        assert_eq!(snake.health, 100);
        for other in &game.snakes[..i] {
            assert_ne!(other.body[0], snake.body[0]);
        }
        assert!(!game.food.contains(&snake.body[0]));
    }
    assert_eq!(game.food.len(), 9);
    config.num_snakes = 12;
    config.initial_length = 0;
    let game = generate_random_game(&config);
    assert_eq!(game.snakes.len(), 8);
    assert!(game.snakes.iter().all(|s| s.body.len() == 1));
}

#[test]
fn food_lies_on_the_grid_whatever_its_size() {
    let mut config = GameConfig::duel();
    config.width = 3;
    config.height = 4;
    config.num_food = 50;
    let game = generate_random_game(&config);
    assert_eq!((game.width, game.height), (3, 4));
    for (i, food) in game.food.iter().enumerate() {
        assert!(0 <= food.x && food.x < 3 && 0 <= food.y && food.y < 4);
        assert!(!game.food[..i].contains(food));
        assert!(game.snakes.iter().all(|s| s.body[0] != *food));
    }
    let on_grid = game.snakes.iter().filter(|s| s.body[0].x < 3 && s.body[0].y < 4).count();
    assert_eq!(game.food.len(), 12 - on_grid);
}

#[test]
fn the_winner_is_one_of_the_snakes_that_played() {
    let agents_owned: Vec<Box<dyn Agent>> = vec![
        Box::new(RandomAgent::new()),
        Box::new(HeuristicAgent::new()),
        Box::new(RandomAgent::new()),
        Box::new(RandomAgent::new()),
    ];
    let agents: Vec<&dyn Agent> = agents_owned.iter().map(|a| a.as_ref()).collect();
    let mut config = GameConfig::standard_4_snake().with_max_turns(300);
    config.num_snakes = 3;
    for _ in 0..5 {
        let result = run_game(&agents, &config);
        assert_eq!(result.num_snakes, 3);
        if let Some(winner) = result.winner {
            assert!(winner < 3);
        }
    }
}
