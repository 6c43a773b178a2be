use bene_snake::board::Board;
use bene_snake::mcts::{
    best_move, exploit, mcts_search, playout_outcome, random_playout, search_round, Node,
};
use bene_snake::selection::last_maximum;
use bene_snake::state::{GameState, Position, SnakeState};
use bene_snake::types::{Move, SnakeId};
use std::sync::atomic::AtomicBool;

fn cells(list: &[(i32, i32)]) -> Vec<Position> {
    list.iter().map(|&(x, y)| Position { x, y }).collect()
}

fn snake(health: i32, body: &[(i32, i32)]) -> SnakeState {
    SnakeState { health, body: cells(body) }
}

/// Four snakes one turn into a game; the engine's snake heads up from the top middle.
fn start_of_game() -> Board {
    let state = GameState {
        width: 11,
        height: 11,
        snakes: vec![
            snake(99, &[(5, 8), (5, 9), (5, 9)]),
            snake(99, &[(0, 5), (1, 5), (1, 5)]),
            snake(99, &[(4, 1), (5, 1), (5, 1)]),
            snake(99, &[(9, 0), (9, 1), (9, 1)]),
        ],
        food: cells(&[(0, 4), (4, 8), (4, 0), (8, 0), (5, 5)]),
        hazards: vec![],
        hazard_damage: 15,
    };
    assert!(state.is_valid());
    state.to_board()
}

/// Rating by the upper confidence bound, as a number that orders like the rating.
fn ucb1(c: f32) -> impl Fn(u32, u32, u32) -> i64 {
    move |wins, visits, parent_visits| {
        let rating = wins as f32 + c * ((parent_visits as f32).ln() / (visits as f32 + 1.0)).sqrt();
        let bits = rating.to_bits() as i32;
        (bits ^ ((((bits >> 31) as u32) >> 1) as i32)) as i64
    }
}

#[test]
fn test_mcts_search_immediate_stop() {
    // Test that if stop is already true, mcts_search doesn't do any work
    let board = start_of_game();

    let you = SnakeId(0);
    let mut root_node = Node::new_root(board);
    let stop = AtomicBool::new(true); // Already set to true

    // Run mcts_search with stop already set
    mcts_search(&mut root_node, &you, &stop, &ucb1(1.4));

    // Verify no work was done
    let visits = root_node.visits();
    assert_eq!(
        visits, 0,
        "mcts_search should not perform any iterations when stop is already true"
    );
    assert_eq!(root_node.child_count(), 0);
}

#[test]
fn a_stopped_round_leaves_the_tree_alone() {
    let mut root = Node::new_root(start_of_game());
    let score = ucb1(1.4);
    assert!(search_round(&mut root, &SnakeId(0), false, &score));
    assert!(search_round(&mut root, &SnakeId(0), false, &score));
    let (visits, wins, children) = (root.visits(), root.wins(), root.child_count());
    assert!(!search_round(&mut root, &SnakeId(0), true, &score));
    assert_eq!((root.visits(), root.wins(), root.child_count()), (visits, wins, children));
}

#[test]
fn every_round_adds_one_visit_to_the_root() {
    let mut root = Node::new_root(start_of_game());
    let score = ucb1(1.4);
    for round in 1..=300u32 {
        let wins_before = root.wins();
        assert!(search_round(&mut root, &SnakeId(0), false, &score));
        assert_eq!(root.visits(), round);
        assert!(root.wins() >= wins_before && root.wins() <= wins_before + 1);
        assert!(root.wins() <= root.visits());
    }
    assert!(root.child_count() >= 1);
    let (_, child) = root.most_visited_child().expect("the root has children");
    assert!(child.visits() > 0);
    assert!(child.visits() <= root.visits());
    let depth = root.get_depth();
    assert!(depth >= 1 && depth <= 300);
}

#[test]
fn a_fresh_root_holds_every_joint_move_once() {
    let mut root = Node::new_root(start_of_game());
    assert!(!root.is_terminal());
    assert!(!root.is_fully_expanded());
    assert_eq!(root.get_depth(), 0);
    let mut expansions = 0;
    while !root.is_fully_expanded() {
        root.expand(&SnakeId(0));
        expansions += 1;
        assert!(root.child_count() <= expansions);
    }
    // three moves each for the snakes in the open, two each for those at the edge
    assert_eq!(expansions, 36);
    assert_eq!(root.child_count(), 36);
    let actions = root.child_actions();
    assert_eq!(actions.len(), 36);
    for pair in actions.windows(2) {
        assert!(pair[0].key() < pair[1].key());
    }
    for action in &actions {
        // every child stands under one reasonable move of each snake
        assert!([Move::Down, Move::Left, Move::Right].contains(&action.move_of(SnakeId(0)).unwrap()));
        assert!([Move::Up, Move::Down].contains(&action.move_of(SnakeId(1)).unwrap()));
        assert!([Move::Up, Move::Down, Move::Left].contains(&action.move_of(SnakeId(2)).unwrap()));
        assert!([Move::Left, Move::Right].contains(&action.move_of(SnakeId(3)).unwrap()));
    }
    assert_eq!(root.get_depth(), 1);
    root.expand(&SnakeId(0));
    assert_eq!(root.child_count(), 36);
    assert_eq!(root.visits(), 0);
}

#[test]
fn the_best_child_has_the_greatest_rating() {
    let mut root = Node::new_root(start_of_game());
    assert!(root.best_child(&|wins, _, _| wins as i64).is_none());
    assert!(root.most_visited_child().is_none());
    let score = ucb1(1.4);
    for _ in 0..200 {
        search_round(&mut root, &SnakeId(0), false, &score);
    }
    let (action, best) = root.best_child(&exploit).expect("the root has children");
    assert_eq!(exploit(7, 9, 100), 7);
    // without weight on exploration the bound orders by wins alone
    let (same, _) = root.best_child(&ucb1(0.0)).expect("the root has children");
    assert_eq!(same.key(), action.key());
    assert!(action.move_of(SnakeId(0)).is_some());
    let (_, most) = root.most_visited_child().expect("the root has children");
    assert!(most.visits() >= best.visits());
    let constant = |_: u32, _: u32, _: u32| 0i64;
    let (last_action, _) = root.best_child(&constant).expect("the root has children");
    assert!(last_action.key() >= action.key());
}

#[test]
fn the_recommended_move_is_reasonable() {
    let board = start_of_game();
    let reasonable: Vec<Move> = board
        .reasonable_moves_for_each_snake()
        .into_iter()
        .find(|(sid, _)| *sid == SnakeId(0))
        .map(|(_, moves)| moves)
        .expect("the snake is alive");
    assert_eq!(reasonable, vec![Move::Down, Move::Left, Move::Right]);
    let mut root = Node::new_root(board);
    let score = ucb1(1.4);
    for _ in 0..500 {
        search_round(&mut root, &SnakeId(0), false, &score);
    }
    let chosen = best_move(&root, &SnakeId(0));
    assert!(reasonable.contains(&chosen));
}

#[test]
fn without_children_the_default_move_is_recommended() {
    let root = Node::new_root(start_of_game());
    assert_eq!(best_move(&root, &SnakeId(0)), Move::Down);
}

#[test]
fn backpropagation_counts_one_visit_and_the_outcome() {
    let mut root = Node::new_root(start_of_game());
    root.backpropagate(1);
    root.backpropagate(0);
    root.backpropagate(1);
    assert_eq!(root.visits(), 3);
    assert_eq!(root.wins(), 2);
}

#[test]
fn a_playout_ends_on_a_finished_board() {
    let board = start_of_game();
    let (end, steps) = random_playout(&board);
    assert!(end.is_over());
    assert!(steps >= 1);
    let outcome = Node::new_root(board).rollout(&SnakeId(0));
    assert!(outcome <= 1);
}

#[test]
fn a_playout_is_won_only_by_the_winner() {
    assert_eq!(playout_outcome(Some(SnakeId(2)), &SnakeId(2)), 1);
    assert_eq!(playout_outcome(Some(SnakeId(1)), &SnakeId(2)), 0);
    assert_eq!(playout_outcome(None, &SnakeId(0)), 0);
}

#[test]
fn the_last_of_equal_maxima_wins() {
    assert_eq!(last_maximum(&vec![]), None);
    assert_eq!(last_maximum(&vec![3]), Some(0));
    assert_eq!(last_maximum(&vec![1, 5, 2, 5, 4]), Some(3));
    assert_eq!(last_maximum(&vec![-7, -9]), Some(0));
    assert_eq!(last_maximum(&vec![i64::MIN, i64::MAX, i64::MAX]), Some(2));
}

#[test]
fn test_mcts_search_terminates_on_stop_signal() {
    let board = start_of_game();

    let you = SnakeId(0);
    let mut root_node = Node::new_root(board);
    let stop = AtomicBool::new(false);

    // The signal is raised while the search runs: by the rating function, once
    // it has been asked a few thousand times.
    let asked = std::sync::atomic::AtomicU32::new(0);
    let rate = ucb1(1.4);
    let score = |wins: u32, visits: u32, parent_visits: u32| {
        if asked.fetch_add(1, std::sync::atomic::Ordering::Relaxed) == 5000 {
            stop.store(true, std::sync::atomic::Ordering::Relaxed);
        }
        rate(wins, visits, parent_visits)
    };

    let start_time = std::time::Instant::now();
    mcts_search(&mut root_node, &you, &stop, &score);
    let elapsed = start_time.elapsed();

    // Verify it terminated reasonably quickly
    assert!(
        elapsed < std::time::Duration::from_secs(10),
        "mcts_search should terminate quickly after stop signal, took {:?}",
        elapsed
    );

    // Verify that at least some work was done
    let visits = root_node.visits();
    assert!(visits > 0, "mcts_search should have performed at least some iterations");
    let (_, child) = root_node.most_visited_child().expect("the root has children");
    assert!(child.visits() > 0);

    // The search has stopped at the round after the signal
    let asked = asked.load(std::sync::atomic::Ordering::Relaxed);
    assert!(asked > 5000 && asked <= 5000 + 36 * 4);

    println!("Test passed: mcts_search terminated after {} visits in {:?}", visits, elapsed);
}

#[test]
fn a_node_is_visited_as_often_as_its_children_and_its_own_playouts() {
    let mut root = Node::new_root(start_of_game());
    let score = ucb1(1.4);
    assert_eq!(root.child_visits(), 0);
    // the first 36 passes stop at the root: each expands one move and plays out from the root
    for round in 1..=36u32 {
        assert!(search_round(&mut root, &SnakeId(0), false, &score));
        assert_eq!(root.visits(), round);
        assert_eq!(root.child_visits(), 0);
        assert_eq!(root.child_count(), round as usize);
    }
    // from then on every pass goes into a child
    for round in 1..=50u32 {
        assert!(search_round(&mut root, &SnakeId(0), false, &score));
        assert_eq!(root.visits(), 36 + round);
        assert_eq!(root.child_visits(), round);
        assert!(root.wins() <= root.visits());
    }
    let (_, child) = root.most_visited_child().expect("the root has children");
    assert!(child.child_visits() <= child.visits());
    assert!(child.visits() <= root.child_visits());
}
