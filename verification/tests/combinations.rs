use bene_snake::combinations::{generate_move_combinations, MoveCombinationIterator};
use bene_snake::types::{Move, SnakeId};

fn drain(mut iter: MoveCombinationIterator) -> Vec<Vec<(SnakeId, Move)>> {
    let mut all = Vec::new();
    while let Some(joint) = iter.next() {
        all.push(joint);
    }
    all
}

#[test]
fn test_move_combination_iterator() {
    // Test empty input - should yield one empty combination
    let empty_iter = MoveCombinationIterator::new(vec![]);
    let empty_result: Vec<_> = drain(empty_iter);
    assert_eq!(empty_result.len(), 1);
    assert_eq!(empty_result[0], vec![]);

    // Test single snake with multiple moves
    let snake1 = SnakeId(0);
    let single_snake = vec![(snake1, vec![Move::Up, Move::Down, Move::Left])];
    let single_result: Vec<_> = drain(MoveCombinationIterator::new(single_snake));
    assert_eq!(single_result.len(), 3);
    assert_eq!(single_result[0], vec![(snake1, Move::Up)]);
    assert_eq!(single_result[1], vec![(snake1, Move::Down)]);
    assert_eq!(single_result[2], vec![(snake1, Move::Left)]);

    // Test two snakes (Cartesian product)
    let snake2 = SnakeId(1);
    let two_snakes = vec![
        (snake1, vec![Move::Up, Move::Down]),
        (snake2, vec![Move::Left, Move::Right]),
    ];
    let two_result: Vec<_> = drain(MoveCombinationIterator::new(two_snakes));
    assert_eq!(two_result.len(), 4); // 2 x 2 = 4
    assert_eq!(
        two_result[0],
        vec![(snake1, Move::Up), (snake2, Move::Left)]
    );
    assert_eq!(
        two_result[1],
        vec![(snake1, Move::Up), (snake2, Move::Right)]
    );
    assert_eq!(
        two_result[2],
        vec![(snake1, Move::Down), (snake2, Move::Left)]
    );
    assert_eq!(
        two_result[3],
        vec![(snake1, Move::Down), (snake2, Move::Right)]
    );

    // Test three snakes
    let snake3 = SnakeId(2);
    let three_snakes = vec![
        (snake1, vec![Move::Up, Move::Down]),
        (snake2, vec![Move::Left]),
        (snake3, vec![Move::Right, Move::Up]),
    ];
    let three_result: Vec<_> = drain(MoveCombinationIterator::new(three_snakes));
    assert_eq!(three_result.len(), 4); // 2 x 1 x 2 = 4

    // Test snake with no moves (should yield no combinations)
    let no_moves = vec![
        (snake1, vec![Move::Up]),
        (snake2, vec![]), // No moves for this snake
    ];
    let no_moves_result: Vec<_> = drain(MoveCombinationIterator::new(no_moves));
    assert_eq!(no_moves_result.len(), 0);
}

#[test]
fn collect_gives_what_is_left_in_order() {
    let lists = vec![
        (SnakeId(0), vec![Move::Up, Move::Down]),
        (SnakeId(1), vec![Move::Left]),
        (SnakeId(2), vec![Move::Right, Move::Up]),
    ];
    let mut iter = generate_move_combinations(lists);
    assert_eq!(
        iter.next(),
        Some(vec![(SnakeId(0), Move::Up), (SnakeId(1), Move::Left), (SnakeId(2), Move::Right)])
    );
    let rest = iter.collect();
    assert_eq!(
        rest,
        vec![
            vec![(SnakeId(0), Move::Up), (SnakeId(1), Move::Left), (SnakeId(2), Move::Up)],
            vec![(SnakeId(0), Move::Down), (SnakeId(1), Move::Left), (SnakeId(2), Move::Right)],
            vec![(SnakeId(0), Move::Down), (SnakeId(1), Move::Left), (SnakeId(2), Move::Up)],
        ]
    );
}

#[test]
fn exhausted_enumeration_stays_exhausted() {
    let mut iter = MoveCombinationIterator::new(vec![(SnakeId(3), vec![Move::Right])]);
    assert_eq!(iter.next(), Some(vec![(SnakeId(3), Move::Right)]));
    assert_eq!(iter.next(), None);
    assert_eq!(iter.next(), None);
}

#[test]
fn product_holds_every_choice_exactly_once() {
    let a = vec![Move::Up, Move::Down, Move::Left];
    let b = vec![Move::Left, Move::Right];
    let c = vec![Move::Down, Move::Right, Move::Up, Move::Left];
    let lists = vec![(SnakeId(0), a.clone()), (SnakeId(1), b.clone()), (SnakeId(2), c.clone())];
    let all = drain(MoveCombinationIterator::new(lists));
    assert_eq!(all.len(), 24);
    let mut n = 0;
    for x in &a {
        for y in &b {
            for z in &c {
                assert_eq!(all[n], vec![(SnakeId(0), *x), (SnakeId(1), *y), (SnakeId(2), *z)]);
                n += 1;
            }
        }
    }
}
