//! Games between agents: how a game is set up and how it is played.

use vstd::prelude::*;
use crate::agent::Agent;
use crate::board::{has_room_for, live_tags_are_the_slots_with_health, Board, JointMove};
use crate::chance::{random_below, shuffle_cells};
use crate::stats::GameResult;
use crate::types::{Move, SnakeId};
use crate::state::{
    all_on_grid, apart, has_no_stray_triple, holds_cell, is_coiled, on_grid, GameState, Position,
    SnakeState,
};

verus! {

/// The cells where snakes may start: the corners and the middles of the
/// edges of the grid, one cell in from the border.
pub open spec fn standard_positions() -> Seq<Position> {
    seq![
        Position { x: 1, y: 1 },
        Position { x: 1, y: 5 },
        Position { x: 1, y: 9 },
        Position { x: 5, y: 1 },
        Position { x: 5, y: 9 },
        Position { x: 9, y: 1 },
        Position { x: 9, y: 5 },
        Position { x: 9, y: 9 },
    ]
}

/// Every cell of the grid holds food or the start of a snake.
pub open spec fn grid_is_full(state: GameState) -> bool {
    forall|p: Position|
        on_grid(p, state.width as int, state.height as int) ==> state.food@.contains(p) || exists|
            i: int,
        |
            0 <= i < state.snakes@.len() && (#[trigger] state.snakes@[i]).body@[0] == p
}

/// The body of a snake at the start of a game: `length` segments, and one
/// where `length` is 0, all on one cell.
pub open spec fn is_stacked(body: Seq<Position>, length: int) -> bool {
    &&& body.len() == if length < 1 {
        1
    } else {
        length
    }
    &&& forall|i: int| 0 <= i < body.len() ==> #[trigger] body[i] == body[0]
}

/// The start of a game under `config`: as many snakes as configured, but
/// eight at most, each stacked on a standard position of its own with the
/// configured health; as much food as configured, or as the grid has room
/// for, on different cells of the grid away from the snakes; and no hazards.
/// A grid with as many cells as there are snakes and food to be has room
/// for all the food.
pub open spec fn is_start_of(state: GameState, config: GameConfig) -> bool {
    &&& state.width == config.width
    &&& state.height == config.height
    &&& state.hazards@.len() == 0
    &&& state.hazard_damage == 15
    &&& state.snakes@.len() == if config.num_snakes < 8 {
        config.num_snakes
    } else {
        8
    }
    &&& forall|i: int|
        0 <= i < state.snakes@.len() ==> {
            let snake = #[trigger] state.snakes@[i];
            &&& snake.health == config.initial_health
            &&& is_stacked(snake.body@, config.initial_length as int)
            &&& standard_positions().contains(snake.body@[0])
            &&& !state.food@.contains(snake.body@[0])
        }
    &&& forall|i: int, j: int|
        0 <= i < j < state.snakes@.len() ==> (#[trigger] state.snakes@[i]).body@[0] != (
        #[trigger] state.snakes@[j]).body@[0]
    &&& state.food@.no_duplicates()
    &&& all_on_grid(state.food@, state.width as int, state.height as int)
    &&& state.food@.len() <= config.num_food
    &&& state.food@.len() == config.num_food || grid_is_full(state)
    &&& config.num_food + state.snakes@.len() <= state.width * state.height ==> state.food@.len()
        == config.num_food
}

/// The start of a game under a playable configuration is a valid game.
pub proof fn a_playable_start_is_valid(state: GameState, config: GameConfig)
    requires
        is_start_of(state, config),
        config.playable(),
    ensures
        state.valid(),
{
    let w = state.width as int;
    let h = state.height as int;
    assert forall|k: int| 0 <= k < state.snakes@.len() implies {
        let snake = #[trigger] state.snakes@[k];
        &&& has_no_stray_triple(snake.body@)
        &&& is_coiled(snake.body@)
        &&& all_on_grid(snake.body@, w, h)
        &&& apart(state.food@, snake.body@)
    } by {
        let snake = state.snakes@[k];
        let p = snake.body@[0];
        assert(snake.body@ =~= seq![p, p, p]);
        assert(standard_positions().contains(p));
        let at = choose|at: int| 0 <= at < 8 && standard_positions()[at] == p;
        assert(on_grid(p, w, h));
        assert forall|a: int| 0 <= a < state.food@.len() implies !snake.body@.contains(
            #[trigger] state.food@[a],
        ) by {
            let q = state.food@[a];
            assert(state.food@.contains(q));
            if snake.body@.contains(q) {
                let c = choose|c: int| 0 <= c < 3 && snake.body@[c] == q;
                assert(q == p);
            }
        }
    }
    assert forall|a: int, b: int| 0 <= a < b < state.snakes@.len() implies apart(
        (#[trigger] state.snakes@[a]).body@,
        (#[trigger] state.snakes@[b]).body@,
    ) by {
        let first = state.snakes@[a].body@;
        let second = state.snakes@[b].body@;
        assert(first[0] != second[0]);
        assert forall|c: int| 0 <= c < first.len() implies !second.contains(
            #[trigger] first[c],
        ) by {
            if second.contains(first[c]) {
                let d = choose|d: int| 0 <= d < second.len() && second[d] == first[c];
            }
        }
    }
}

/// Configuration for game generation.
#[derive(Clone, Debug)]
pub struct GameConfig {
    pub width: u32,
    pub height: u32,
    pub num_snakes: usize,
    pub initial_health: i32,
    pub initial_length: usize,
    pub num_food: usize,
    pub max_turns: u32,
}

impl Default for GameConfig {
    fn default() -> (config: Self)
        ensures
            config == GameConfig::standard(),
    {
        GameConfig {
            width: 11,
            height: 11,
            num_snakes: 4,
            initial_health: 100,
            initial_length: 3,
            num_food: 5,
            max_turns: 500,
        }
    }
}

impl GameConfig {
    /// The configurations a game can be played under: a grid of eleven by
    /// eleven cells, one to four snakes of length 3, and a health between 1
    /// and 255.
    pub open spec fn playable(&self) -> bool {
        &&& self.width == 11
        &&& self.height == 11
        &&& 1 <= self.num_snakes <= 4
        &&& self.initial_length == 3
        &&& 1 <= self.initial_health <= 255
    }

    /// Whether a game can be played under this configuration.
    pub fn is_playable(&self) -> (yes: bool)
        ensures
            yes == self.playable(),
    {
        self.width == 11 && self.height == 11 && 1 <= self.num_snakes
            && self.num_snakes <= 4 && self.initial_length == 3 && 1 <= self.initial_health
            && self.initial_health <= 255
    }

    /// The standard game: four snakes of health 100 and length 3 on an
    /// 11x11 board with five food, for at most 500 turns.
    pub open spec fn standard() -> GameConfig {
        GameConfig {
            width: 11,
            height: 11,
            num_snakes: 4,
            initial_health: 100,
            initial_length: 3,
            num_food: 5,
            max_turns: 500,
        }
    }

    /// The standard game for four snakes.
    pub fn standard_4_snake() -> (config: Self)
        ensures
            config == GameConfig::standard(),
    {
        GameConfig::default()
    }

    /// The standard game for two snakes with three food.
    pub fn duel() -> (config: Self)
        ensures
            config == (GameConfig { num_snakes: 2, num_food: 3, ..GameConfig::standard() }),
    {
        let mut config = GameConfig::default();
        config.num_snakes = 2;
        config.num_food = 3;
        config
    }

    /// The same game with another limit on its turns.
    pub fn with_max_turns(self, max_turns: u32) -> (config: Self)
        ensures
            config == (GameConfig { max_turns, ..self }),
    {
        let mut config = self;
        config.max_turns = max_turns;
        config
    }
}

/// The standard positions in a random order.
fn shuffled_positions(rng: &mut rand::rngs::ThreadRng) -> (cells: Vec<Position>)
    ensures
        cells@.len() == 8,
        cells@.no_duplicates(),
        forall|i: int| 0 <= i < 8 ==> standard_positions().contains(#[trigger] cells@[i]),
{
    let mut cells: Vec<Position> = vec![
        Position { x: 1, y: 1 },
        Position { x: 1, y: 5 },
        Position { x: 1, y: 9 },
        Position { x: 5, y: 1 },
        Position { x: 5, y: 9 },
        Position { x: 9, y: 1 },
        Position { x: 9, y: 5 },
        Position { x: 9, y: 9 },
    ];
    assert(cells@ =~= standard_positions());
    assert(standard_positions().no_duplicates());
    shuffle_cells(&mut cells, rng);
    proof {
        let before = standard_positions();
        before.lemma_multiset_has_no_duplicates();
        cells@.lemma_multiset_has_no_duplicates_conv();
        vstd::seq_lib::to_multiset_len(before);
        vstd::seq_lib::to_multiset_len(cells@);
        assert forall|i: int| 0 <= i < 8 implies before.contains(#[trigger] cells@[i]) by {
            vstd::seq_lib::to_multiset_contains(cells@, cells@[i]);
            vstd::seq_lib::to_multiset_contains(before, cells@[i]);
        }
    }
    cells
}

/// The cells of the grid that are not among `taken`, row by row. They are
/// at least as many as the grid has cells more than `taken`.
fn free_cells(width: u32, height: u32, taken: &Vec<Position>) -> (free: Vec<Position>)
    requires
        width <= i32::MAX,
        height <= i32::MAX,
    ensures
        free@.no_duplicates(),
        all_on_grid(free@, width as int, height as int),
        apart(free@, taken@),
        forall|p: Position|
            on_grid(p, width as int, height as int) ==> free@.contains(p) || taken@.contains(p),
        free@.len() + taken@.len() >= width * height,
{
    let mut free: Vec<Position> = Vec::new();
    let ghost mut hit: Set<Position> = Set::empty();
    let mut y: u32 = 0;
    while y < height
        invariant
            width <= i32::MAX,
            height <= i32::MAX,
            y <= height,
            all_on_grid(free@, width as int, height as int),
            apart(free@, taken@),
            forall|i: int| 0 <= i < free@.len() ==> (#[trigger] free@[i]).y < y,
            forall|i: int, j: int|
                0 <= i < j < free@.len() ==> (#[trigger] free@[i]).y < (#[trigger] free@[j]).y || (
                free@[i].y == free@[j].y && free@[i].x < free@[j].x),
            forall|p: Position|
                on_grid(p, width as int, height as int) && p.y < y ==> free@.contains(p)
                    || taken@.contains(p),
            hit.finite(),
            hit.subset_of(taken@.to_set()),
            forall|p: Position| hit.contains(p) ==> p.y < y,
            free@.len() + hit.len() == y * width,
        decreases height - y,
    {
        let mut x: u32 = 0;
        while x < width
            invariant
                width <= i32::MAX,
                height <= i32::MAX,
                y < height,
                x <= width,
                all_on_grid(free@, width as int, height as int),
                apart(free@, taken@),
                forall|i: int|
                    0 <= i < free@.len() ==> (#[trigger] free@[i]).y < y || (free@[i].y == y
                        && free@[i].x < x),
                forall|i: int, j: int|
                    0 <= i < j < free@.len() ==> (#[trigger] free@[i]).y < (#[trigger] free@[j]).y
                        || (free@[i].y == free@[j].y && free@[i].x < free@[j].x),
                forall|p: Position|
                    on_grid(p, width as int, height as int) && (p.y < y || (p.y == y && p.x < x))
                        ==> free@.contains(p) || taken@.contains(p),
                hit.finite(),
                hit.subset_of(taken@.to_set()),
                forall|p: Position| hit.contains(p) ==> p.y < y || (p.y == y && p.x < x),
                free@.len() + hit.len() == y * width + x,
            decreases width - x,
        {
            let p = Position { x: x as i32, y: y as i32 };
            let ghost before = free@;
            if !holds_cell(taken, p) {
                free.push(p);
                proof {
                    assert forall|q: Position| before.contains(q) implies free@.contains(q) by {
                        let i = choose|i: int| 0 <= i < before.len() && before[i] == q;
                        assert(free@[i] == q);
                    }
                    assert(free@[before.len() as int] == p);
                }
            } else {
                proof {
                    assert(!hit.contains(p));
                    hit = hit.insert(p);
                }
            }
            x = x + 1;
        }
        proof {
            assert(y * width + width == (y + 1) * width) by (nonlinear_arith);
        }
        y = y + 1;
    }
    proof {
        taken@.lemma_cardinality_of_set();
        vstd::set_lib::lemma_len_subset(hit, taken@.to_set());
        assert(y * width == width * height) by (nonlinear_arith)
            requires
                y == height,
        ;
    }
    free
}

/// Generates a random starting position for a game. At most eight snakes
/// are set up, for there are eight standard positions; where the grid has
/// no room for all the food, every free cell gets food.
pub fn generate_random_game(config: &GameConfig) -> (state: GameState)
    requires
        config.num_snakes >= 1,
        config.width <= i32::MAX,
        config.height <= i32::MAX,
    ensures
        is_start_of(state, *config),
        config.playable() ==> state.valid(),
{
    let mut rng = rand::thread_rng();
    let positions = shuffled_positions(&mut rng);
    let count: usize = if config.num_snakes < 8 {
        config.num_snakes
    } else {
        8
    };

    let mut snakes: Vec<SnakeState> = Vec::new();
    let mut heads: Vec<Position> = Vec::new();
    let mut i: usize = 0;
    while i < count
        invariant
            positions@.len() == 8,
            i <= count <= 8,
            snakes@.len() == i,
            heads@ == positions@.take(i as int),
            forall|k: int|
                0 <= k < i ==> {
                    let snake = #[trigger] snakes@[k];
                    &&& snake.health == config.initial_health
                    &&& is_stacked(snake.body@, config.initial_length as int)
                    &&& snake.body@[0] == positions@[k]
                },
        decreases count - i,
    {
        let p = positions[i];
        let mut body: Vec<Position> = vec![p];
        while body.len() < config.initial_length
            invariant
                1 <= body@.len(),
                body@.len() <= config.initial_length || body@.len() == 1,
                forall|k: int| 0 <= k < body@.len() ==> #[trigger] body@[k] == p,
            decreases config.initial_length - body@.len(),
        {
            body.push(p);
        }
        snakes.push(SnakeState { health: config.initial_health, body });
        heads.push(p);
        assert(heads@ =~= positions@.take(i + 1));
        i = i + 1;
    }

    let mut free = free_cells(config.width, config.height, &heads);
    let mut food: Vec<Position> = Vec::new();
    let ghost open = free@;
    while food.len() < config.num_food && free.len() > 0
        invariant
            food@.len() <= config.num_food,
            food@.len() + free@.len() == open.len(),
            free@.no_duplicates(),
            food@.no_duplicates(),
            apart(food@, free@),
            forall|p: Position| open.contains(p) <==> free@.contains(p) || food@.contains(p),
        decreases free@.len(),
    {
        let at: usize = random_below(&mut rng, free.len());
        let ghost before = free@;
        let ghost eaten = food@;
        let p = free.remove(at);
        food.push(p);
        proof {
            assert(free@ == before.remove(at as int));
            assert forall|q: Position| free@.contains(q) implies before.contains(q) && q != p by {
                let k = choose|k: int| 0 <= k < free@.len() && free@[k] == q;
                if k < at {
                    assert(before[k] == q);
                } else {
                    assert(before[k + 1] == q);
                }
            }
            assert forall|q: Position| before.contains(q) && q != p implies free@.contains(q) by {
                let k = choose|k: int| 0 <= k < before.len() && before[k] == q;
                if k < at {
                    assert(free@[k] == q);
                } else {
                    assert(free@[k - 1] == q);
                }
            }
            assert(before.contains(p)) by {
                assert(before[at as int] == p);
            }
            assert forall|q: Position| eaten.contains(q) implies food@.contains(q) by {
                let k = choose|k: int| 0 <= k < eaten.len() && eaten[k] == q;
                assert(food@[k] == q);
            }
            assert(food@[eaten.len() as int] == p);
            assert forall|q: Position| food@.contains(q) implies eaten.contains(q) || q == p by {
                let k = choose|k: int| 0 <= k < food@.len() && food@[k] == q;
                if k < eaten.len() {
                    assert(eaten[k] == q);
                }
            }
            assert(!eaten.contains(p)) by {
                if eaten.contains(p) {
                    let k = choose|k: int| 0 <= k < eaten.len() && eaten[k] == p;
                    assert(!before.contains(eaten[k]));
                }
            }
            assert(food@.no_duplicates()) by {
                assert forall|a: int, b: int|
                    0 <= a < food@.len() && 0 <= b < food@.len() && a != b implies food@[a]
                    != food@[b] by {
                    if a < eaten.len() && b < eaten.len() {
                        assert(eaten[a] != eaten[b]);
                    } else if a < eaten.len() {
                        assert(eaten.contains(eaten[a]));
                    } else {
                        assert(eaten.contains(eaten[b]));
                    }
                }
            }
            assert(apart(food@, free@)) by {
                assert forall|a: int| 0 <= a < food@.len() implies !free@.contains(
                    #[trigger] food@[a],
                ) by {
                    if a < eaten.len() {
                        assert(!before.contains(eaten[a]));
                    }
                }
            }
        }
    }

    let state = GameState {
        width: config.width,
        height: config.height,
        snakes,
        food,
        hazards: Vec::new(),
        hazard_damage: 15,
    };
    proof {
        let w = config.width as int;
        let h = config.height as int;
        assert forall|k: int| 0 <= k < state.snakes@.len() implies {
            let snake = #[trigger] state.snakes@[k];
            &&& standard_positions().contains(snake.body@[0])
            &&& !state.food@.contains(snake.body@[0])
            &&& heads@[k] == snake.body@[0]
        } by {
            let p = positions@[k];
            assert(heads@[k] == p);
            assert(heads@.contains(p));
            if state.food@.contains(p) {
                assert(open.contains(p));
            }
        }
        assert forall|a: int, b: int| 0 <= a < b < state.snakes@.len() implies (
        #[trigger] state.snakes@[a]).body@[0] != (#[trigger] state.snakes@[b]).body@[0] by {
            assert(positions@[a] != positions@[b]);
        }
        assert forall|a: int| 0 <= a < state.food@.len() implies on_grid(
            #[trigger] state.food@[a],
            w,
            h,
        ) by {
            assert(state.food@.contains(state.food@[a]));
            assert(open.contains(state.food@[a]));
        }
        if state.food@.len() != config.num_food {
            assert(free@.len() == 0);
            assert forall|p: Position| on_grid(p, w, h) implies state.food@.contains(p) || exists|
                k: int,
            |
                0 <= k < state.snakes@.len() && (#[trigger] state.snakes@[k]).body@[0] == p by {
                if !state.food@.contains(p) {
                    assert(!free@.contains(p));
                    assert(!open.contains(p));
                    assert(heads@.contains(p));
                    let k = choose|k: int| 0 <= k < heads@.len() && heads@[k] == p;
                    assert(state.snakes@[k].body@[0] == p);
                }
            }
        }
        assert(is_start_of(state, *config));
        if config.playable() {
            a_playable_start_is_valid(state, *config);
        }
    }
    state
}

/// In the joint move every live snake of the board moves as the game is
/// run: its tag is the place of one of the first `snakes` agents, and it
/// takes a move that this agent may choose for it.
pub open spec fn chosen_by(
    agents: Seq<&dyn Agent>,
    snakes: int,
    board: Board,
    joint: Seq<(SnakeId, Move)>,
) -> bool {
    &&& board.covered_by(joint)
    &&& forall|i: int|
        0 <= i < joint.len() ==> (#[trigger] joint[i]).0.0 < snakes && agents[joint[i].0.0 as int].may_choose(
            board,
            joint[i].0,
            joint[i].1,
        )
}

/// `next` follows `board` by a turn in which the snakes move as the agents
/// choose.
pub open spec fn moves_to(agents: Seq<&dyn Agent>, snakes: int, board: Board, next: Board) -> bool {
    exists|joint: Seq<(SnakeId, Move)>| #[trigger]
        chosen_by(agents, snakes, board, joint) && board.successor(joint) == Some(next)
}

/// `end` is reached from `start` in `turns` turns of the agents, each played
/// on a board where the game is not over.
pub open spec fn played(
    agents: Seq<&dyn Agent>,
    snakes: int,
    start: Board,
    end: Board,
    turns: nat,
) -> bool
    decreases turns,
{
    if turns == 0 {
        start == end
    } else {
        exists|mid: Board|
            #![trigger moves_to(agents, snakes, mid, end)]
            played(agents, snakes, start, mid, (turns - 1) as nat) && !mid.over() && moves_to(
                agents,
                snakes,
                mid,
                end,
            )
    }
}

/// No turn can be played on the board: no snake is alive, or the simulator
/// yields no board for the moves that the agents chose.
pub open spec fn is_stuck(agents: Seq<&dyn Agent>, snakes: int, board: Board) -> bool {
    board.reasonable_moves().len() == 0 || exists|joint: Seq<(SnakeId, Move)>| #[trigger]
        chosen_by(agents, snakes, board, joint) && board.successor(joint) is None
}

/// `result` records a game of the agents under `config` that began with
/// `start` and ended on `end`: the turns lead from the board of `start` to
/// `end`, the game stopped because it was over, its turns were used up or no
/// turn could be played, and the winner is the one that `end` names.
pub open spec fn records(
    result: GameResult,
    agents: Seq<&dyn Agent>,
    config: GameConfig,
    start: GameState,
    end: Board,
) -> bool {
    &&& is_start_of(start, config)
    &&& crate::state::packed(start) is Some
    &&& played(
        agents,
        config.num_snakes as int,
        crate::state::packed(start)->0,
        end,
        result.turns as nat,
    )
    &&& end.over() || result.turns == config.max_turns || is_stuck(
        agents,
        config.num_snakes as int,
        end,
    )
    &&& result.turns <= config.max_turns
    &&& result.num_snakes == config.num_snakes
    &&& result.winner == match end.winner() {
        Some(w) => Some(w.0 as usize),
        None => None,
    }
}

/// The record of a game that ended with `winner` after `turns` turns.
pub fn game_result(winner: Option<SnakeId>, turns: u32, num_snakes: usize) -> (result: GameResult)
    ensures
        result.winner == match winner {
            Some(w) => Some(w.0 as usize),
            None => None,
        },
        result.turns == turns,
        result.num_snakes == num_snakes,
{
    let winner = match winner {
        Some(w) => Some(w.as_usize()),
        None => None,
    };
    GameResult { winner, turns, num_snakes }
}

/// Runs a single game with the given agents: the agent at place `i` plays
/// the snake with tag `i`, and is asked once in every turn in which the
/// snake is alive. The game starts from a random position and goes on,
/// every live snake moving as its agent chooses, until the simulator counts
/// it as finished or yields no next board, or the configured number of
/// turns is played. The winner, if there is one, is one of the snakes that
/// played.
pub fn run_game(agents: &[&dyn Agent], config: &GameConfig) -> (result: GameResult)
    requires
        agents@.len() >= config.num_snakes,
        config.playable(),
    ensures
        result.num_snakes == config.num_snakes,
        result.turns <= config.max_turns,
        result.winner matches Some(w) ==> w < config.num_snakes,
        exists|start: GameState, end: Board| #[trigger]
            records(result, agents@, *config, start, end),
{
    let game = generate_random_game(config);
    let first: Board = game.to_board();
    let mut board: Board = first;
    let mut turn: u32 = 0;
    while !board.is_over() && turn < config.max_turns
        invariant
            agents@.len() >= config.num_snakes,
            turn <= config.max_turns,
            has_room_for(board, config.num_snakes as int),
            played(agents@, config.num_snakes as int, first, board, turn as nat),
        ensures
            turn <= config.max_turns,
            has_room_for(board, config.num_snakes as int),
            played(agents@, config.num_snakes as int, first, board, turn as nat),
            board.over() || turn == config.max_turns || is_stuck(
                agents@,
                config.num_snakes as int,
                board,
            ),
        decreases config.max_turns - turn,
    {
        let lists = board.reasonable_moves_for_each_snake();
        if lists.len() == 0 {
            assert(board.reasonable_moves().len() == crate::board::move_lists_view(lists@).len());
            break ;
        }
        proof {
            live_tags_are_the_slots_with_health(board, 4);
            assert forall|k: int| 0 <= k < lists@.len() implies (#[trigger] lists@[k]).0.0
                < config.num_snakes by {
                assert(lists@[k].0 == board.snake_ids()[k]);
            }
        }
        let mut moves: JointMove = Vec::new();
        let mut i: usize = 0;
        while i < lists.len()
            invariant
                agents@.len() >= config.num_snakes,
                i <= lists@.len(),
                moves@.len() == i,
                forall|k: int|
                    0 <= k < lists@.len() ==> (#[trigger] lists@[k]).0.0 < config.num_snakes
                        && lists@[k].0.0 < 4,
                forall|k: int|
                    0 <= k < i ==> (#[trigger] moves@[k]).0 == lists@[k].0
                        && agents@[lists@[k].0.0 as int].may_choose(
                        board,
                        lists@[k].0,
                        moves@[k].1,
                    ),
            decreases lists@.len() - i,
        {
            let snake_id = lists[i].0;
            let chosen = agents[snake_id.as_usize()].choose_move(&board, snake_id);
            moves.push((snake_id, chosen));
            i = i + 1;
        }
        proof {
            let typed = board.reasonable_moves();
            assert forall|k: int| 0 <= k < moves@.len() implies (#[trigger] moves@[k]).0
                == typed[k].0 by {
                assert(crate::board::move_lists_view(lists@)[k] == typed[k]);
            }
            assert(chosen_by(agents@, config.num_snakes as int, board, moves@));
        }
        match board.simulate_with_moves(&moves) {
            Some((_, next)) => {
                proof {
                    let snakes = config.num_snakes as int;
                    assert(chosen_by(agents@, snakes, board, moves@) && board.successor(moves@)
                        == Some(next));
                    let turns = (turn + 1) as nat;
                    assert(played(agents@, snakes, first, board, (turns - 1) as nat)
                        && !board.over() && moves_to(agents@, snakes, board, next));
                    assert(played(agents@, snakes, first, next, turns));
                }
                board = next;
            },
            None => {
                assert(chosen_by(agents@, config.num_snakes as int, board, moves@)
                    && board.successor(moves@) is None);
                break ;
            },
        }
        turn = turn + 1;
    }
    proof {
        live_tags_are_the_slots_with_health(board, 4);
    }
    let result = game_result(board.get_winner(), turn, config.num_snakes);
    assert(records(result, agents@, *config, game, board));
    result
}

/// Runs `num_games` games one after another and collects their results.
pub fn run_tournament(agents: &[&dyn Agent], config: &GameConfig, num_games: usize) -> (results:
    Vec<GameResult>)
    requires
        agents@.len() >= config.num_snakes,
        config.playable(),
    ensures
        results@.len() == num_games,
        forall|i: int|
            0 <= i < results@.len() ==> {
                let result = #[trigger] results@[i];
                &&& result.num_snakes == config.num_snakes
                &&& result.turns <= config.max_turns
                &&& result.winner matches Some(w) ==> w < config.num_snakes
                &&& exists|start: GameState, end: Board| #[trigger]
                    records(result, agents@, *config, start, end)
            },
{
    let mut results: Vec<GameResult> = Vec::new();
    let mut i: usize = 0;
    while i < num_games
        invariant
            agents@.len() >= config.num_snakes,
            config.playable(),
            i <= num_games,
            results@.len() == i,
            forall|k: int|
                0 <= k < results@.len() ==> {
                    let result = #[trigger] results@[k];
                    &&& result.num_snakes == config.num_snakes
                    &&& result.turns <= config.max_turns
                    &&& result.winner matches Some(w) ==> w < config.num_snakes
                    &&& exists|start: GameState, end: Board| #[trigger]
                        records(result, agents@, *config, start, end)
                },
        decreases num_games - i,
    {
        results.push(run_game(agents, config));
        i = i + 1;
    }
    results
}

} // verus!
