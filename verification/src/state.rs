//! A game in plain values, and the way from there to a board.

use vstd::prelude::*;
use crate::board::{food_of, has_room_for, head_of, health_of, length_of, Board};
use battlesnake_game_types::types::build_snake_id_map;
use battlesnake_game_types::wire_representation as wire;
use battlesnake_game_types::wire_representation::{BattleSnake, Game, NestedGame, Ruleset, Settings};

verus! {

/// A cell of the grid: column `x` and row `y`, both counted from 0.
#[derive(Clone, Copy, PartialEq, Eq, Structural, Debug, Hash)]
pub struct Position {
    pub x: i32,
    pub y: i32,
}

/// One snake: its health and the cells of its body from head to tail.
#[derive(Clone, Debug, PartialEq, Eq)]
pub struct SnakeState {
    pub health: i32,
    pub body: Vec<Position>,
}

/// A game at one turn. The snake at place `i` carries the tag `i`; the snake
/// at place 0 is the one the engine plays for.
#[derive(Clone, Debug, PartialEq, Eq)]
pub struct GameState {
    pub width: u32,
    pub height: u32,
    pub snakes: Vec<SnakeState>,
    pub food: Vec<Position>,
    pub hazards: Vec<Position>,
    /// Health a snake loses for a turn that ends on a hazard.
    pub hazard_damage: i32,
}

/// The cell lies on a grid of the given size.
pub open spec fn on_grid(p: Position, width: int, height: int) -> bool {
    0 <= p.x < width && 0 <= p.y < height
}

/// All cells lie on the grid.
pub open spec fn all_on_grid(cells: Seq<Position>, width: int, height: int) -> bool {
    forall|i: int| 0 <= i < cells.len() ==> on_grid(#[trigger] cells[i], width, height)
}

/// The body of a snake at the start of a game: three segments on one cell.
pub open spec fn is_coiled(body: Seq<Position>) -> bool {
    body.len() == 3 && body[0] == body[1] && body[1] == body[2]
}

/// A body whose cells differ from one another, but that the last two may be
/// the same cell when the body has three segments or more.
pub open spec fn is_stretched(body: Seq<Position>) -> bool {
    &&& body.len() >= 2
    &&& forall|i: int, j: int|
        0 <= i < j < body.len() && #[trigger] body[i] == #[trigger] body[j] ==> i >= 1 && i
            == body.len() - 2
}

/// A body the simulator can work with.
pub open spec fn is_sound_body(body: Seq<Position>) -> bool {
    is_coiled(body) || is_stretched(body)
}

/// How often the cell is among the cells.
pub open spec fn times(cells: Seq<Position>, p: Position) -> nat
    decreases cells.len(),
{
    if cells.len() == 0 {
        0
    } else {
        times(cells.drop_last(), p) + if cells.last() == p {
            1nat
        } else {
            0nat
        }
    }
}

/// No cell holds exactly three segments of the body, unless it is the only
/// cell of the body. The simulator takes no snake, dead or alive, whose body
/// is otherwise.
pub open spec fn has_no_stray_triple(body: Seq<Position>) -> bool {
    forall|i: int, j: int|
        0 <= i < body.len() && 0 <= j < body.len() && times(body, #[trigger] body[i]) == 3
            ==> #[trigger] body[j] == body[i]
}

/// No cell of `a` is a cell of `b`.
pub open spec fn apart(a: Seq<Position>, b: Seq<Position>) -> bool {
    forall|i: int| 0 <= i < a.len() ==> !b.contains(#[trigger] a[i])
}

impl SnakeState {
    /// The snake has health left.
    pub open spec fn alive(&self) -> bool {
        self.health != 0
    }
}

impl GameState {
    /// The games that can be turned into a board: a grid of eleven by eleven
    /// cells, a hazard damage that fits a byte, one to four snakes with a
    /// body without a stray triple and a health that fits a byte, and live
    /// snakes with sound bodies on the grid that share no cell with one
    /// another or with food.
    pub open spec fn valid(&self) -> bool {
        &&& self.width == 11
        &&& self.height == 11
        &&& 1 <= self.snakes@.len() <= 4
        &&& 0 <= self.hazard_damage <= 255
        &&& forall|i: int|
            0 <= i < self.snakes@.len() ==> {
                let snake = #[trigger] self.snakes@[i];
                &&& snake.body@.len() >= 1
                &&& has_no_stray_triple(snake.body@)
                &&& 0 <= snake.health <= 255
                &&& snake.alive() ==> is_sound_body(snake.body@) && all_on_grid(
                    snake.body@,
                    self.width as int,
                    self.height as int,
                ) && apart(self.food@, snake.body@)
            }
        &&& forall|i: int, j: int|
            0 <= i < j < self.snakes@.len() && (#[trigger] self.snakes@[i]).alive() && (
            #[trigger] self.snakes@[j]).alive() ==> apart(
                self.snakes@[i].body@,
                self.snakes@[j].body@,
            )
    }
}

/// A snake as `battlesnake_game_types` reads it from the wire.
#[verifier::external_type_specification]
#[verifier::external_body]
pub struct ExBattleSnake(BattleSnake);

/// The wire form of a snake with the given identifier, name, head, body
/// and health.
pub uninterp spec fn wire_snake_of(
    id: Seq<char>,
    name: Seq<char>,
    head: Position,
    body: Seq<Position>,
    health: i32,
) -> BattleSnake;

/// A game as `battlesnake_game_types` reads it from the wire.
#[verifier::external_type_specification]
#[verifier::external_body]
pub struct ExWireGame(Game);

/// The rules of a game as `battlesnake_game_types` reads them from the wire.
#[verifier::external_type_specification]
#[verifier::external_body]
pub struct ExRuleset(Ruleset);

/// The wire form of rules with the given name, version, hazard damage,
/// chance of new food and least number of food.
pub uninterp spec fn wire_rules_of(
    name: Seq<char>,
    version: Seq<char>,
    hazard_damage: i32,
    food_chance: i32,
    least_food: i32,
) -> Ruleset;

/// The wire form of a game: the grid, food and hazards of `state` with the
/// given snakes, of which the one at place `you` is the engine's own, at
/// the given turn, under the given rules and time limit.
pub uninterp spec fn wire_game_of(
    state: GameState,
    snakes: Seq<BattleSnake>,
    you: int,
    turn: i32,
    ruleset: Ruleset,
    timeout: i64,
) -> Game;

/// The board that `battlesnake_game_types` packs from a game on the wire.
pub uninterp spec fn packed_from(game: Game) -> Option<Board>;

/// The name of the rules that boards are packed under.
pub open spec fn standard_rules() -> Seq<char> {
    "standard"@
}

/// The identifier of the snake at a place; there are eight places at most.
pub open spec fn snake_tag(place: int) -> Seq<char> {
    if place == 0 {
        "snake_0"@
    } else if place == 1 {
        "snake_1"@
    } else if place == 2 {
        "snake_2"@
    } else if place == 3 {
        "snake_3"@
    } else if place == 4 {
        "snake_4"@
    } else if place == 5 {
        "snake_5"@
    } else if place == 6 {
        "snake_6"@
    } else {
        "snake_7"@
    }
}

/// The name of the snake at a place.
pub open spec fn snake_title(place: int) -> Seq<char> {
    if place == 0 {
        "Snake 0"@
    } else if place == 1 {
        "Snake 1"@
    } else if place == 2 {
        "Snake 2"@
    } else if place == 3 {
        "Snake 3"@
    } else if place == 4 {
        "Snake 4"@
    } else if place == 5 {
        "Snake 5"@
    } else if place == 6 {
        "Snake 6"@
    } else {
        "Snake 7"@
    }
}

/// The snakes at the eight places have different identifiers, so that each
/// snake of a game gets a tag of its own: the snake at place 0, the
/// engine's own, the tag 0, and the others the tags from 1 on in their
/// order.
pub proof fn snake_tags_differ(i: int, j: int)
    requires
        0 <= i < j < 8,
    ensures
        snake_tag(i) != snake_tag(j),
{
    reveal_strlit("snake_0");
    reveal_strlit("snake_1");
    reveal_strlit("snake_2");
    reveal_strlit("snake_3");
    reveal_strlit("snake_4");
    reveal_strlit("snake_5");
    reveal_strlit("snake_6");
    reveal_strlit("snake_7");
    assert(snake_tag(i)[6] != snake_tag(j)[6]);
}

/// The identifier and the name of the snake at a place.
pub fn snake_names(place: usize) -> (names: (&'static str, &'static str))
    requires
        place < 8,
    ensures
        names.0@ == snake_tag(place as int),
        names.1@ == snake_title(place as int),
{
    if place == 0 {
        ("snake_0", "Snake 0")
    } else if place == 1 {
        ("snake_1", "Snake 1")
    } else if place == 2 {
        ("snake_2", "Snake 2")
    } else if place == 3 {
        ("snake_3", "Snake 3")
    } else if place == 4 {
        ("snake_4", "Snake 4")
    } else if place == 5 {
        ("snake_5", "Snake 5")
    } else if place == 6 {
        ("snake_6", "Snake 6")
    } else {
        ("snake_7", "Snake 7")
    }
}

/// The wire forms of the snakes of a game: the snake at place `i` is
/// called by its place, and the first cell of its body is its head.
pub open spec fn wire_snakes(state: GameState) -> Seq<BattleSnake> {
    Seq::new(
        state.snakes@.len(),
        |i: int|
            wire_snake_of(
                snake_tag(i),
                snake_title(i),
                state.snakes@[i].body@[0],
                state.snakes@[i].body@,
                state.snakes@[i].health,
            ),
    )
}

/// The wire form of a game: at turn 0, with the first snake as the engine's
/// own, under the standard rules without new food, with half a second for a
/// move.
pub open spec fn wire_form(state: GameState) -> Game {
    wire_game_of(
        state,
        wire_snakes(state),
        0,
        0,
        wire_rules_of(standard_rules(), Seq::empty(), state.hazard_damage, 0, 0),
        500,
    )
}

/// The board that `battlesnake_game_types` packs from a game.
pub open spec fn packed(state: GameState) -> Option<Board> {
    packed_from(wire_form(state))
}

/// The board shows the snakes and the food of the game: the slot `s` holds
/// the health of the snake at place `s`, and for a live snake its length
/// and its head; slots without a snake, and those of dead snakes, are
/// empty. Food lies on the cells of the grid that the game lists as food.
pub open spec fn shows(board: Board, state: GameState) -> bool {
    &&& forall|s: u8|
        s < 4 ==> {
            if s < state.snakes@.len() && state.snakes@[s as int].alive() {
                let snake = state.snakes@[s as int];
                &&& #[trigger] health_of(board, s) == snake.health
                &&& snake.body@.len() <= u16::MAX ==> length_of(board, s) == snake.body@.len()
                &&& head_of(board, s) == (snake.body@[0].x, snake.body@[0].y)
            } else {
                &&& #[trigger] health_of(board, s) == 0
                &&& length_of(board, s) == 0
                &&& head_of(board, s) == (0i32, 0i32)
            }
        }
    &&& food_of(board).no_duplicates()
    &&& forall|x: i32, y: i32|
        #![trigger food_of(board).contains((x, y))]
        food_of(board).contains((x, y)) <==> on_grid(
            Position { x, y },
            state.width as int,
            state.height as int,
        ) && state.food@.contains(Position { x, y })
}

/// A `BattleSnake` of `battlesnake_game_types` with the given fields; it
/// says nothing and gives no length of its own.
#[verifier::external_body]
fn wire_snake(id: &str, name: &str, head: Position, body: &Vec<Position>, health: i32) -> (wire:
    BattleSnake)
    ensures
        wire == wire_snake_of(id@, name@, head, body@, health),
{
    BattleSnake {
        id: id.to_string(),
        name: name.to_string(),
        head: wire::Position::new(head.x, head.y),
        body: body.iter().map(|p| wire::Position::new(p.x, p.y)).collect(),
        health,
        shout: None,
        actual_length: None,
    }
}

/// A `Ruleset` of `battlesnake_game_types` whose settings hold the given
/// hazard damage, chance of new food and least number of food, and no
/// hazard map.
#[verifier::external_body]
fn wire_rules(
    name: &str,
    version: &str,
    hazard_damage: i32,
    food_chance: i32,
    least_food: i32,
) -> (ruleset: Ruleset)
    ensures
        ruleset == wire_rules_of(name@, version@, hazard_damage, food_chance, least_food),
{
    let settings = Settings {
        food_spawn_chance: food_chance,
        minimum_food: least_food,
        hazard_damage_per_turn: hazard_damage,
        hazard_map: None,
        hazard_map_author: None,
        royale: None,
    };
    Ruleset { name: name.to_string(), version: version.to_string(), settings: Some(settings) }
}

/// A `Game` of `battlesnake_game_types` with the grid, the food and the
/// hazards of `state` and the given snakes, turn, rules and time limit; the
/// snake at place `you` is the engine's own. The game has no identifier,
/// map or source.
#[verifier::external_body]
fn wire_game(
    state: &GameState,
    snakes: Vec<BattleSnake>,
    you: usize,
    turn: i32,
    ruleset: Ruleset,
    timeout: i64,
) -> (game: Game)
    requires
        you < snakes@.len(),
    ensures
        game == wire_game_of(*state, snakes@, you as int, turn, ruleset, timeout),
{
    let cell = |p: &Position| wire::Position::new(p.x, p.y);
    let game = NestedGame { id: String::new(), ruleset, timeout, map: None, source: None };
    let board = wire::Board {
        height: state.height,
        width: state.width,
        food: state.food.iter().map(cell).collect(),
        hazards: state.hazards.iter().map(cell).collect(),
        snakes: snakes.clone(),
    };
    Game { you: snakes[you].clone(), board, turn, game }
}

/// `Game::as_cell_board` of `battlesnake_game_types`, with the map that
/// `build_snake_id_map` gives. The source refuses a game only for its size,
/// its number of snakes, a body of any snake with three segments on one
/// cell among others, or rules named "wrapped"; the wire form of a valid
/// game has none of these. The map gives the engine's own snake the tag 0
/// and the others the tags from 1 on in their order, so that in the wire
/// form of a game, where the first snake is the engine's own and no two
/// have the same identifier, each snake's tag is its place. The source
/// writes into the slot of a tag the health of the snake and, for a live
/// snake, the length of its body and the cell of its head; it marks as food
/// the cells of the grid that the game lists as food.
#[verifier::external_body]
fn pack(game: &Game) -> (board: Option<Board>)
    requires
        exists|state: GameState| #[trigger] state.valid() && *game == wire_form(state),
    ensures
        board == packed_from(*game),
        board is Some,
        forall|state: GameState|
            #[trigger] state.valid() && *game == wire_form(state) ==> shows(board->0, state),
{
    game.as_cell_board(&build_snake_id_map(game)).ok().map(|inner| Board { inner })
}

impl GameState {
    /// Whether the game can be turned into a board.
    pub fn is_valid(&self) -> (yes: bool)
        ensures
            yes == self.valid(),
    {
        if !(self.width == 11 && self.height == 11) {
            return false;
        }
        let n: usize = self.snakes.len();
        if !(1 <= n && n <= 4) {
            return false;
        }
        if self.hazard_damage < 0 || self.hazard_damage > 255 {
            return false;
        }
        let mut i: usize = 0;
        while i < n
            invariant
                n == self.snakes@.len(),
                self.width == 11,
                self.height == 11,
                0 <= self.hazard_damage <= 255,
                i <= n,
                forall|k: int|
                    0 <= k < i ==> {
                        let snake = #[trigger] self.snakes@[k];
                        &&& snake.body@.len() >= 1
                        &&& has_no_stray_triple(snake.body@)
                        &&& 0 <= snake.health <= 255
                        &&& snake.alive() ==> is_sound_body(snake.body@) && all_on_grid(
                            snake.body@,
                            self.width as int,
                            self.height as int,
                        ) && apart(self.food@, snake.body@)
                    },
                forall|k: int, j: int|
                    0 <= k < j < n && k < i && (#[trigger] self.snakes@[k]).alive() && (
                    #[trigger] self.snakes@[j]).alive() ==> apart(
                        self.snakes@[k].body@,
                        self.snakes@[j].body@,
                    ),
            decreases n - i,
        {
            let snake = &self.snakes[i];
            if snake.body.len() < 1 || snake.health < 0 || snake.health > 255 {
                return false;
            }
            if !body_has_no_stray_triple(&snake.body) {
                return false;
            }
            if snake.health != 0 {
                if !body_is_sound(&snake.body) || !cells_on_grid(
                    &snake.body,
                    self.width,
                    self.height,
                ) || !cells_apart(&self.food, &snake.body) {
                    return false;
                }
                let mut j: usize = i + 1;
                while j < n
                    invariant
                        n == self.snakes@.len(),
                        i < j <= n,
                        *snake == self.snakes@[i as int],
                        self.snakes@[i as int].alive(),
                        forall|m: int|
                            i < m < j && (#[trigger] self.snakes@[m]).alive() ==> apart(
                                self.snakes@[i as int].body@,
                                self.snakes@[m].body@,
                            ),
                    decreases n - j,
                {
                    if self.snakes[j].health != 0 && !cells_apart(
                        &snake.body,
                        &self.snakes[j].body,
                    ) {
                        return false;
                    }
                    j = j + 1;
                }
            }
            i = i + 1;
        }
        true
    }

    /// The board of a valid game. It shows the snakes and the food of the
    /// game, the snake at place `i` under the tag `i`.
    pub fn to_board(&self) -> (board: Board)
        requires
            self.valid(),
        ensures
            packed(*self) == Some(board),
            shows(board, *self),
            has_room_for(board, self.snakes@.len() as int),
    {
        let mut snakes: Vec<BattleSnake> = Vec::new();
        let mut i: usize = 0;
        while i < self.snakes.len()
            invariant
                self.valid(),
                i <= self.snakes@.len(),
                snakes@.len() == i,
                forall|k: int| 0 <= k < i ==> #[trigger] snakes@[k] == wire_snakes(*self)[k],
            decreases self.snakes@.len() - i,
        {
            let snake = &self.snakes[i];
            let (id, name) = snake_names(i);
            snakes.push(wire_snake(id, name, snake.body[0], &snake.body, snake.health));
            i = i + 1;
        }
        assert(snakes@ =~= wire_snakes(*self));
        let ruleset = wire_rules("standard", "", self.hazard_damage, 0, 0);
        proof {
            reveal_strlit("");
            assert(""@ =~= Seq::<char>::empty());
        }
        let game = wire_game(self, snakes, 0, 0, ruleset, 500);
        let board = pack(&game).unwrap();
        assert forall|s: u8| self.snakes@.len() <= s < 4 implies health_of(board, s) == 0 by {}
        board
    }
}

/// Whether `p` is among the cells.
pub fn holds_cell(cells: &Vec<Position>, p: Position) -> (found: bool)
    ensures
        found == cells@.contains(p),
{
    let mut i: usize = 0;
    while i < cells.len()
        invariant
            i <= cells@.len(),
            forall|j: int| 0 <= j < i ==> cells@[j] != p,
        decreases cells@.len() - i,
    {
        if cells[i].x == p.x && cells[i].y == p.y {
            return true;
        }
        i = i + 1;
    }
    false
}

/// Whether no cell of `a` is a cell of `b`.
pub fn cells_apart(a: &Vec<Position>, b: &Vec<Position>) -> (yes: bool)
    ensures
        yes == apart(a@, b@),
{
    let mut i: usize = 0;
    while i < a.len()
        invariant
            i <= a@.len(),
            forall|j: int| 0 <= j < i ==> !b@.contains(#[trigger] a@[j]),
        decreases a@.len() - i,
    {
        if holds_cell(b, a[i]) {
            return false;
        }
        i = i + 1;
    }
    true
}

/// Whether all cells lie on a grid of the given size.
pub fn cells_on_grid(cells: &Vec<Position>, width: u32, height: u32) -> (yes: bool)
    requires
        width <= 11,
        height <= 11,
    ensures
        yes == all_on_grid(cells@, width as int, height as int),
{
    let mut i: usize = 0;
    while i < cells.len()
        invariant
            i <= cells@.len(),
            width <= 11,
            height <= 11,
            forall|j: int| 0 <= j < i ==> on_grid(#[trigger] cells@[j], width as int, height as int),
        decreases cells@.len() - i,
    {
        let p = cells[i];
        if !(0 <= p.x && p.x < width as i32 && 0 <= p.y && p.y < height as i32) {
            return false;
        }
        i = i + 1;
    }
    true
}

/// How often the cell is among the cells.
pub fn count_cell(cells: &Vec<Position>, p: Position) -> (n: usize)
    ensures
        n == times(cells@, p),
{
    let mut n: usize = 0;
    let mut i: usize = 0;
    while i < cells.len()
        invariant
            i <= cells@.len(),
            n == times(cells@.take(i as int), p),
            n <= i,
        decreases cells@.len() - i,
    {
        proof {
            assert(cells@.take(i + 1).drop_last() =~= cells@.take(i as int));
        }
        if cells[i].x == p.x && cells[i].y == p.y {
            n = n + 1;
        }
        i = i + 1;
    }
    assert(cells@.take(i as int) =~= cells@);
    n
}

/// Whether no cell holds exactly three segments of the body, unless it is
/// the only cell of the body.
pub fn body_has_no_stray_triple(body: &Vec<Position>) -> (yes: bool)
    ensures
        yes == has_no_stray_triple(body@),
{
    let mut i: usize = 0;
    while i < body.len()
        invariant
            i <= body@.len(),
            forall|a: int, b: int|
                0 <= a < i && 0 <= b < body@.len() && times(body@, #[trigger] body@[a]) == 3
                    ==> #[trigger] body@[b] == body@[a],
        decreases body@.len() - i,
    {
        if count_cell(body, body[i]) == 3 {
            let mut j: usize = 0;
            while j < body.len()
                invariant
                    i < body@.len(),
                    j <= body@.len(),
                    times(body@, body@[i as int]) == 3,
                    forall|b: int| 0 <= b < j ==> #[trigger] body@[b] == body@[i as int],
                decreases body@.len() - j,
            {
                if !(body[j].x == body[i].x && body[j].y == body[i].y) {
                    return false;
                }
                j = j + 1;
            }
        }
        i = i + 1;
    }
    true
}

/// Whether the body is one the simulator can work with.
pub fn body_is_sound(body: &Vec<Position>) -> (yes: bool)
    ensures
        yes == is_sound_body(body@),
{
    let n: usize = body.len();
    if n == 3 && body[0].x == body[1].x && body[0].y == body[1].y && body[1].x == body[2].x
        && body[1].y == body[2].y {
        return true;
    }
    if n < 2 {
        return false;
    }
    let mut i: usize = 0;
    while i < n
        invariant
            n == body@.len(),
            n >= 2,
            i <= n,
            !is_coiled(body@),
            forall|a: int, b: int|
                0 <= a < b < n && a < i && #[trigger] body@[a] == #[trigger] body@[b] ==> a >= 1
                    && a == n - 2,
        decreases n - i,
    {
        let mut j: usize = i + 1;
        while j < n
            invariant
                n == body@.len(),
                n >= 2,
                i < j <= n,
                !is_coiled(body@),
                forall|b: int|
                    i < b < j && body@[i as int] == #[trigger] body@[b] ==> i >= 1 && i == n - 2,
            decreases n - j,
        {
            if body[i].x == body[j].x && body[i].y == body[j].y && !(i >= 1 && i == n - 2) {
                assert(body@[i as int] == body@[j as int]);
                return false;
            }
            j = j + 1;
        }
        i = i + 1;
    }
    true
}

} // verus!
