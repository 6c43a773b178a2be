//! The small value types that the search speaks in: directions, snake tags and
//! the tag of a joint move.

use vstd::prelude::*;

verus! {

/// One of the four directions a snake can take in a turn.
#[derive(Clone, Copy, PartialEq, Eq, Structural, Debug, Hash)]
pub enum Move {
    Up,
    Down,
    Left,
    Right,
}

impl Move {
    /// Position of the direction in the fixed order up, down, left, right.
    pub open spec fn index(self) -> int {
        match self {
            Move::Up => 0,
            Move::Down => 1,
            Move::Left => 2,
            Move::Right => 3,
        }
    }

    /// The direction at position `i` of the fixed order; `Right` for any
    /// position past the third.
    pub open spec fn at(i: int) -> Move {
        if i == 0 {
            Move::Up
        } else if i == 1 {
            Move::Down
        } else if i == 2 {
            Move::Left
        } else {
            Move::Right
        }
    }

    /// The position of the direction in the fixed order.
    pub fn as_index(&self) -> (i: usize)
        ensures
            i == self.index(),
            i < 4,
    {
        match self {
            Move::Up => 0,
            Move::Down => 1,
            Move::Left => 2,
            Move::Right => 3,
        }
    }

    /// The direction at a position of the fixed order.
    pub fn from_index(i: usize) -> (m: Move)
        requires
            i < 4,
        ensures
            m == Move::at(i as int),
            m.index() == i,
    {
        if i == 0 {
            Move::Up
        } else if i == 1 {
            Move::Down
        } else if i == 2 {
            Move::Left
        } else {
            Move::Right
        }
    }

    /// The four directions in their fixed order.
    pub fn all() -> (v: Vec<Move>)
        ensures
            v@ == seq![Move::Up, Move::Down, Move::Left, Move::Right],
    {
        vec![Move::Up, Move::Down, Move::Left, Move::Right]
    }

    /// The lower-case word a game server expects for this direction.
    pub fn name(&self) -> (s: &'static str)
        ensures
            s@ == Move::name_of(*self),
    {
        match self {
            Move::Up => "up",
            Move::Down => "down",
            Move::Left => "left",
            Move::Right => "right",
        }
    }

    /// The lower-case word for a direction.
    pub open spec fn name_of(m: Move) -> Seq<char> {
        match m {
            Move::Up => "up"@,
            Move::Down => "down"@,
            Move::Left => "left"@,
            Move::Right => "right"@,
        }
    }
}

/// Tag of one snake; a board holds the tags below `MAX_SNAKES`.
#[derive(Clone, Copy, PartialEq, Eq, Structural, Debug, Hash)]
pub struct SnakeId(pub u8);

impl SnakeId {
    /// The tag as an index.
    pub fn as_usize(&self) -> (i: usize)
        ensures
            i == self.0,
    {
        self.0 as usize
    }
}

/// Digit that stands for one slot of an action: 0 for an absent snake, else
/// one more than the direction's index.
pub open spec fn slot_code(slot: Option<Move>) -> int {
    match slot {
        None => 0,
        Some(m) => m.index() + 1,
    }
}

/// The base-5 number whose digits are the slot codes, slot 0 the lowest.
pub open spec fn action_key(slots: Seq<Option<Move>>) -> int {
    slot_code(slots[0]) + 5 * slot_code(slots[1]) + 25 * slot_code(slots[2]) + 125 * slot_code(
        slots[3],
    )
}

/// The move of `you` in an action, if `you` took part in it.
pub open spec fn slot_of(slots: Seq<Option<Move>>, you: SnakeId) -> Option<Move> {
    if you.0 < 4 {
        slots[you.0 as int]
    } else {
        None
    }
}

/// The tag of a joint move: for each snake slot the direction taken, or
/// nothing where the slot took no part. Actions are ordered by `key`.
#[derive(Clone, Copy, PartialEq, Eq, Debug, Hash)]
pub struct Action {
    moves: [Option<Move>; 4],
}

impl View for Action {
    type V = Seq<Option<Move>>;

    closed spec fn view(&self) -> Seq<Option<Move>> {
        self.moves@
    }
}

impl Action {
    /// The action with the given slots.
    pub fn new(moves: [Option<Move>; 4]) -> (a: Action)
        ensures
            a@ == moves@,
    {
        Action { moves }
    }

    /// The slots of the action.
    pub fn into_inner(self) -> (moves: [Option<Move>; 4])
        ensures
            moves@ == self@,
    {
        self.moves
    }

    /// The direction taken by the snake in slot `sid`, if it took part.
    pub fn move_of(&self, sid: SnakeId) -> (m: Option<Move>)
        ensures
            m == if sid.0 < 4 {
                self@[sid.0 as int]
            } else {
                None
            },
    {
        if sid.0 < 4 {
            self.moves[sid.0 as usize]
        } else {
            None
        }
    }

    /// The direction of slot 0, the snake the search plays for.
    pub fn own_move(&self) -> (m: Move)
        requires
            self@[0] is Some,
        ensures
            Some(m) == self@[0],
    {
        match self.moves[0] {
            Some(m) => m,
            None => Move::Up,
        }
    }

    /// The number by which actions are ordered and found again.
    pub fn key(&self) -> (k: u16)
        ensures
            k == action_key(self@),
            k < 625,
    {
        let c0: u16 = Action::code(self.moves[0]);
        let c1: u16 = Action::code(self.moves[1]);
        let c2: u16 = Action::code(self.moves[2]);
        let c3: u16 = Action::code(self.moves[3]);
        c0 + 5 * c1 + 25 * c2 + 125 * c3
    }

    fn code(slot: Option<Move>) -> (c: u16)
        ensures
            c == slot_code(slot),
            c <= 4,
    {
        match slot {
            None => 0,
            Some(m) => {
                let i: usize = m.as_index();
                (i + 1) as u16
            },
        }
    }

    /// An action has four slots.
    pub proof fn has_four_slots(&self)
        ensures
            self@.len() == 4,
    {
    }

    /// Two actions with the same key are the same action.
    pub proof fn key_is_injective(a: Action, b: Action)
        requires
            action_key(a@) == action_key(b@),
        ensures
            a@ == b@,
    {
        slots_with_one_key_are_the_same(a@, b@);
    }
}

/// Two lists of four slots with the same key are the same list.
pub proof fn slots_with_one_key_are_the_same(a: Seq<Option<Move>>, b: Seq<Option<Move>>)
    requires
        a.len() == 4,
        b.len() == 4,
        action_key(a) == action_key(b),
    ensures
        a == b,
{
    assert(forall|i: int| 0 <= i < 4 ==> 0 <= slot_code(#[trigger] a[i]) <= 4);
    assert(forall|i: int| 0 <= i < 4 ==> 0 <= slot_code(#[trigger] b[i]) <= 4);
    assert(forall|i: int| 0 <= i < 4 ==> slot_code(#[trigger] a[i]) == slot_code(b[i]));
    assert forall|i: int| 0 <= i < 4 implies #[trigger] a[i] == b[i] by {
        code_is_injective(a[i], b[i]);
    }
    assert(a =~= b);
}

proof fn code_is_injective(x: Option<Move>, y: Option<Move>)
    requires
        slot_code(x) == slot_code(y),
    ensures
        x == y,
{
}

} // verus!
