//! A game tree that is built in full to a given depth.

use vstd::prelude::*;
use crate::board::Board;
use crate::paranoid::{board_value, evaluate_board};
use crate::types::SnakeId;

verus! {

/// A board with its value and the trees of the boards that can follow.
pub struct Node {
    eval: u16,
    state: Board,
    children: Vec<Node>,
}

impl Node {
    /// The value of the board of this node.
    pub closed spec fn value(&self) -> u16 {
        self.eval
    }

    /// The board of this node.
    pub closed spec fn board(&self) -> Board {
        self.state
    }

    /// The trees below this node.
    pub closed spec fn subtrees(&self) -> Seq<Node> {
        self.children@
    }

    /// Number of nodes below this node.
    pub closed spec fn size(&self) -> nat
        decreases self,
    {
        Node::size_of(self.children@)
    }

    /// Number of the given nodes and all nodes below them.
    pub closed spec fn size_of(nodes: Seq<Node>) -> nat
        decreases nodes,
    {
        if nodes.len() == 0 {
            0
        } else {
            Node::size_of(nodes.drop_last()) + 1 + nodes.last().size()
        }
    }

    /// The tree is the one built to `depth` from `board`: it holds the board
    /// and its value, and below it, where `depth` is not 0, one node for
    /// every outcome of the reasonable moves, each with the outcome's board
    /// and value and, as its only child, the tree built one turn less deep
    /// from that board.
    pub open spec fn is_built_from(
        &self,
        board: Board,
        depth: nat,
        you: SnakeId,
        ids: Seq<SnakeId>,
    ) -> bool
        decreases depth,
    {
        &&& self.board() == board
        &&& self.value() == board_value(board, you, ids)
        &&& if depth == 0 {
            self.subtrees().len() == 0
        } else {
            &&& self.subtrees().len() == board.outcomes().len()
            &&& forall|i: int|
                0 <= i < self.subtrees().len() ==> {
                    let child = #[trigger] self.subtrees()[i];
                    &&& child.board() == board.outcomes()[i].1
                    &&& child.value() == board_value(board.outcomes()[i].1, you, ids)
                    &&& child.subtrees().len() == 1
                    &&& child.subtrees()[0].is_built_from(
                        board.outcomes()[i].1,
                        (depth - 1) as nat,
                        you,
                        ids,
                    )
                }
        }
    }

    /// A node without children for the board, with the board's value for
    /// `you` among the listed snakes.
    pub fn new(state: Board, you: &SnakeId, snake_ids: &Vec<SnakeId>) -> (node: Node)
        requires
            you.0 < 4,
            snake_ids@.len() > 0,
            forall|i: int| 0 <= i < snake_ids@.len() ==> (#[trigger] snake_ids@[i]).0 < 4,
        ensures
            node.board() == state,
            node.value() == board_value(state, *you, snake_ids@),
            node.subtrees().len() == 0,
    {
        Node { eval: evaluate_board(&state, you, snake_ids), children: Vec::with_capacity(16), state }
    }

    /// Number of nodes below this node; the largest `usize` where there are
    /// as many as that or more.
    pub fn get_size(&self) -> (size: usize)
        ensures
            size == if self.size() <= usize::MAX {
                self.size()
            } else {
                usize::MAX as nat
            },
        decreases self,
    {
        let mut size: usize = 0;
        let mut i: usize = 0;
        while i < self.children.len()
            invariant
                i <= self.children@.len(),
                size == if Node::size_of(self.children@.take(i as int)) <= usize::MAX {
                    Node::size_of(self.children@.take(i as int))
                } else {
                    usize::MAX as nat
                },
            decreases self.children@.len() - i,
        {
            proof {
                assert(self.children@.take(i + 1).drop_last() =~= self.children@.take(i as int));
                assert(self.children@.take(i + 1).last() == self.children@[i as int]);
            }
            let below: usize = self.children[i].get_size();
            size = size.saturating_add(1).saturating_add(below);
            i = i + 1;
        }
        assert(self.children@.take(i as int) =~= self.children@);
        size
    }

    /// Puts one more tree below this node, after the others.
    pub fn add_child(&mut self, child: Node)
        ensures
            final(self).board() == old(self).board(),
            final(self).value() == old(self).value(),
            final(self).subtrees() == old(self).subtrees().push(child),
    {
        self.children.push(child);
    }

    /// Builds the tree of all that can follow from a board within `depth`
    /// turns of reasonable moves.
    pub fn generate_depth_limited(
        initial_state: Board,
        depth: usize,
        you: &SnakeId,
        snake_ids: &Vec<SnakeId>,
    ) -> (root: Node)
        requires
            you.0 < 4,
            snake_ids@.len() > 0,
            forall|i: int| 0 <= i < snake_ids@.len() ==> (#[trigger] snake_ids@[i]).0 < 4,
        ensures
            root.is_built_from(initial_state, depth as nat, *you, snake_ids@),
        decreases depth,
    {
        let mut root = Node::new(initial_state, you, snake_ids);
        if depth == 0 {
            return root;
        }
        let children = initial_state.simulate_reasonable_moves();
        let mut i: usize = 0;
        while i < children.len()
            invariant
                you.0 < 4,
                depth > 0,
                snake_ids@.len() > 0,
                forall|k: int| 0 <= k < snake_ids@.len() ==> (#[trigger] snake_ids@[k]).0 < 4,
                i <= children@.len(),
                children@.len() == initial_state.outcomes().len(),
                forall|k: int|
                    0 <= k < children@.len() ==> (#[trigger] children@[k]).1
                        == initial_state.outcomes()[k].1,
                root.board() == initial_state,
                root.value() == board_value(initial_state, *you, snake_ids@),
                root.subtrees().len() == i,
                forall|k: int|
                    0 <= k < i ==> {
                        let child = #[trigger] root.subtrees()[k];
                        &&& child.board() == initial_state.outcomes()[k].1
                        &&& child.value() == board_value(
                            initial_state.outcomes()[k].1,
                            *you,
                            snake_ids@,
                        )
                        &&& child.subtrees().len() == 1
                        &&& child.subtrees()[0].is_built_from(
                            initial_state.outcomes()[k].1,
                            (depth - 1) as nat,
                            *you,
                            snake_ids@,
                        )
                    },
            decreases children@.len() - i,
        {
            let state = children[i].1;
            let mut child = Node::new(state, you, snake_ids);
            child.add_child(Node::generate_depth_limited(state, depth - 1, you, snake_ids));
            let ghost before = root.subtrees();
            root.add_child(child);
            proof {
                assert forall|k: int| 0 <= k < i implies #[trigger] root.subtrees()[k]
                    == before[k] by {}
            }
            i = i + 1;
        }
        root
    }
}

} // verus!
