use vstd::prelude::*;
use crate::constants::{MAP_HEIGHT, MAP_TOTAL_DIMENSION, MAP_WIDTH};
use crate::map::{GameMap, TileType, col, idx, lemma_col_row, row};

verus! {

/// Cost of a step to a tile that shares a side, in hundredths of a tile.
pub const CARDINAL_EXIT_COST: u32 = 100;

/// Cost of a diagonal step, in hundredths of a tile.
pub const DIAGONAL_EXIT_COST: u32 = 145;

impl GameMap {
    /// (x, y) can be stepped onto: it lies on the grid and is not blocked.
    pub open spec fn spec_exit_valid(&self, x: int, y: int) -> bool {
        0 <= x <= self.width - 1 && 0 <= y <= self.height - 1 && !self.blocked@[idx(x, y)]
    }

    /// The exit to (x, y) at `cost`, if it can be stepped onto.
    pub open spec fn exit_to(&self, x: int, y: int, cost: u32) -> Seq<(usize, u32)> {
        if self.spec_exit_valid(x, y) {
            seq![(idx(x, y) as usize, cost)]
        } else {
            Seq::empty()
        }
    }

    /// The exits of tile `i`: the four that share a side, then the four diagonals,
    /// each kept only when it can be stepped onto.
    pub open spec fn exits(&self, i: int) -> Seq<(usize, u32)> {
        let x = col(i);
        let y = row(i);
        self.exit_to(x - 1, y, CARDINAL_EXIT_COST) + self.exit_to(x + 1, y, CARDINAL_EXIT_COST)
            + self.exit_to(x, y - 1, CARDINAL_EXIT_COST) + self.exit_to(x, y + 1, CARDINAL_EXIT_COST)
            + self.exit_to(x - 1, y - 1, DIAGONAL_EXIT_COST) + self.exit_to(x + 1, y - 1, DIAGONAL_EXIT_COST)
            + self.exit_to(x - 1, y + 1, DIAGONAL_EXIT_COST) + self.exit_to(x + 1, y + 1, DIAGONAL_EXIT_COST)
    }

    fn is_exit_valid(&self, x: i32, y: i32) -> (r: bool)
        requires
            self.wf(),
        ensures
            r == self.spec_exit_valid(x as int, y as int),
    {
        if x < 0 || x > self.width - 1 || y < 0 || y > self.height - 1 {
            return false;
        }
        let index = self.get_index_xy(x, y);
        !self.blocked[index]
    }

    /// Tile `index` blocks sight: it is wall.
    pub fn is_opaque(&self, index: usize) -> (r: bool)
        requires
            self.wf(),
            index < MAP_TOTAL_DIMENSION,
        ensures
            r == (self.tiles@[index as int] == TileType::Wall),
    {
        self.tiles[index] == TileType::Wall
    }

    fn push_exit(&self, exits: &mut Vec<(usize, u32)>, x: i32, y: i32, cost: u32)
        requires
            self.wf(),
            -1 <= x <= MAP_WIDTH,
            -1 <= y <= MAP_HEIGHT,
        ensures
            final(exits)@ == old(exits)@ + self.exit_to(x as int, y as int, cost),
    {
        if self.is_exit_valid(x, y) {
            let index = self.get_index_xy(x, y);
            exits.push((index, cost));
        } else {
            assert(self.exit_to(x as int, y as int, cost) =~= Seq::empty());
            assert(old(exits)@ + Seq::<(usize, u32)>::empty() =~= old(exits)@);
        }
    }

    /// The tiles one step from tile `index` that can be entered, with the cost of
    /// each step: cardinal steps first, then diagonals.
    pub fn get_available_exits(&self, index: usize) -> (r: Vec<(usize, u32)>)
        requires
            self.wf(),
            index < MAP_TOTAL_DIMENSION,
        ensures
            r@ == self.exits(index as int),
    {
        proof {
            lemma_col_row(index as int);
        }
        let x = (index % MAP_WIDTH) as i32;
        let y = (index / MAP_WIDTH) as i32;
        let mut exits: Vec<(usize, u32)> = Vec::new();
        self.push_exit(&mut exits, x - 1, y, CARDINAL_EXIT_COST);
        self.push_exit(&mut exits, x + 1, y, CARDINAL_EXIT_COST);
        self.push_exit(&mut exits, x, y - 1, CARDINAL_EXIT_COST);
        self.push_exit(&mut exits, x, y + 1, CARDINAL_EXIT_COST);
        self.push_exit(&mut exits, x - 1, y - 1, DIAGONAL_EXIT_COST);
        self.push_exit(&mut exits, x + 1, y - 1, DIAGONAL_EXIT_COST);
        self.push_exit(&mut exits, x - 1, y + 1, DIAGONAL_EXIT_COST);
        self.push_exit(&mut exits, x + 1, y + 1, DIAGONAL_EXIT_COST);
        assert(exits@ =~= self.exits(index as int));
        exits
    }
}

} // verus!
