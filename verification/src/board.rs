use vstd::prelude::*;

use vstd::pervasive::VecAdditionalExecFns;

use crate::coord::Coord;
use crate::error::Error;
use crate::layout::{split_commas, split_tokens, trim, trim_chars};
use crate::tile::{tile_from_chars, token_tile, Tile};

verus! {

/// Whether a (file, rank) pair of mathematical integers lies on the 8x8
/// grid.
pub open spec fn on_grid(file: int, rank: int) -> bool {
    0 <= file < 8 && 0 <= rank < 8
}

/// A layout string is well formed when it splits into exactly 64
/// comma-separated tokens and each token, once trimmed, denotes a tile.
pub open spec fn layout_ok(s: Seq<char>) -> bool {
    &&& split_commas(s).len() == 64
    &&& forall|k: int|
        0 <= k < 64 ==> token_tile(trim(#[trigger] split_commas(s)[k])) is Some
}

/// The tile a well-formed layout string puts on the given square. Tokens
/// run row-major from rank 8 down to rank 1, file a to file h.
pub open spec fn layout_tile(s: Seq<char>, file: int, rank: int) -> Tile {
    token_tile(trim(split_commas(s)[(7 - rank) * 8 + file])).unwrap()
}

/// A fixed 8x8 matrix of tiles, indexed by coordinate. Tiles are owned by
/// value and mutated only through `set_tile`.
pub struct Board {
    tiles: Vec<Tile>,
}

impl Default for Board {
    /// The default board is the all-empty one.
    fn default() -> (b: Board)
        ensures
            b.wf(),
            forall|f: int, r: int| on_grid(f, r) ==> #[trigger] b.at(f, r) is Empty,
    {
        Board::init()
    }
}

impl Board {
    /// The board holds exactly one tile per square.
    pub closed spec fn wf(self) -> bool {
        self.tiles@.len() == 64
    }

    /// The tile standing on the given square.
    pub closed spec fn at(self, file: int, rank: int) -> Tile {
        self.tiles@[rank * 8 + file]
    }

    /// A board whose 64 tiles are all empty, the base a layout is loaded
    /// onto.
    pub fn init() -> (b: Board)
        ensures
            b.wf(),
            forall|f: int, r: int| on_grid(f, r) ==> #[trigger] b.at(f, r) is Empty,
    {
        let mut tiles: Vec<Tile> = Vec::new();
        let mut i: usize = 0;
        while i < 64
            invariant
                i <= 64,
                tiles@.len() == i,
                forall|k: int| 0 <= k < i ==> tiles@[k] is Empty,
            decreases 64 - i,
        {
            tiles.push(Tile::Empty);
            i = i + 1;
        }
        Board { tiles }
    }

    /// Reads the tile at a coordinate, rejecting with `OutOfBounds` any
    /// coordinate off the grid rather than trusting the caller to have
    /// validated it.
    pub fn get_tile(&self, coord: Coord) -> (r: Result<Tile, Error>)
        requires
            self.wf(),
        ensures
            coord.valid() ==> r == Ok::<Tile, Error>(self.at(coord.spec_file(), coord.spec_rank())),
            !coord.valid() ==> r == Err::<Tile, Error>(Error::OutOfBounds),
    {
        let f = coord.file();
        let rk = coord.rank();
        if f < 8 && rk < 8 {
            Ok(self.tiles[rk * 8 + f])
        } else {
            Err(Error::OutOfBounds)
        }
    }

    /// Replaces the tile at a coordinate atomically, with the same bounds
    /// contract as `get_tile`; every other square is left as it was.
    pub fn set_tile(&mut self, coord: Coord, tile: Tile) -> (r: Result<(), Error>)
        requires
            old(self).wf(),
        ensures
            final(self).wf(),
            coord.valid() ==> r == Ok::<(), Error>(()) && final(self).at(
                coord.spec_file(),
                coord.spec_rank(),
            ) == tile && forall|f: int, rk: int|
                on_grid(f, rk) && !(f == coord.spec_file() && rk == coord.spec_rank())
                    ==> #[trigger] final(self).at(f, rk) == old(self).at(f, rk),
            !coord.valid() ==> r == Err::<(), Error>(Error::OutOfBounds) && *final(self) == *old(
                self,
            ),
    {
        let f = coord.file();
        let rk = coord.rank();
        if f < 8 && rk < 8 {
            self.tiles.set(rk * 8 + f, tile);
            Ok(())
        } else {
            Err(Error::OutOfBounds)
        }
    }

    /// Reads the tile at indices already known to be on the grid.
    pub(crate) fn tile_at(&self, file: usize, rank: usize) -> (t: Tile)
        requires
            self.wf(),
            file < 8,
            rank < 8,
        ensures
            t == self.at(file as int, rank as int),
    {
        self.tiles[rank * 8 + file]
    }

    /// Bulk-populates a board from a layout string of 64 comma-separated
    /// tile tokens, row-major from rank 8 down to rank 1. A wrong token
    /// count or any malformed token is rejected with `MalformedLayout`.
    pub fn init_from_string(config_str: &str) -> (r: Result<Board, Error>)
        ensures
            layout_ok(config_str@) ==> r is Ok && r->Ok_0.wf() && forall|f: int, rk: int|
                on_grid(f, rk) ==> #[trigger] r->Ok_0.at(f, rk) == layout_tile(config_str@, f, rk),
            !layout_ok(config_str@) ==> r == Err::<Board, Error>(Error::MalformedLayout),
    {
        let tokens = split_tokens(config_str);
        if tokens.len() != 64 {
            return Err(Error::MalformedLayout);
        }
        let mut board = Board::init();
        let mut ind: usize = 0;
        for i in 0..8usize
            invariant
                ind == i * 8,
                tokens@.len() == 64,
                tokens@.map_values(|t: Vec<char>| t@) == split_commas(config_str@),
                board.wf(),
                forall|k: int|
                    0 <= k < ind ==> token_tile(trim(#[trigger] split_commas(config_str@)[k]))
                        is Some,
                forall|f: int, rk: int|
                    on_grid(f, rk) && (7 - rk) * 8 + f < ind ==> #[trigger] board.at(f, rk)
                        == layout_tile(config_str@, f, rk),
        {
            for j in 0..8usize
                invariant
                    0 <= i < 8,
                    ind == i * 8 + j,
                    tokens@.len() == 64,
                    tokens@.map_values(|t: Vec<char>| t@) == split_commas(config_str@),
                    board.wf(),
                    forall|k: int|
                        0 <= k < ind ==> token_tile(trim(#[trigger] split_commas(config_str@)[k]))
                            is Some,
                    forall|f: int, rk: int|
                        on_grid(f, rk) && (7 - rk) * 8 + f < ind ==> #[trigger] board.at(f, rk)
                            == layout_tile(config_str@, f, rk),
            {
                let trimmed = trim_chars(&tokens[ind]);
                proof {
                    let tok: Vec<char> = tokens@[ind as int];
                    assert(tokens@.map_values(|t: Vec<char>| t@)[ind as int] == tok@);
                }
                let tile = match tile_from_chars(&trimmed) {
                    Ok(tile) => tile,
                    Err(_) => {
                        proof {
                            assert(token_tile(trim(split_commas(config_str@)[ind as int]))
                                is None);
                            assert(!layout_ok(config_str@));
                        }
                        return Err(Error::MalformedLayout);
                    },
                };
                let coord = Coord::from_indices(j as u8, (7 - i) as u8);
                let _ = board.set_tile(coord, tile);
                ind = ind + 1;
            }
        }
        Ok(board)
    }
}

} // verus!
