use vstd::prelude::*;

use crate::board::{on_grid, Board};
use crate::coord::Coord;
use crate::error::Error;
use crate::moves::{destination_list_ok, is_destination, legal_destinations, lemma_dest_differs};
use crate::tile::{Color, Tile};

verus! {

/// Linear scan for a coordinate in a destination vector.
fn contains_coord(v: &Vec<Coord>, c: Coord) -> (b: bool)
    ensures
        b == v@.contains(c),
{
    let mut i: usize = 0;
    while i < v.len()
        invariant
            i <= v@.len(),
            forall|j: int| 0 <= j < i ==> v@[j] != c,
        decreases v@.len() - i,
    {
        if v[i] == c {
            return true;
        }
        i = i + 1;
    }
    proof {
        if v@.contains(c) {
            let j = choose|j: int| 0 <= j < v@.len() && v@[j] == c;
        }
    }
    false
}

/// What an accepted move does to the state: the occupant of `from` now
/// stands on `to`, `from` is empty, every other square is untouched, and
/// the turn has flipped to the opposing color.
pub open spec fn move_applied(pre: GameState, post: GameState, from: Coord, to: Coord) -> bool {
    &&& post.board.at(to.spec_file(), to.spec_rank()) == pre.board.at(
        from.spec_file(),
        from.spec_rank(),
    )
    &&& post.board.at(from.spec_file(), from.spec_rank()) is Empty
    &&& forall|f: int, rk: int|
        on_grid(f, rk) && !(f == from.spec_file() && rk == from.spec_rank()) && !(f
            == to.spec_file() && rk == to.spec_rank()) ==> #[trigger] post.board.at(f, rk)
            == pre.board.at(f, rk)
    &&& post.turn == pre.turn.spec_other()
}

/// The whole game: whether it is still in progress, whose turn it is, and
/// the board. `in_progress` is only ever cleared from outside — resignation
/// or a future terminal-state detector; nothing in the core flips it.
pub struct GameState {
    pub in_progress: bool,
    pub turn: Color,
    pub board: Board,
}

impl GameState {
    /// The game's board is well formed.
    pub open spec fn wf(self) -> bool {
        self.board.wf()
    }

    /// A fresh game over the given board, with `turn` to move.
    pub fn init(turn: &Color, board: Board) -> (g: GameState)
        requires
            board.wf(),
        ensures
            g.wf(),
            g.in_progress == true,
            g.turn == *turn,
            g.board == board,
    {
        GameState { in_progress: true, turn: *turn, board }
    }

    /// The legal destinations of the piece standing on `coord`: exactly
    /// what `legal_destinations` computes on the game's board.
    pub fn get_legal_moves(&self, coord: Coord) -> (r: Result<Vec<Coord>, Error>)
        requires
            self.wf(),
        ensures
            !coord.valid() ==> r == Err::<Vec<Coord>, Error>(Error::OutOfBounds),
            coord.valid() && self.board.at(coord.spec_file(), coord.spec_rank()) is Empty ==> r
                == Err::<Vec<Coord>, Error>(Error::EmptySource),
            coord.valid() && self.board.at(coord.spec_file(), coord.spec_rank()) is Occupied ==> r
                is Ok && destination_list_ok(self.board, coord, r->Ok_0@),
    {
        legal_destinations(&self.board, coord)
    }

    /// Whether the piece on `first_coord` may move to `second_coord`.
    /// False when the source is off the grid or empty: an error there only
    /// means there is nothing that could move.
    pub fn is_legal_move(&self, first_coord: Coord, second_coord: Coord) -> (b: bool)
        requires
            self.wf(),
        ensures
            b == is_destination(self.board, first_coord, second_coord),
    {
        match legal_destinations(&self.board, first_coord) {
            Err(_) => false,
            Ok(moves) => contains_coord(&moves, second_coord),
        }
    }

    /// Applies the move from `first_coord` to `second_coord` if and only
    /// if it is legal and the piece belongs to the player whose turn it
    /// is. On success the occupant moves, the source square is cleared,
    /// every other square is untouched, and the turn flips; on any failure
    /// the state is left exactly as it was, and the error says what went
    /// wrong: `OutOfBounds` or `EmptySource` from the legality query on
    /// the source, `IllegalMove` for a destination outside the legal set,
    /// `WrongTurn` for a legal move of the opponent's piece.
    pub fn move_piece(&mut self, first_coord: Coord, second_coord: Coord) -> (r: Result<(), Error>)
        requires
            old(self).wf(),
        ensures
            final(self).wf(),
            r is Ok <==> is_destination(old(self).board, first_coord, second_coord) && old(
                self,
            ).board.at(first_coord.spec_file(), first_coord.spec_rank())->color == old(self).turn,
            r is Err ==> *final(self) == *old(self),
            !first_coord.valid() ==> r == Err::<(), Error>(Error::OutOfBounds),
            first_coord.valid() && old(self).board.at(
                first_coord.spec_file(),
                first_coord.spec_rank(),
            ) is Empty ==> r == Err::<(), Error>(Error::EmptySource),
            first_coord.valid() && old(self).board.at(
                first_coord.spec_file(),
                first_coord.spec_rank(),
            ) is Occupied && !is_destination(old(self).board, first_coord, second_coord) ==> r
                == Err::<(), Error>(Error::IllegalMove),
            is_destination(old(self).board, first_coord, second_coord) && old(self).board.at(
                first_coord.spec_file(),
                first_coord.spec_rank(),
            )->color != old(self).turn ==> r == Err::<(), Error>(Error::WrongTurn),
            r is Ok ==> move_applied(*old(self), *final(self), first_coord, second_coord),
            final(self).in_progress == old(self).in_progress,
    {
        let moves = match legal_destinations(&self.board, first_coord) {
            Ok(moves) => moves,
            Err(e) => {
                return Err(e);
            },
        };
        if !contains_coord(&moves, second_coord) {
            return Err(Error::IllegalMove);
        }
        let tile = match self.board.get_tile(first_coord) {
            Ok(tile) => tile,
            Err(_) => {
                return Err(Error::OutOfBounds);  // unreachable: the source was just queried
            },
        };
        let (piece, color) = match tile {
            Tile::Occupied { piece, color } => (piece, color),
            Tile::Empty => {
                return Err(Error::EmptySource);  // unreachable: an empty source has no moves
            },
        };
        if color != self.turn {
            return Err(Error::WrongTurn);
        }
        proof {
            lemma_dest_differs(
                self.board,
                piece,
                color,
                first_coord.spec_file(),
                first_coord.spec_rank(),
                second_coord.spec_file(),
                second_coord.spec_rank(),
            );
        }
        let _ = self.board.set_tile(second_coord, Tile::Occupied { piece, color });
        let _ = self.board.set_tile(first_coord, Tile::Empty);
        self.turn = self.turn.other();
        Ok(())
    }
}

} // verus!
