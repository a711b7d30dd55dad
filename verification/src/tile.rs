use vstd::prelude::*;

use crate::error::Error;

verus! {

/// The side a piece belongs to. Equality only; no order is defined.
#[derive(Clone, Copy, Debug, PartialEq, Eq, Structural)]
pub enum Color {
    Black,
    White,
}

impl Color {
    /// The opposing side.
    pub open spec fn spec_other(self) -> Color {
        if self is Black {
            Color::White
        } else {
            Color::Black
        }
    }

    /// Returns the opposing side.
    pub fn other(&self) -> (c: Color)
        ensures
            c == self.spec_other(),
    {
        match self {
            Color::Black => Color::White,
            Color::White => Color::Black,
        }
    }
}

/// The six piece kinds. No payload; geometry is dispatched on the kind.
#[derive(Clone, Copy, Debug, PartialEq, Eq, Structural)]
pub enum Piece {
    Rook,
    Knight,
    Bishop,
    King,
    Queen,
    Pawn,
}

/// The occupancy state of one square: either fully empty or fully occupied
/// by a (piece, color) pair. No partial state is representable.
#[derive(Clone, Copy, Debug, PartialEq, Eq, Structural)]
pub enum Tile {
    Empty,
    Occupied { piece: Piece, color: Color },
}

impl Tile {
    /// An empty tile.
    pub fn empty() -> (t: Tile)
        ensures
            t is Empty,
    {
        Tile::Empty
    }

    /// A tile occupied by the given piece and color.
    pub fn occupied(piece: Piece, color: Color) -> (t: Tile)
        ensures
            t == (Tile::Occupied { piece, color }),
    {
        Tile::Occupied { piece, color }
    }

    /// Whether no piece stands on this tile.
    pub fn is_empty(&self) -> (b: bool)
        ensures
            b == (self is Empty),
    {
        matches!(self, Tile::Empty)
    }

    /// The occupant, if any.
    pub fn piece(&self) -> (p: Option<(Piece, Color)>)
        ensures
            self is Empty ==> p is None,
            (*self) matches Tile::Occupied { piece, color } ==> p == Some::<(Piece, Color)>(
                (piece, color),
            ),
    {
        match self {
            Tile::Empty => None,
            Tile::Occupied { piece, color } => Some((*piece, *color)),
        }
    }
}

impl Default for Tile {
    /// The default tile is empty.
    fn default() -> (t: Tile)
        ensures
            t is Empty,
    {
        Tile::Empty
    }
}

/// The piece kind denoted by a layout letter, if any.
pub open spec fn piece_of_char(c: char) -> Option<Piece> {
    match c {
        'r' => Some(Piece::Rook),
        'n' => Some(Piece::Knight),
        'b' => Some(Piece::Bishop),
        'q' => Some(Piece::Queen),
        'k' => Some(Piece::King),
        'p' => Some(Piece::Pawn),
        _ => None,
    }
}

/// The color denoted by a layout letter, if any.
pub open spec fn color_of_char(c: char) -> Option<Color> {
    match c {
        'b' => Some(Color::Black),
        'w' => Some(Color::White),
        _ => None,
    }
}

/// The tile denoted by one layout token: `-` marks an empty square, and a
/// four-character `piece-letter ( color-letter )` token an occupied one.
/// Anything else is malformed and denotes no tile.
pub open spec fn token_tile(t: Seq<char>) -> Option<Tile> {
    if t.len() == 1 && t[0] == '-' {
        Some(Tile::Empty)
    } else if t.len() == 4 && t[1] == '(' && t[3] == ')' && piece_of_char(t[0]) is Some
        && color_of_char(t[2]) is Some {
        Some(
            Tile::Occupied {
                piece: piece_of_char(t[0]).unwrap(),
                color: color_of_char(t[2]).unwrap(),
            },
        )
    } else {
        None
    }
}

/// Parses one layout letter into a piece kind.
fn piece_from_char(c: char) -> (p: Option<Piece>)
    ensures
        p == piece_of_char(c),
{
    match c {
        'r' => Some(Piece::Rook),
        'n' => Some(Piece::Knight),
        'b' => Some(Piece::Bishop),
        'q' => Some(Piece::Queen),
        'k' => Some(Piece::King),
        'p' => Some(Piece::Pawn),
        _ => None,
    }
}

/// Parses one layout letter into a color.
fn color_from_char(c: char) -> (p: Option<Color>)
    ensures
        p == color_of_char(c),
{
    match c {
        'b' => Some(Color::Black),
        'w' => Some(Color::White),
        _ => None,
    }
}

/// Decodes one already-split layout token held as characters.
pub(crate) fn tile_from_chars(t: &Vec<char>) -> (r: Result<Tile, Error>)
    ensures
        token_tile(t@) matches Some(tile) ==> r == Ok::<Tile, Error>(tile),
        token_tile(t@) is None ==> r == Err::<Tile, Error>(Error::MalformedLayout),
{
    if t.len() == 1 {
        if t[0] == '-' {
            Ok(Tile::Empty)
        } else {
            Err(Error::MalformedLayout)
        }
    } else if t.len() == 4 {
        if !(t[1] == '(' && t[3] == ')') {
            return Err(Error::MalformedLayout);
        }
        let piece = match piece_from_char(t[0]) {
            Some(p) => p,
            None => {
                return Err(Error::MalformedLayout);
            },
        };
        let color = match color_from_char(t[2]) {
            Some(c) => c,
            None => {
                return Err(Error::MalformedLayout);
            },
        };
        Ok(Tile::Occupied { piece, color })
    } else {
        Err(Error::MalformedLayout)
    }
}

impl Tile {
    /// Parses a single layout token, such as `r(w)` or `-`, into a tile.
    /// Malformed tokens are rejected with `MalformedLayout`.
    pub fn init_from_string(tile_str: &str) -> (r: Result<Tile, Error>)
        ensures
            token_tile(tile_str@) matches Some(t) ==> r == Ok::<Tile, Error>(t),
            token_tile(tile_str@) is None ==> r == Err::<Tile, Error>(Error::MalformedLayout),
    {
        let n = tile_str.unicode_len();
        let mut chars: Vec<char> = Vec::new();
        let mut i: usize = 0;
        while i < n
            invariant
                i <= n,
                n == tile_str@.len(),
                chars@ == tile_str@.take(i as int),
            decreases n - i,
        {
            chars.push(tile_str.get_char(i));
            i = i + 1;
            proof {
                assert(chars@ =~= tile_str@.take(i as int));
            }
        }
        proof {
            assert(chars@ =~= tile_str@);
        }
        tile_from_chars(&chars)
    }
}

} // verus!
