use vstd::prelude::*;

use crate::error::Error;

verus! {

/// A two-character square reference is valid when its first character is a
/// file letter `a`..`h` (code points 97..=104) and its second a rank digit
/// `1`..`8` (code points 49..=56).
pub open spec fn valid_notation(s: Seq<char>) -> bool {
    &&& s.len() == 2
    &&& 97 <= s[0] as int <= 104
    &&& 49 <= s[1] as int <= 56
}

/// The zero-based file index denoted by a valid notation string.
pub open spec fn notation_file(s: Seq<char>) -> int {
    s[0] as int - 97
}

/// The zero-based rank index denoted by a valid notation string.
pub open spec fn notation_rank(s: Seq<char>) -> int {
    s[1] as int - 49
}

/// A validated (file, rank) pair of zero-based indices, each in `[0, 8)`.
/// Rank 0 corresponds to notation rank `1` and file 0 to notation file `a`,
/// so `a1` is file 0 / rank 0. Out-of-range pairs are rejected by every
/// constructor rather than represented with a separate "invalid" flag.
#[derive(Clone, Copy, Debug, PartialEq, Eq, Structural)]
pub struct Coord {
    file: u8,
    rank: u8,
}

impl Coord {
    /// The file index, as a mathematical integer.
    pub closed spec fn spec_file(self) -> int {
        self.file as int
    }

    /// The rank index, as a mathematical integer.
    pub closed spec fn spec_rank(self) -> int {
        self.rank as int
    }

    /// Both indices lie on the 8x8 grid.
    pub open spec fn valid(self) -> bool {
        0 <= self.spec_file() < 8 && 0 <= self.spec_rank() < 8
    }

    /// The file index, `0` for file `a` up to `7` for file `h`.
    pub fn file(&self) -> (f: usize)
        ensures
            f == self.spec_file(),
    {
        self.file as usize
    }

    /// The rank index, `0` for rank `1` up to `7` for rank `8`.
    pub fn rank(&self) -> (r: usize)
        ensures
            r == self.spec_rank(),
    {
        self.rank as usize
    }

    /// Builds a coordinate from raw indices, re-validating both against the
    /// `[0, 8)` bound; `OutOfBounds` otherwise.
    pub fn init(file: usize, rank: usize) -> (r: Result<Coord, Error>)
        ensures
            file < 8 && rank < 8 ==> (r matches Ok(c) && c.valid() && c.spec_file() == file
                && c.spec_rank() == rank),
            !(file < 8 && rank < 8) ==> r == Err::<Coord, Error>(Error::OutOfBounds),
    {
        if file < 8 && rank < 8 {
            Ok(Coord { file: file as u8, rank: rank as u8 })
        } else {
            Err(Error::OutOfBounds)
        }
    }

    /// Builds a coordinate from indices already known to be on the grid.
    pub(crate) fn from_indices(file: u8, rank: u8) -> (c: Coord)
        requires
            file < 8,
            rank < 8,
        ensures
            c.valid(),
            c.spec_file() == file as int,
            c.spec_rank() == rank as int,
    {
        Coord { file, rank }
    }

    /// Parses a two-character square reference such as `e4`. Accepts exactly
    /// a file letter `a`..`h` followed by a rank digit `1`..`8`; anything
    /// else — a missing token, a wrong length, an out-of-range letter or
    /// digit — is rejected with `InvalidNotation`.
    pub fn init_from_string(pos: Option<&str>) -> (r: Result<Coord, Error>)
        ensures
            pos is None ==> r == Err::<Coord, Error>(Error::InvalidNotation),
            pos is Some && valid_notation(pos.unwrap()@) ==> r is Ok && r->Ok_0.valid()
                && r->Ok_0.spec_file() == notation_file(pos.unwrap()@) && r->Ok_0.spec_rank()
                == notation_rank(pos.unwrap()@),
            pos is Some && !valid_notation(pos.unwrap()@) ==> r == Err::<Coord, Error>(
                Error::InvalidNotation,
            ),
    {
        match pos {
            None => Err(Error::InvalidNotation),
            Some(s) => {
                if s.unicode_len() != 2 {
                    return Err(Error::InvalidNotation);
                }
                let v0 = s.get_char(0) as u32;
                let v1 = s.get_char(1) as u32;
                if 97 <= v0 && v0 <= 104 && 49 <= v1 && v1 <= 56 {
                    Ok(Coord { file: (v0 - 97) as u8, rank: (v1 - 49) as u8 })
                } else {
                    Err(Error::InvalidNotation)
                }
            },
        }
    }

    /// Renders the coordinate back to its two-character notation, the
    /// inverse of `init_from_string`.
    pub fn format(&self) -> (s: String)
        requires
            self.valid(),
        ensures
            valid_notation(s@),
            notation_file(s@) == self.spec_file(),
            notation_rank(s@) == self.spec_rank(),
    {
        let fc = (97 + self.file) as char;
        let rc = (49 + self.rank) as char;
        let mut s = String::new();
        push_char(&mut s, fc);
        push_char(&mut s, rc);
        s
    }
}

/// A coordinate is nothing but its two indices: two coordinates that agree
/// on file and rank are equal.
pub proof fn lemma_coord_ext(a: Coord, b: Coord)
    requires
        a.spec_file() == b.spec_file(),
        a.spec_rank() == b.spec_rank(),
    ensures
        a == b,
{
}

/// Relies on `String::push`: appends the given character to the end of the
/// string.
#[verifier::external_body]
fn push_char(s: &mut String, c: char)
    ensures
        final(s)@ == old(s)@.push(c),
{
    s.push(c)
}

/// Parsing is a left inverse of formatting: any two-character string whose
/// code points spell out an on-grid (file, rank) pair — exactly what
/// `Coord::format` produces — is valid notation and parses back to the same
/// pair.
pub proof fn lemma_notation_round_trip(s: Seq<char>, file: int, rank: int)
    requires
        0 <= file < 8,
        0 <= rank < 8,
        s.len() == 2,
        s[0] as int == 97 + file,
        s[1] as int == 49 + rank,
    ensures
        valid_notation(s),
        notation_file(s) == file,
        notation_rank(s) == rank,
{
}

} // verus!
