use vstd::math::abs;
use vstd::prelude::*;

use crate::board::{on_grid, Board};
use crate::coord::Coord;
use crate::error::Error;
use crate::tile::{Color, Piece, Tile};

verus! {

/// The sign of an integer: -1, 0 or 1.
pub open spec fn sgn(x: int) -> int {
    if x > 0 {
        1
    } else if x < 0 {
        -1
    } else {
        0
    }
}

/// One of the eight unit directions on the grid.
pub open spec fn unit_dir(df: int, dr: int) -> bool {
    -1 <= df <= 1 && -1 <= dr <= 1 && !(df == 0 && dr == 0)
}

/// Whether (tf, tr) lies on the ray cast from (ff, fr) in direction
/// (df, dr), i.e. is reachable from it by one or more steps of (df, dr).
pub open spec fn on_ray(ff: int, fr: int, df: int, dr: int, tf: int, tr: int) -> bool {
    &&& unit_dir(df, dr)
    &&& sgn(tf - ff) == df
    &&& sgn(tr - fr) == dr
    &&& (df != 0 && dr != 0) ==> abs(tf - ff) == abs(tr - fr)
}

/// The number of unit steps from (ff, fr) to (tf, tr) along the ray they
/// share.
pub open spec fn ray_dist(ff: int, fr: int, tf: int, tr: int) -> int {
    if abs(tf - ff) >= abs(tr - fr) {
        abs(tf - ff) as int
    } else {
        abs(tr - fr) as int
    }
}

/// Whether (f, r) stands strictly between (ff, fr) and (tf, tr) on the
/// straight line the two span: on the same ray out of (ff, fr), but fewer
/// steps away.
pub open spec fn strictly_between(ff: int, fr: int, tf: int, tr: int, f: int, r: int) -> bool {
    &&& on_ray(ff, fr, sgn(tf - ff), sgn(tr - fr), f, r)
    &&& ray_dist(ff, fr, f, r) < ray_dist(ff, fr, tf, tr)
}

/// Every square strictly between the two given squares is empty. Only
/// meaningful for squares aligned on a rank, file or diagonal.
pub open spec fn path_clear(b: Board, ff: int, fr: int, tf: int, tr: int) -> bool {
    forall|f: int, r: int| strictly_between(ff, fr, tf, tr, f, r) ==> #[trigger] b.at(f, r) is Empty
}

/// A piece of the given color may land on the square: it is empty or holds
/// an opposing piece.
pub open spec fn can_land(b: Board, c: Color, f: int, r: int) -> bool {
    b.at(f, r) is Empty || b.at(f, r)->color != c
}

/// The two squares share a rank or a file, without coinciding.
pub open spec fn rook_line(ff: int, fr: int, tf: int, tr: int) -> bool {
    (ff == tf && fr != tr) || (fr == tr && ff != tf)
}

/// The two squares share a diagonal, without coinciding.
pub open spec fn bishop_line(ff: int, fr: int, tf: int, tr: int) -> bool {
    ff != tf && abs(tf - ff) == abs(tr - fr)
}

/// A knight's move: one step along one axis and two along the other.
pub open spec fn knight_jump(ff: int, fr: int, tf: int, tr: int) -> bool {
    ||| abs(tf - ff) == 1 && abs(tr - fr) == 2
    ||| abs(tf - ff) == 2 && abs(tr - fr) == 1
}

/// A king's move: one step in any of the eight directions.
pub open spec fn king_step(ff: int, fr: int, tf: int, tr: int) -> bool {
    abs(tf - ff) <= 1 && abs(tr - fr) <= 1 && !(tf == ff && tr == fr)
}

/// The rank direction a pawn of the given color advances in: White moves
/// toward increasing ranks, Black toward decreasing ones.
pub open spec fn pawn_dir(c: Color) -> int {
    if c is White {
        1
    } else {
        -1
    }
}

/// A pawn's move: one step straight forward onto an empty square, or one
/// step diagonally forward onto a square held by the opposing color. No
/// double step, en passant or promotion.
pub open spec fn pawn_ok(b: Board, c: Color, ff: int, fr: int, tf: int, tr: int) -> bool {
    ||| (tf == ff && tr == fr + pawn_dir(c) && b.at(tf, tr) is Empty)
    ||| (abs(tf - ff) == 1 && tr == fr + pawn_dir(c) && b.at(tf, tr) is Occupied && b.at(tf, tr)->color != c)
}

/// A sliding piece may stop here: the squares on the way are empty and the
/// landing square is free or a capture.
pub open spec fn slide_ok(b: Board, c: Color, ff: int, fr: int, tf: int, tr: int) -> bool {
    path_clear(b, ff, fr, tf, tr) && can_land(b, c, tf, tr)
}

/// The full legality rule: whether a piece of the given kind and color
/// standing on (ff, fr) may move to (tf, tr).
pub open spec fn legal_dest(
    b: Board,
    p: Piece,
    c: Color,
    ff: int,
    fr: int,
    tf: int,
    tr: int,
) -> bool {
    &&& on_grid(tf, tr)
    &&& match p {
        Piece::Rook => rook_line(ff, fr, tf, tr) && slide_ok(b, c, ff, fr, tf, tr),
        Piece::Bishop => bishop_line(ff, fr, tf, tr) && slide_ok(b, c, ff, fr, tf, tr),
        Piece::Queen => (rook_line(ff, fr, tf, tr) || bishop_line(ff, fr, tf, tr)) && slide_ok(
            b,
            c,
            ff,
            fr,
            tf,
            tr,
        ),
        Piece::Knight => knight_jump(ff, fr, tf, tr) && can_land(b, c, tf, tr),
        Piece::King => king_step(ff, fr, tf, tr) && can_land(b, c, tf, tr),
        Piece::Pawn => pawn_ok(b, c, ff, fr, tf, tr),
    }
}

/// Whether `to` is a legal destination for the piece standing on `from`.
pub open spec fn is_destination(b: Board, from: Coord, to: Coord) -> bool {
    &&& from.valid()
    &&& to.valid()
    &&& b.at(from.spec_file(), from.spec_rank()) is Occupied
    &&& legal_dest(
        b,
        b.at(from.spec_file(), from.spec_rank())->piece,
        b.at(from.spec_file(), from.spec_rank())->color,
        from.spec_file(),
        from.spec_rank(),
        to.spec_file(),
        to.spec_rank(),
    )
}

/// A sequence of coordinates is the legal-destination set of `from`: it
/// holds exactly the legal destinations, each once.
pub open spec fn destination_list_ok(b: Board, from: Coord, v: Seq<Coord>) -> bool {
    &&& forall|c: Coord| #[trigger] v.contains(c) <==> is_destination(b, from, c)
    &&& v.no_duplicates()
}

/// A square a ray walk in direction (df, dr) may stop on: on the cast ray
/// and the grid, reached over empty squares, landing on a free square or a
/// capture.
pub open spec fn ray_dest(
    b: Board,
    c: Color,
    ff: int,
    fr: int,
    df: int,
    dr: int,
    tf: int,
    tr: int,
) -> bool {
    &&& on_ray(ff, fr, df, dr, tf, tr)
    &&& on_grid(tf, tr)
    &&& path_clear(b, ff, fr, tf, tr)
    &&& can_land(b, c, tf, tr)
}

/// Stepping once more along a ray lands one step further out: the next
/// square is on the ray, one step beyond the current one.
pub proof fn lemma_ray_step(ff: int, fr: int, df: int, dr: int, cf: int, cr: int, k: int)
    requires
        unit_dir(df, dr),
        k == 0 ==> cf == ff && cr == fr,
        k > 0 ==> on_ray(ff, fr, df, dr, cf, cr) && ray_dist(ff, fr, cf, cr) == k,
        k >= 0,
    ensures
        on_ray(ff, fr, df, dr, cf + df, cr + dr),
        ray_dist(ff, fr, cf + df, cr + dr) == k + 1,
{
}

/// Two squares on one ray at the same number of steps are the same square.
pub proof fn lemma_ray_point_unique(
    ff: int,
    fr: int,
    df: int,
    dr: int,
    f1: int,
    r1: int,
    f2: int,
    r2: int,
)
    requires
        on_ray(ff, fr, df, dr, f1, r1),
        on_ray(ff, fr, df, dr, f2, r2),
        ray_dist(ff, fr, f1, r1) == ray_dist(ff, fr, f2, r2),
    ensures
        f1 == f2 && r1 == r2,
{
}

/// Once a step of the walk leaves the grid, so does every square further
/// out on the ray.
pub proof fn lemma_ray_leaves_grid(
    ff: int,
    fr: int,
    df: int,
    dr: int,
    cf: int,
    cr: int,
    k: int,
    f: int,
    r: int,
)
    requires
        unit_dir(df, dr),
        on_grid(ff, fr),
        k == 0 ==> cf == ff && cr == fr,
        k > 0 ==> on_ray(ff, fr, df, dr, cf, cr) && ray_dist(ff, fr, cf, cr) == k,
        k >= 0,
        !on_grid(cf + df, cr + dr),
        on_ray(ff, fr, df, dr, f, r),
        ray_dist(ff, fr, f, r) > k,
    ensures
        !on_grid(f, r),
{
}

/// For a target on a ray, the squares strictly between origin and target
/// are exactly the nearer squares of the same ray.
pub proof fn lemma_between_on_ray(
    ff: int,
    fr: int,
    df: int,
    dr: int,
    tf: int,
    tr: int,
    f: int,
    r: int,
)
    requires
        on_ray(ff, fr, df, dr, tf, tr),
    ensures
        strictly_between(ff, fr, tf, tr, f, r) <==> on_ray(ff, fr, df, dr, f, r) && ray_dist(
            ff,
            fr,
            f,
            r,
        ) < ray_dist(ff, fr, tf, tr),
{
}

/// A rook line out of a square is a ray in one of the four orthogonal
/// directions, and conversely.
pub proof fn lemma_rook_rays(ff: int, fr: int, tf: int, tr: int)
    ensures
        rook_line(ff, fr, tf, tr) <==> (on_ray(ff, fr, 1, 0, tf, tr) || on_ray(
            ff,
            fr,
            -1,
            0,
            tf,
            tr,
        ) || on_ray(ff, fr, 0, 1, tf, tr) || on_ray(ff, fr, 0, -1, tf, tr)),
{
}

/// A bishop line out of a square is a ray in one of the four diagonal
/// directions, and conversely.
pub proof fn lemma_bishop_rays(ff: int, fr: int, tf: int, tr: int)
    ensures
        bishop_line(ff, fr, tf, tr) <==> (on_ray(ff, fr, 1, 1, tf, tr) || on_ray(
            ff,
            fr,
            1,
            -1,
            tf,
            tr,
        ) || on_ray(ff, fr, -1, 1, tf, tr) || on_ray(ff, fr, -1, -1, tf, tr)),
{
}

/// Membership in a pushed sequence: the new element, or an old one.
proof fn lemma_push_contains(s: Seq<Coord>, x: Coord)
    ensures
        forall|y: Coord| #[trigger] s.push(x).contains(y) <==> s.contains(y) || y == x,
{
    assert forall|y: Coord| #[trigger] s.push(x).contains(y) <==> s.contains(y) || y == x by {
        if s.push(x).contains(y) {
            let i = choose|i: int| 0 <= i < s.push(x).len() && s.push(x)[i] == y;
            if i < s.len() {
                assert(s[i] == y);
            }
        }
        if s.contains(y) {
            let i = choose|i: int| 0 <= i < s.len() && s[i] == y;
            assert(s.push(x)[i] == y);
        }
        if y == x {
            assert(s.push(x)[s.len() as int] == y);
        }
    }
}

/// Pushing an element that is not yet present keeps a sequence free of
/// duplicates.
proof fn lemma_push_no_duplicates(s: Seq<Coord>, x: Coord)
    requires
        s.no_duplicates(),
        !s.contains(x),
    ensures
        s.push(x).no_duplicates(),
{
    assert forall|i: int, j: int|
        0 <= i < s.push(x).len() && 0 <= j < s.push(x).len() && i != j implies s.push(x)[i]
        != s.push(x)[j] by {
        if i < s.len() && j < s.len() {
        } else if j == s.len() {
            assert(s.push(x)[i] == s[i]);
            if s[i] == x {
                assert(s.contains(x));
            }
        } else {
            assert(s.push(x)[j] == s[j]);
            if s[j] == x {
                assert(s.contains(x));
            }
        }
    }
}

/// Walks outward from (ff, fr) in direction (df, dr) and appends to `v`
/// every square the slider may stop on: empty squares until the first
/// obstruction, which is kept only when it holds an opposing piece.
fn push_ray(board: &Board, mover: Color, ff: i16, fr: i16, df: i16, dr: i16, v: &mut Vec<Coord>)
    requires
        board.wf(),
        on_grid(ff as int, fr as int),
        unit_dir(df as int, dr as int),
        old(v)@.no_duplicates(),
        forall|c: Coord| #[trigger]
            old(v)@.contains(c) ==> !on_ray(
                ff as int,
                fr as int,
                df as int,
                dr as int,
                c.spec_file(),
                c.spec_rank(),
            ),
    ensures
        forall|c: Coord| #[trigger]
            final(v)@.contains(c) <==> old(v)@.contains(c) || (c.valid() && ray_dest(
                *board,
                mover,
                ff as int,
                fr as int,
                df as int,
                dr as int,
                c.spec_file(),
                c.spec_rank(),
            )),
        final(v)@.no_duplicates(),
{
    let ghost ffi: int = ff as int;
    let ghost fri: int = fr as int;
    let ghost dfi: int = df as int;
    let ghost dri: int = dr as int;
    let ghost v0: Seq<Coord> = v@;
    let mut cf = ff;
    let mut cr = fr;
    let ghost mut k: int = 0;
    loop
        invariant_except_break
            forall|c: Coord| #[trigger]
                v@.contains(c) <==> v0.contains(c) || (c.valid() && on_ray(
                    ffi,
                    fri,
                    dfi,
                    dri,
                    c.spec_file(),
                    c.spec_rank(),
                ) && ray_dist(ffi, fri, c.spec_file(), c.spec_rank()) <= k),
        invariant
            board.wf(),
            on_grid(ffi, fri),
            unit_dir(dfi, dri),
            ffi == ff as int && fri == fr as int && dfi == df as int && dri == dr as int,
            v0 == old(v)@,
            forall|c: Coord| #[trigger]
                v0.contains(c) ==> !on_ray(ffi, fri, dfi, dri, c.spec_file(), c.spec_rank()),
            0 <= k <= 7,
            k == 0 ==> cf == ff && cr == fr,
            k > 0 ==> on_ray(ffi, fri, dfi, dri, cf as int, cr as int) && ray_dist(
                ffi,
                fri,
                cf as int,
                cr as int,
            ) == k,
            on_grid(cf as int, cr as int),
            forall|f: int, r: int|
                #![trigger board.at(f, r)]
                on_ray(ffi, fri, dfi, dri, f, r) && ray_dist(ffi, fri, f, r) <= k ==> board.at(
                    f,
                    r,
                ) is Empty && on_grid(f, r),
            v@.no_duplicates(),
        ensures
            forall|c: Coord| #[trigger]
                v@.contains(c) <==> v0.contains(c) || (c.valid() && ray_dest(
                    *board,
                    mover,
                    ffi,
                    fri,
                    dfi,
                    dri,
                    c.spec_file(),
                    c.spec_rank(),
                )),
            v@.no_duplicates(),
        decreases 8 - k,
    {
        let nf = cf + df;
        let nr = cr + dr;
        proof {
            lemma_ray_step(ffi, fri, dfi, dri, cf as int, cr as int, k);
        }
        if nf < 0 || nf > 7 || nr < 0 || nr > 7 {
            proof {
                assert forall|c: Coord| #[trigger]
                    v@.contains(c) <==> v0.contains(c) || (c.valid() && ray_dest(
                        *board,
                        mover,
                        ffi,
                        fri,
                        dfi,
                        dri,
                        c.spec_file(),
                        c.spec_rank(),
                    )) by {
                    let cfl = c.spec_file();
                    let crk = c.spec_rank();
                    if v@.contains(c) && !v0.contains(c) {
                        // a collected square is a stopping square
                        assert forall|f: int, r: int|
                            strictly_between(ffi, fri, cfl, crk, f, r) implies #[trigger] board.at(
                            f,
                            r,
                        ) is Empty by {
                            lemma_between_on_ray(ffi, fri, dfi, dri, cfl, crk, f, r);
                        }
                        assert(board.at(cfl, crk) is Empty);
                    }
                    if c.valid() && ray_dest(*board, mover, ffi, fri, dfi, dri, cfl, crk) {
                        // nothing beyond the walked stretch is on the grid
                        if ray_dist(ffi, fri, cfl, crk) > k {
                            lemma_ray_leaves_grid(
                                ffi,
                                fri,
                                dfi,
                                dri,
                                cf as int,
                                cr as int,
                                k,
                                cfl,
                                crk,
                            );
                        }
                    }
                }
            }
            break;
        }
        let t = board.tile_at(nf as usize, nr as usize);
        match t {
            Tile::Empty => {
                let co = Coord::from_indices(nf as u8, nr as u8);
                proof {
                    if v@.contains(co) {
                        assert(ray_dist(ffi, fri, co.spec_file(), co.spec_rank()) == k + 1);
                        assert(false);
                    }
                    lemma_push_contains(v@, co);
                    lemma_push_no_duplicates(v@, co);
                }
                v.push(co);
                cf = nf;
                cr = nr;
                proof {
                    k = k + 1;
                    assert forall|f: int, r: int|
                        #![trigger board.at(f, r)]
                        on_ray(ffi, fri, dfi, dri, f, r) && ray_dist(ffi, fri, f, r)
                            <= k implies board.at(f, r) is Empty && on_grid(f, r) by {
                        if ray_dist(ffi, fri, f, r) == k {
                            lemma_ray_point_unique(
                                ffi,
                                fri,
                                dfi,
                                dri,
                                f,
                                r,
                                cf as int,
                                cr as int,
                            );
                        }
                    }
                    assert forall|c: Coord| #[trigger]
                        v@.contains(c) <==> v0.contains(c) || (c.valid() && on_ray(
                            ffi,
                            fri,
                            dfi,
                            dri,
                            c.spec_file(),
                            c.spec_rank(),
                        ) && ray_dist(ffi, fri, c.spec_file(), c.spec_rank()) <= k) by {
                        if c.valid() && on_ray(ffi, fri, dfi, dri, c.spec_file(), c.spec_rank())
                            && ray_dist(ffi, fri, c.spec_file(), c.spec_rank()) == k {
                            lemma_ray_point_unique(
                                ffi,
                                fri,
                                dfi,
                                dri,
                                c.spec_file(),
                                c.spec_rank(),
                                cf as int,
                                cr as int,
                            );
                            crate::coord::lemma_coord_ext(c, co);
                        }
                    }
                }
            },
            Tile::Occupied { piece: _, color } => {
                let ghost nfi: int = nf as int;
                let ghost nri: int = nr as int;
                let co = Coord::from_indices(nf as u8, nr as u8);
                if color != mover {
                    proof {
                        if v@.contains(co) {
                            assert(ray_dist(ffi, fri, co.spec_file(), co.spec_rank()) == k + 1);
                            assert(false);
                        }
                        lemma_push_contains(v@, co);
                        lemma_push_no_duplicates(v@, co);
                    }
                    v.push(co);
                }
                proof {
                    let stop: int = if color != mover {
                        k + 1
                    } else {
                        k
                    };
                    assert forall|c: Coord| #[trigger]
                        v@.contains(c) <==> v0.contains(c) || (c.valid() && ray_dest(
                            *board,
                            mover,
                            ffi,
                            fri,
                            dfi,
                            dri,
                            c.spec_file(),
                            c.spec_rank(),
                        )) by {
                        let cfl = c.spec_file();
                        let crk = c.spec_rank();
                        if c.valid() && v@.contains(c) && !v0.contains(c) {
                            // every kept square is reached over empty squares
                            assert(on_ray(ffi, fri, dfi, dri, cfl, crk) && ray_dist(
                                ffi,
                                fri,
                                cfl,
                                crk,
                            ) <= stop);
                            assert forall|f: int, r: int|
                                strictly_between(ffi, fri, cfl, crk, f, r) implies #[trigger] board
                                .at(f, r) is Empty by {
                                lemma_between_on_ray(ffi, fri, dfi, dri, cfl, crk, f, r);
                            }
                            if ray_dist(ffi, fri, cfl, crk) == k + 1 {
                                lemma_ray_point_unique(ffi, fri, dfi, dri, cfl, crk, nfi, nri);
                            }
                        }
                        if c.valid() && ray_dest(*board, mover, ffi, fri, dfi, dri, cfl, crk) {
                            let d = ray_dist(ffi, fri, cfl, crk);
                            if d > k + 1 {
                                // the occupied square blocks everything beyond it
                                lemma_between_on_ray(ffi, fri, dfi, dri, cfl, crk, nfi, nri);
                                assert(strictly_between(ffi, fri, cfl, crk, nfi, nri));
                                assert(!(board.at(nfi, nri) is Empty));
                                assert(false);
                            } else if d == k + 1 {
                                lemma_ray_point_unique(ffi, fri, dfi, dri, cfl, crk, nfi, nri);
                                assert(board.at(cfl, crk) == board.at(nfi, nri));
                                if color == mover {
                                    assert(!can_land(*board, mover, cfl, crk));
                                    assert(false);
                                } else {
                                    crate::coord::lemma_coord_ext(c, co);
                                }
                            }
                        }
                    }
                }
                break;
            },
        }
    }
}

/// Appends the single candidate square (ff + df, fr + dr) when it is on
/// the grid and empty or held by the opposing color: one candidate of a
/// short-range jumper.
fn push_jump(board: &Board, mover: Color, ff: i16, fr: i16, df: i16, dr: i16, v: &mut Vec<Coord>)
    requires
        board.wf(),
        on_grid(ff as int, fr as int),
        -2 <= df as int <= 2,
        -2 <= dr as int <= 2,
        old(v)@.no_duplicates(),
        forall|c: Coord| #[trigger]
            old(v)@.contains(c) ==> !(c.spec_file() == ff as int + df as int && c.spec_rank()
                == fr as int + dr as int),
    ensures
        forall|c: Coord| #[trigger]
            final(v)@.contains(c) <==> old(v)@.contains(c) || (c.valid() && c.spec_file()
                == ff as int + df as int && c.spec_rank() == fr as int + dr as int && on_grid(
                ff as int + df as int,
                fr as int + dr as int,
            ) && can_land(*board, mover, ff as int + df as int, fr as int + dr as int)),
        final(v)@.no_duplicates(),
{
    let nf = ff + df;
    let nr = fr + dr;
    if 0 <= nf && nf < 8 && 0 <= nr && nr < 8 {
        let keep = match board.tile_at(nf as usize, nr as usize) {
            Tile::Empty => true,
            Tile::Occupied { piece: _, color } => color != mover,
        };
        if keep {
            let co = Coord::from_indices(nf as u8, nr as u8);
            proof {
                lemma_push_contains(v@, co);
                lemma_push_no_duplicates(v@, co);
            }
            v.push(co);
            proof {
                assert forall|c: Coord| #[trigger]
                    v@.contains(c) <==> old(v)@.contains(c) || (c.valid() && c.spec_file()
                        == ff as int + df as int && c.spec_rank() == fr as int + dr as int
                        && on_grid(ff as int + df as int, fr as int + dr as int) && can_land(
                        *board,
                        mover,
                        ff as int + df as int,
                        fr as int + dr as int,
                    )) by {
                    if c.valid() && c.spec_file() == ff as int + df as int && c.spec_rank()
                        == fr as int + dr as int {
                        crate::coord::lemma_coord_ext(c, co);
                    }
                }
            }
        }
    }
}

/// The destinations of a knight standing on (ff, fr): the eight
/// one-by-two jump candidates that land on the grid, on an empty square or
/// a capture.
fn knight_moves(board: &Board, mover: Color, ff: i16, fr: i16) -> (v: Vec<Coord>)
    requires
        board.wf(),
        on_grid(ff as int, fr as int),
    ensures
        forall|c: Coord| #[trigger]
            v@.contains(c) <==> c.valid() && legal_dest(
                *board,
                Piece::Knight,
                mover,
                ff as int,
                fr as int,
                c.spec_file(),
                c.spec_rank(),
            ),
        v@.no_duplicates(),
{
    let mut v: Vec<Coord> = Vec::new();
    push_jump(board, mover, ff, fr, 1, 2, &mut v);
    push_jump(board, mover, ff, fr, 2, 1, &mut v);
    push_jump(board, mover, ff, fr, 2, -1, &mut v);
    push_jump(board, mover, ff, fr, 1, -2, &mut v);
    push_jump(board, mover, ff, fr, -1, -2, &mut v);
    push_jump(board, mover, ff, fr, -2, -1, &mut v);
    push_jump(board, mover, ff, fr, -2, 1, &mut v);
    push_jump(board, mover, ff, fr, -1, 2, &mut v);
    v
}

/// The destinations of a king standing on (ff, fr): the eight adjacent
/// squares that lie on the grid, empty or held by the opposing color.
fn king_moves(board: &Board, mover: Color, ff: i16, fr: i16) -> (v: Vec<Coord>)
    requires
        board.wf(),
        on_grid(ff as int, fr as int),
    ensures
        forall|c: Coord| #[trigger]
            v@.contains(c) <==> c.valid() && legal_dest(
                *board,
                Piece::King,
                mover,
                ff as int,
                fr as int,
                c.spec_file(),
                c.spec_rank(),
            ),
        v@.no_duplicates(),
{
    let mut v: Vec<Coord> = Vec::new();
    push_jump(board, mover, ff, fr, 1, 0, &mut v);
    push_jump(board, mover, ff, fr, 1, 1, &mut v);
    push_jump(board, mover, ff, fr, 0, 1, &mut v);
    push_jump(board, mover, ff, fr, -1, 1, &mut v);
    push_jump(board, mover, ff, fr, -1, 0, &mut v);
    push_jump(board, mover, ff, fr, -1, -1, &mut v);
    push_jump(board, mover, ff, fr, 0, -1, &mut v);
    push_jump(board, mover, ff, fr, 1, -1, &mut v);
    v
}

/// The destinations of a rook standing on (ff, fr): the four orthogonal
/// rays, each walked until blocked.
fn rook_moves(board: &Board, mover: Color, ff: i16, fr: i16) -> (v: Vec<Coord>)
    requires
        board.wf(),
        on_grid(ff as int, fr as int),
    ensures
        forall|c: Coord| #[trigger]
            v@.contains(c) <==> c.valid() && legal_dest(
                *board,
                Piece::Rook,
                mover,
                ff as int,
                fr as int,
                c.spec_file(),
                c.spec_rank(),
            ),
        v@.no_duplicates(),
{
    let mut v: Vec<Coord> = Vec::new();
    push_ray(board, mover, ff, fr, 1, 0, &mut v);
    push_ray(board, mover, ff, fr, -1, 0, &mut v);
    push_ray(board, mover, ff, fr, 0, 1, &mut v);
    push_ray(board, mover, ff, fr, 0, -1, &mut v);
    proof {
        assert forall|c: Coord| #[trigger]
            v@.contains(c) <==> c.valid() && legal_dest(
                *board,
                Piece::Rook,
                mover,
                ff as int,
                fr as int,
                c.spec_file(),
                c.spec_rank(),
            ) by {
            lemma_rook_rays(ff as int, fr as int, c.spec_file(), c.spec_rank());
        }
    }
    v
}

/// The destinations of a bishop standing on (ff, fr): the four diagonal
/// rays, each walked until blocked.
fn bishop_moves(board: &Board, mover: Color, ff: i16, fr: i16) -> (v: Vec<Coord>)
    requires
        board.wf(),
        on_grid(ff as int, fr as int),
    ensures
        forall|c: Coord| #[trigger]
            v@.contains(c) <==> c.valid() && legal_dest(
                *board,
                Piece::Bishop,
                mover,
                ff as int,
                fr as int,
                c.spec_file(),
                c.spec_rank(),
            ),
        v@.no_duplicates(),
{
    let mut v: Vec<Coord> = Vec::new();
    push_ray(board, mover, ff, fr, 1, 1, &mut v);
    push_ray(board, mover, ff, fr, 1, -1, &mut v);
    push_ray(board, mover, ff, fr, -1, 1, &mut v);
    push_ray(board, mover, ff, fr, -1, -1, &mut v);
    proof {
        assert forall|c: Coord| #[trigger]
            v@.contains(c) <==> c.valid() && legal_dest(
                *board,
                Piece::Bishop,
                mover,
                ff as int,
                fr as int,
                c.spec_file(),
                c.spec_rank(),
            ) by {
            lemma_bishop_rays(ff as int, fr as int, c.spec_file(), c.spec_rank());
        }
    }
    v
}

/// The destinations of a queen standing on (ff, fr): the union of the
/// rook's and the bishop's rays.
fn queen_moves(board: &Board, mover: Color, ff: i16, fr: i16) -> (v: Vec<Coord>)
    requires
        board.wf(),
        on_grid(ff as int, fr as int),
    ensures
        forall|c: Coord| #[trigger]
            v@.contains(c) <==> c.valid() && legal_dest(
                *board,
                Piece::Queen,
                mover,
                ff as int,
                fr as int,
                c.spec_file(),
                c.spec_rank(),
            ),
        v@.no_duplicates(),
{
    let mut v: Vec<Coord> = Vec::new();
    push_ray(board, mover, ff, fr, 1, 0, &mut v);
    push_ray(board, mover, ff, fr, -1, 0, &mut v);
    push_ray(board, mover, ff, fr, 0, 1, &mut v);
    push_ray(board, mover, ff, fr, 0, -1, &mut v);
    push_ray(board, mover, ff, fr, 1, 1, &mut v);
    push_ray(board, mover, ff, fr, 1, -1, &mut v);
    push_ray(board, mover, ff, fr, -1, 1, &mut v);
    push_ray(board, mover, ff, fr, -1, -1, &mut v);
    proof {
        assert forall|c: Coord| #[trigger]
            v@.contains(c) <==> c.valid() && legal_dest(
                *board,
                Piece::Queen,
                mover,
                ff as int,
                fr as int,
                c.spec_file(),
                c.spec_rank(),
            ) by {
            lemma_rook_rays(ff as int, fr as int, c.spec_file(), c.spec_rank());
            lemma_bishop_rays(ff as int, fr as int, c.spec_file(), c.spec_rank());
        }
    }
    v
}

/// The destinations of a pawn standing on (ff, fr): the forward square
/// when empty, and the two forward diagonals when held by the opposing
/// color.
fn pawn_moves(board: &Board, mover: Color, ff: i16, fr: i16) -> (v: Vec<Coord>)
    requires
        board.wf(),
        on_grid(ff as int, fr as int),
    ensures
        forall|c: Coord| #[trigger]
            v@.contains(c) <==> c.valid() && legal_dest(
                *board,
                Piece::Pawn,
                mover,
                ff as int,
                fr as int,
                c.spec_file(),
                c.spec_rank(),
            ),
        v@.no_duplicates(),
{
    let dir: i16 = match mover {
        Color::White => 1,
        Color::Black => -1,
    };
    proof {
        assert(dir as int == pawn_dir(mover));
    }
    let ghost ffi: int = ff as int;
    let mut v: Vec<Coord> = Vec::new();
    let nr = fr + dir;
    let ghost nri: int = nr as int;
    if 0 <= nr && nr < 8 {
        match board.tile_at(ff as usize, nr as usize) {
            Tile::Empty => {
                let co = Coord::from_indices(ff as u8, nr as u8);
                proof {
                    lemma_push_contains(v@, co);
                    lemma_push_no_duplicates(v@, co);
                }
                v.push(co);
                proof {
                    assert forall|c: Coord| #[trigger]
                        v@.contains(c) <==> c.valid() && c.spec_file() == ffi && c.spec_rank()
                            == nri by {
                        if c.valid() && c.spec_file() == ffi && c.spec_rank() == nri {
                            crate::coord::lemma_coord_ext(c, co);
                        }
                    }
                }
            },
            Tile::Occupied { .. } => {},
        }
        if ff >= 1 {
            let ghost vp: Seq<Coord> = v@;
            match board.tile_at((ff - 1) as usize, nr as usize) {
                Tile::Occupied { piece: _, color } => {
                    if color != mover {
                        let co = Coord::from_indices((ff - 1) as u8, nr as u8);
                        proof {
                            lemma_push_contains(v@, co);
                            lemma_push_no_duplicates(v@, co);
                        }
                        v.push(co);
                        proof {
                            assert forall|c: Coord| #[trigger]
                                v@.contains(c) <==> vp.contains(c) || (c.valid() && c.spec_file()
                                    == ffi - 1 && c.spec_rank() == nri) by {
                                if c.valid() && c.spec_file() == ffi - 1 && c.spec_rank() == nri {
                                    crate::coord::lemma_coord_ext(c, co);
                                }
                            }
                        }
                    }
                },
                Tile::Empty => {},
            }
        }
        if ff <= 6 {
            let ghost vp: Seq<Coord> = v@;
            match board.tile_at((ff + 1) as usize, nr as usize) {
                Tile::Occupied { piece: _, color } => {
                    if color != mover {
                        let co = Coord::from_indices((ff + 1) as u8, nr as u8);
                        proof {
                            lemma_push_contains(v@, co);
                            lemma_push_no_duplicates(v@, co);
                        }
                        v.push(co);
                        proof {
                            assert forall|c: Coord| #[trigger]
                                v@.contains(c) <==> vp.contains(c) || (c.valid() && c.spec_file()
                                    == ffi + 1 && c.spec_rank() == nri) by {
                                if c.valid() && c.spec_file() == ffi + 1 && c.spec_rank() == nri {
                                    crate::coord::lemma_coord_ext(c, co);
                                }
                            }
                        }
                    }
                },
                Tile::Empty => {},
            }
        }
    }
    proof {
        assert forall|c: Coord| #[trigger]
            v@.contains(c) <==> c.valid() && legal_dest(
                *board,
                Piece::Pawn,
                mover,
                ff as int,
                fr as int,
                c.spec_file(),
                c.spec_rank(),
            ) by {}
    }
    v
}

/// Computes the legal destination squares of the piece standing on `from`.
/// Fails with `OutOfBounds` when `from` is off the grid and with
/// `EmptySource` when the square holds no piece — so a caller can tell "no
/// piece to move" from "piece with no moves". Otherwise the returned
/// vector holds exactly the legal destinations, each once, in an
/// unspecified order. The board is only read, and whose turn it is plays
/// no part here.
pub fn legal_destinations(board: &Board, from: Coord) -> (r: Result<Vec<Coord>, Error>)
    requires
        board.wf(),
    ensures
        !from.valid() ==> r == Err::<Vec<Coord>, Error>(Error::OutOfBounds),
        from.valid() && board.at(from.spec_file(), from.spec_rank()) is Empty ==> r == Err::<
            Vec<Coord>,
            Error,
        >(Error::EmptySource),
        from.valid() && board.at(from.spec_file(), from.spec_rank()) is Occupied ==> r is Ok
            && destination_list_ok(*board, from, r->Ok_0@),
{
    let t = match board.get_tile(from) {
        Ok(t) => t,
        Err(_) => {
            return Err(Error::OutOfBounds);
        },
    };
    match t {
        Tile::Empty => Err(Error::EmptySource),
        Tile::Occupied { piece, color } => {
            let ff = from.file() as i16;
            let fr = from.rank() as i16;
            let v = match piece {
                Piece::Rook => rook_moves(board, color, ff, fr),
                Piece::Knight => knight_moves(board, color, ff, fr),
                Piece::Bishop => bishop_moves(board, color, ff, fr),
                Piece::King => king_moves(board, color, ff, fr),
                Piece::Queen => queen_moves(board, color, ff, fr),
                Piece::Pawn => pawn_moves(board, color, ff, fr),
            };
            Ok(v)
        },
    }
}

/// Generation is deterministic: two vectors that both satisfy the
/// legal-destination characterization for one board and origin hold the
/// same set of squares, whatever their order. Querying twice without a
/// mutation in between thus yields identical sets.
pub proof fn lemma_destinations_deterministic(b: Board, from: Coord, v1: Seq<Coord>, v2: Seq<Coord>)
    requires
        destination_list_ok(b, from, v1),
        destination_list_ok(b, from, v2),
    ensures
        v1.to_set() == v2.to_set(),
{
    assert(v1.to_set() =~= v2.to_set());
}

/// A destination never coincides with the origin square.
pub proof fn lemma_dest_differs(b: Board, p: Piece, c: Color, ff: int, fr: int, tf: int, tr: int)
    requires
        legal_dest(b, p, c, ff, fr, tf, tr),
    ensures
        !(tf == ff && tr == fr),
{
}

/// A piece standing immediately adjacent on a ray decides the whole
/// direction: an own-color neighbor leaves no destination on the ray at
/// all, while an opposing neighbor leaves exactly one — the capture on it
/// — and nothing beyond.
pub proof fn lemma_blocked_ray(b: Board, mover: Color, ff: int, fr: int, df: int, dr: int)
    requires
        on_grid(ff, fr),
        unit_dir(df, dr),
        on_grid(ff + df, fr + dr),
        b.at(ff + df, fr + dr) is Occupied,
    ensures
        b.at(ff + df, fr + dr)->color == mover ==> forall|tf: int, tr: int| #[trigger]
            ray_dest(b, mover, ff, fr, df, dr, tf, tr) == false,
        b.at(ff + df, fr + dr)->color != mover ==> forall|tf: int, tr: int| #[trigger]
            ray_dest(b, mover, ff, fr, df, dr, tf, tr) <==> (tf == ff + df && tr == fr + dr),
{
    lemma_ray_step(ff, fr, df, dr, ff, fr, 0);
    assert forall|tf: int, tr: int|
        on_ray(ff, fr, df, dr, tf, tr) implies (ray_dest(b, mover, ff, fr, df, dr, tf, tr) <==> (
    b.at(ff + df, fr + dr)->color != mover && tf == ff + df && tr == fr + dr)) by {
        let d = ray_dist(ff, fr, tf, tr);
        if d == 1 {
            lemma_ray_point_unique(ff, fr, df, dr, tf, tr, ff + df, fr + dr);
            assert forall|f: int, r: int|
                strictly_between(ff, fr, tf, tr, f, r) implies #[trigger] b.at(f, r) is Empty by {
                lemma_between_on_ray(ff, fr, df, dr, tf, tr, f, r);
            }
        } else {
            lemma_between_on_ray(ff, fr, df, dr, tf, tr, ff + df, fr + dr);
            assert(strictly_between(ff, fr, tf, tr, ff + df, fr + dr));
            assert(!(b.at(ff + df, fr + dr) is Empty));
            assert(!path_clear(b, ff, fr, tf, tr));
        }
    }
}

} // verus!
