use chess::Board;
use chess::Color;
use chess::Coord;
use chess::Error;
use chess::Piece;
use chess::Tile;

/// Every on-grid coordinate survives the round trip through its notation.
#[test]
fn notation_round_trips_for_all_64_squares() {
    for file in 0..8usize {
        for rank in 0..8usize {
            let c = Coord::init(file, rank).unwrap();
            let s = c.format();
            let back = Coord::init_from_string(Some(&s)).unwrap();
            assert_eq!(back, c);
            assert_eq!(back.file(), file);
            assert_eq!(back.rank(), rank);
        }
    }
}

#[test]
fn format_spells_the_usual_names() {
    assert_eq!(Coord::init(0, 0).unwrap().format(), "a1");
    assert_eq!(Coord::init(4, 3).unwrap().format(), "e4");
    assert_eq!(Coord::init(7, 7).unwrap().format(), "h8");
}

#[test]
fn parse_rejects_wrong_lengths_and_ranges() {
    let bad = ["", "a", "a12", "e44", "i1", "a0", "a9", "z9", "11", "aa", "4e", " e4", "e4 "];
    for s in bad {
        assert_eq!(Coord::init_from_string(Some(s)), Err(Error::InvalidNotation), "input {:?}", s);
    }
    assert_eq!(Coord::init_from_string(None), Err(Error::InvalidNotation));
}

#[test]
fn parse_accepts_the_corners() {
    let a1 = Coord::init_from_string(Some("a1")).unwrap();
    assert_eq!((a1.file(), a1.rank()), (0, 0));
    let h8 = Coord::init_from_string(Some("h8")).unwrap();
    assert_eq!((h8.file(), h8.rank()), (7, 7));
    let h1 = Coord::init_from_string(Some("h1")).unwrap();
    assert_eq!((h1.file(), h1.rank()), (7, 0));
}

#[test]
fn raw_indices_are_revalidated() {
    assert!(Coord::init(7, 7).is_ok());
    assert_eq!(Coord::init(8, 0), Err(Error::OutOfBounds));
    assert_eq!(Coord::init(0, 8), Err(Error::OutOfBounds));
    assert_eq!(Coord::init(100, 100), Err(Error::OutOfBounds));
}

#[test]
fn tile_tokens_decode_and_malformed_ones_fail() {
    assert!(Tile::init_from_string("-").unwrap().is_empty());
    assert_eq!(
        Tile::init_from_string("r(w)").unwrap().piece(),
        Some((Piece::Rook, Color::White))
    );
    assert_eq!(
        Tile::init_from_string("n(b)").unwrap().piece(),
        Some((Piece::Knight, Color::Black))
    );
    assert_eq!(
        Tile::init_from_string("q(w)").unwrap().piece(),
        Some((Piece::Queen, Color::White))
    );
    assert_eq!(
        Tile::init_from_string("k(b)").unwrap().piece(),
        Some((Piece::King, Color::Black))
    );
    assert_eq!(
        Tile::init_from_string("b(w)").unwrap().piece(),
        Some((Piece::Bishop, Color::White))
    );
    assert_eq!(
        Tile::init_from_string("p(b)").unwrap().piece(),
        Some((Piece::Pawn, Color::Black))
    );
    for bad in ["", "r", "x(w)", "r(x)", "r w)", "r(w ", "--", "rw()", "r(w))"] {
        assert_eq!(
            Tile::init_from_string(bad).err(),
            Some(Error::MalformedLayout),
            "token {:?}",
            bad
        );
    }
}

#[test]
fn tile_constructors_expose_their_state() {
    assert!(Tile::empty().is_empty());
    assert_eq!(Tile::empty().piece(), None);
    let t = Tile::occupied(Piece::Bishop, Color::Black);
    assert!(!t.is_empty());
    assert_eq!(t.piece(), Some((Piece::Bishop, Color::Black)));
}

#[test]
fn layout_needs_exactly_64_well_formed_tokens() {
    let ok = vec!["-"; 64].join(",");
    assert!(Board::init_from_string(&ok).is_ok());
    let short = vec!["-"; 63].join(",");
    assert_eq!(Board::init_from_string(&short).err(), Some(Error::MalformedLayout));
    let long = vec!["-"; 65].join(",");
    assert_eq!(Board::init_from_string(&long).err(), Some(Error::MalformedLayout));
    let mut tokens = vec!["-".to_string(); 64];
    tokens[10] = "r(q)".to_string();
    assert_eq!(
        Board::init_from_string(&tokens.join(",")).err(),
        Some(Error::MalformedLayout)
    );
}

#[test]
fn layout_tokens_may_be_padded_with_white_space() {
    let mut tokens = vec!["-".to_string(); 64];
    tokens[56] = "r(w)".to_string();
    let padded = tokens
        .iter()
        .map(|t| format!(" {}\n", t))
        .collect::<Vec<_>>()
        .join(",");
    let board = Board::init_from_string(&padded).unwrap();
    let a1 = Coord::init_from_string(Some("a1")).unwrap();
    assert_eq!(
        board.get_tile(a1).unwrap().piece(),
        Some((Piece::Rook, Color::White))
    );
}

#[test]
fn layout_is_read_rank_8_first() {
    let mut tokens = vec!["-".to_string(); 64];
    tokens[0] = "k(b)".to_string();  // first token is a8
    tokens[63] = "k(w)".to_string();  // last token is h1
    let board = Board::init_from_string(&tokens.join(",")).unwrap();
    let a8 = Coord::init_from_string(Some("a8")).unwrap();
    let h1 = Coord::init_from_string(Some("h1")).unwrap();
    assert_eq!(board.get_tile(a8).unwrap().piece(), Some((Piece::King, Color::Black)));
    assert_eq!(board.get_tile(h1).unwrap().piece(), Some((Piece::King, Color::White)));
}

#[test]
fn fresh_board_is_entirely_empty() {
    let board = Board::init();
    for file in 0..8usize {
        for rank in 0..8usize {
            let c = Coord::init(file, rank).unwrap();
            assert!(board.get_tile(c).unwrap().is_empty());
        }
    }
}

#[test]
fn set_tile_replaces_one_square() {
    let mut board = Board::init();
    let e4 = Coord::init_from_string(Some("e4")).unwrap();
    board
        .set_tile(e4, Tile::occupied(Piece::Pawn, Color::White))
        .unwrap();
    assert_eq!(
        board.get_tile(e4).unwrap().piece(),
        Some((Piece::Pawn, Color::White))
    );
    let d4 = Coord::init_from_string(Some("d4")).unwrap();
    assert!(board.get_tile(d4).unwrap().is_empty());
    board.set_tile(e4, Tile::empty()).unwrap();
    assert!(board.get_tile(e4).unwrap().is_empty());
}
