use chess::Board;
use chess::Color;
use chess::Coord;
use chess::Error;
use chess::GameState;

fn layout_with(pieces: &[(&str, char, char)]) -> String {
    let mut tokens = vec!["-".to_string(); 64];
    for (square, piece, color) in pieces {
        let bytes = square.as_bytes();
        let file = (bytes[0] - b'a') as usize;
        let rank = (bytes[1] - b'1') as usize;
        tokens[(7 - rank) * 8 + file] = format!("{}({})", piece, color);
    }
    tokens.join(",")
}

fn board_with(pieces: &[(&str, char, char)]) -> Board {
    Board::init_from_string(&layout_with(pieces)).unwrap()
}

fn coord(square: &str) -> Coord {
    Coord::init_from_string(Some(square)).unwrap()
}

fn game_with(pieces: &[(&str, char, char)]) -> GameState {
    GameState::init(&Color::White, board_with(pieces))
}

fn destinations(game: &GameState, square: &str) -> Vec<Coord> {
    game.get_legal_moves(coord(square)).unwrap()
}

#[test]
fn rook_on_open_board_has_14_destinations() {
    let game = game_with(&[("d4", 'r', 'w')]);
    let moves = destinations(&game, "d4");
    assert_eq!(moves.len(), 14);
    for s in ["d1", "d8", "a4", "h4", "d5", "c4"] {
        assert!(moves.contains(&coord(s)), "missing {}", s);
    }
    assert!(!moves.contains(&coord("e5")));
    assert!(!moves.contains(&coord("d4")));
}

#[test]
fn rook_blocked_by_own_piece_loses_the_direction() {
    // own pawns right next to the rook shut both open directions down
    let game = game_with(&[("a1", 'r', 'w'), ("a2", 'p', 'w'), ("b1", 'p', 'w')]);
    let moves = destinations(&game, "a1");
    assert_eq!(moves.len(), 0);
}

#[test]
fn rook_blocked_by_enemy_piece_keeps_only_the_capture() {
    let game = game_with(&[("a1", 'r', 'w'), ("a2", 'p', 'b'), ("b1", 'p', 'b')]);
    let moves = destinations(&game, "a1");
    assert_eq!(moves.len(), 2);
    assert!(moves.contains(&coord("a2")));
    assert!(moves.contains(&coord("b1")));
    // nothing beyond the adjacent obstruction
    assert!(!moves.contains(&coord("a3")));
    assert!(!moves.contains(&coord("c1")));
}

#[test]
fn rook_ray_stops_at_a_distant_blocker_too() {
    let game = game_with(&[("a1", 'r', 'w'), ("a5", 'p', 'b')]);
    let moves = destinations(&game, "a1");
    // up: a2 a3 a4 and the capture a5; right: b1..h1
    assert_eq!(moves.len(), 11);
    assert!(moves.contains(&coord("a5")));
    assert!(!moves.contains(&coord("a6")));
}

#[test]
fn knight_in_the_corner_has_2_destinations_and_8_in_the_open() {
    let corner = game_with(&[("a1", 'n', 'w')]);
    let moves = destinations(&corner, "a1");
    assert_eq!(moves.len(), 2);
    assert!(moves.contains(&coord("b3")));
    assert!(moves.contains(&coord("c2")));

    let open = game_with(&[("d4", 'n', 'w')]);
    let moves = destinations(&open, "d4");
    assert_eq!(moves.len(), 8);
    for s in ["b3", "b5", "c2", "c6", "e2", "e6", "f3", "f5"] {
        assert!(moves.contains(&coord(s)), "missing {}", s);
    }
}

#[test]
fn knight_jumps_over_pieces_but_not_onto_its_own() {
    let game = game_with(&[
        ("a1", 'n', 'w'),
        ("a2", 'p', 'w'),
        ("b1", 'p', 'w'),
        ("b2", 'p', 'w'),
        ("b3", 'p', 'w'),
        ("c2", 'p', 'b'),
    ]);
    let moves = destinations(&game, "a1");
    assert_eq!(moves.len(), 1);
    assert!(moves.contains(&coord("c2")));
}

#[test]
fn white_pawn_advances_one_square_and_captures_diagonally() {
    // e3 empty, no enemy on d3 or f3: exactly the single forward step
    let quiet = game_with(&[("e2", 'p', 'w')]);
    let moves = destinations(&quiet, "e2");
    assert_eq!(moves.len(), 1);
    assert!(moves.contains(&coord("e3")));

    // an enemy on f3 adds the capture
    let capture = game_with(&[("e2", 'p', 'w'), ("f3", 'n', 'b')]);
    let moves = destinations(&capture, "e2");
    assert_eq!(moves.len(), 2);
    assert!(moves.contains(&coord("e3")));
    assert!(moves.contains(&coord("f3")));
}

#[test]
fn pawn_neither_captures_forward_nor_moves_diagonally_onto_empty() {
    // forward square held by an enemy: blocked, not a capture
    let blocked = game_with(&[("e2", 'p', 'w'), ("e3", 'n', 'b')]);
    assert_eq!(destinations(&blocked, "e2").len(), 0);

    // own piece ahead blocks as well
    let own = game_with(&[("e2", 'p', 'w'), ("e3", 'n', 'w')]);
    assert_eq!(destinations(&own, "e2").len(), 0);
}

#[test]
fn black_pawn_moves_toward_rank_1() {
    let game = GameState::init(
        &Color::Black,
        board_with(&[("e7", 'p', 'b'), ("d6", 'n', 'w')]),
    );
    let moves = destinations(&game, "e7");
    assert_eq!(moves.len(), 2);
    assert!(moves.contains(&coord("e6")));
    assert!(moves.contains(&coord("d6")));
}

#[test]
fn bishop_and_queen_and_king_counts_on_open_board() {
    let bishop = game_with(&[("d4", 'b', 'w')]);
    assert_eq!(destinations(&bishop, "d4").len(), 13);

    let queen = game_with(&[("d4", 'q', 'w')]);
    assert_eq!(destinations(&queen, "d4").len(), 27);

    let king = game_with(&[("d4", 'k', 'w')]);
    assert_eq!(destinations(&king, "d4").len(), 8);

    let cornered_king = game_with(&[("a1", 'k', 'w')]);
    assert_eq!(destinations(&cornered_king, "a1").len(), 3);
}

#[test]
fn bishop_stays_on_its_diagonals_and_stops_at_blockers() {
    let game = game_with(&[("c1", 'b', 'w'), ("e3", 'p', 'w'), ("a3", 'p', 'b')]);
    let moves = destinations(&game, "c1");
    assert_eq!(moves.len(), 3);
    assert!(moves.contains(&coord("b2")));
    assert!(moves.contains(&coord("a3")));
    assert!(moves.contains(&coord("d2")));
    assert!(!moves.contains(&coord("e3")));
    assert!(!moves.contains(&coord("f4")));
}

#[test]
fn empty_source_and_off_board_queries_fail() {
    let game = game_with(&[("a1", 'r', 'w')]);
    assert_eq!(game.get_legal_moves(coord("e5")).err(), Some(Error::EmptySource));
}

#[test]
fn querying_twice_without_mutation_yields_identical_sets() {
    let game = game_with(&[("d4", 'q', 'w'), ("d6", 'p', 'b'), ("b2", 'n', 'w')]);
    let first = destinations(&game, "d4");
    let second = destinations(&game, "d4");
    assert_eq!(first.len(), second.len());
    for c in &first {
        assert!(second.contains(c));
    }
    for c in &second {
        assert!(first.contains(c));
    }
}

#[test]
fn generated_destinations_hold_no_duplicates() {
    let game = game_with(&[("d4", 'q', 'w')]);
    let moves = destinations(&game, "d4");
    for (i, a) in moves.iter().enumerate() {
        for b in moves.iter().skip(i + 1) {
            assert_ne!(a, b);
        }
    }
}
