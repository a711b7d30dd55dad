use chess::Board;
use chess::Color;
use chess::Coord;
use chess::Error;
use chess::GameState;

/// Builds the layout string of a board holding the given pieces, every
/// other square empty. Each entry is (notation, piece letter, color
/// letter), e.g. ("a1", 'r', 'w').
fn layout_with(pieces: &[(&str, char, char)]) -> String {
    let mut tokens = vec!["-".to_string(); 64];
    for (square, piece, color) in pieces {
        let bytes = square.as_bytes();
        let file = (bytes[0] - b'a') as usize;
        let rank = (bytes[1] - b'1') as usize;
        tokens[(7 - rank) * 8 + file] = format!("{}({})", piece, color);
    }
    tokens.join(",")
}

fn board_with(pieces: &[(&str, char, char)]) -> Board {
    Board::init_from_string(&layout_with(pieces)).unwrap()
}

fn coord(square: &str) -> Coord {
    Coord::init_from_string(Some(square)).unwrap()
}

/// A white rook alone on a1 must not reach e4.
#[test]
fn test_illegal_rook_move() -> Result<(), String> {
    let mut game_state = GameState::init(&Color::White, board_with(&[("a1", 'r', 'w')]));
    let first_coord = Coord::init_from_string(Some("a1")).unwrap();
    let second_coord = Coord::init_from_string(Some("e4")).unwrap();
    match game_state.move_piece(first_coord, second_coord) {
        Err(_yikes) => Ok(()),
        Ok(_pog) => Err("Should error".to_string()),
    }
}

#[test]
fn move_from_empty_square_is_empty_source() {
    let mut game = GameState::init(&Color::White, board_with(&[("a1", 'r', 'w')]));
    assert_eq!(game.move_piece(coord("b2"), coord("b3")), Err(Error::EmptySource));
    // the failed attempt left the state untouched
    assert_eq!(game.turn, Color::White);
    assert!(game.board.get_tile(coord("a1")).unwrap().piece().is_some());
}

#[test]
fn moving_the_opponents_piece_is_wrong_turn() {
    // the move itself is legal, but the rook is black and White is to move
    let mut game = GameState::init(&Color::White, board_with(&[("a1", 'r', 'b')]));
    assert_eq!(game.move_piece(coord("a1"), coord("a4")), Err(Error::WrongTurn));
    assert_eq!(game.turn, Color::White);
}

#[test]
fn illegal_destination_is_illegal_move() {
    let mut game = GameState::init(&Color::White, board_with(&[("a1", 'r', 'w')]));
    assert_eq!(game.move_piece(coord("a1"), coord("b2")), Err(Error::IllegalMove));
}

#[test]
fn successful_move_updates_exactly_two_squares_and_flips_turn() {
    let pieces = [("d4", 'r', 'w'), ("d7", 'p', 'b'), ("g4", 'n', 'w'), ("a8", 'k', 'b')];
    let before = board_with(&pieces);
    let mut game = GameState::init(&Color::White, board_with(&pieces));
    assert_eq!(game.move_piece(coord("d4"), coord("d7")), Ok(()));
    assert_eq!(game.turn, Color::Black);
    assert!(game.in_progress);
    for file in 0..8usize {
        for rank in 0..8usize {
            let c = Coord::init(file, rank).unwrap();
            let now = game.board.get_tile(c).unwrap();
            let was = before.get_tile(c).unwrap();
            if file == 3 && rank == 3 {
                // the source square is cleared
                assert!(now.is_empty());
            } else if file == 3 && rank == 6 {
                // the destination holds the moved rook, the pawn is gone
                assert_eq!(now.piece(), Some((chess::Piece::Rook, Color::White)));
            } else {
                // all other 62 tiles are unchanged
                assert_eq!(now, was);
            }
        }
    }
}

#[test]
fn capture_then_counter_capture_alternates_turns() {
    let mut game = GameState::init(
        &Color::White,
        board_with(&[("e4", 'q', 'w'), ("e7", 'q', 'b')]),
    );
    assert_eq!(game.move_piece(coord("e4"), coord("e7")), Ok(()));
    // Black may not move White's queen, and White may not move twice
    assert_eq!(game.move_piece(coord("e7"), coord("e5")), Err(Error::WrongTurn));
    assert_eq!(game.turn, Color::Black);
}
