use checkers::board::Board;
use checkers::capture::CaptureSearch;
use checkers::piece::Piece;
use checkers::player::Player;
use checkers::position::Position;

fn cleared_board() -> Board {
    let mut board = Board::new();
    for row in 0..8usize {
        for col in 0..8usize {
            board.set(Position::new(row, col), None);
        }
    }
    board
}

#[test]
fn capture_moves_absent_on_fresh_board() {
    let board = Board::new();
    assert!(board.get_capture_moves(Position::new(2, 1)).is_none());
    assert!(board.get_capture_moves(Position::new(5, 2)).is_none());
}

#[test]
fn capture_moves_absent_on_empty_square() {
    let board = Board::new();
    assert!(board.get_capture_moves(Position::new(3, 3)).is_none());
}

#[test]
fn single_capture() {
    let mut board = cleared_board();
    let src = Position::new(2, 3);
    board.set(src, Some(Piece::new(Player::Black)));
    board.set(Position::new(3, 4), Some(Piece::new(Player::White)));
    let moves = board.get_capture_moves(src).expect("one jump is possible");
    assert_eq!(moves.len(), 1);
    assert_eq!(moves[0].src, src);
    assert_eq!(moves[0].stops, vec![src, Position::new(4, 5)]);
    assert_eq!(moves[0].captures, Some(vec![Position::new(3, 4)]));
}

#[test]
fn chained_capture_yields_one_maximal_sequence() {
    let mut board = cleared_board();
    let src = Position::new(2, 1);
    board.set(src, Some(Piece::new(Player::Black)));
    board.set(Position::new(3, 2), Some(Piece::new(Player::White)));
    board.set(Position::new(5, 4), Some(Piece::new(Player::White)));
    let moves = board.get_capture_moves(src).expect("a chain of two jumps is possible");
    assert_eq!(moves.len(), 1);
    assert_eq!(moves[0].src, src);
    assert_eq!(
        moves[0].stops,
        vec![src, Position::new(4, 3), Position::new(6, 5)]
    );
    assert_eq!(
        moves[0].captures,
        Some(vec![Position::new(3, 2), Position::new(5, 4)])
    );
}

#[test]
fn branching_capture_yields_both_maximal_sequences() {
    let mut board = cleared_board();
    let src = Position::new(2, 3);
    board.set(src, Some(Piece::new(Player::Black)));
    board.set(Position::new(3, 2), Some(Piece::new(Player::White)));
    board.set(Position::new(3, 4), Some(Piece::new(Player::White)));
    board.set(Position::new(5, 2), Some(Piece::new(Player::White)));
    board.set(Position::new(5, 6), Some(Piece::new(Player::White)));
    let moves = board.get_capture_moves(src).expect("two branches are possible");
    assert_eq!(moves.len(), 2);
    assert_eq!(
        moves[0].stops,
        vec![src, Position::new(4, 1), Position::new(6, 3)]
    );
    assert_eq!(
        moves[0].captures,
        Some(vec![Position::new(3, 2), Position::new(5, 2)])
    );
    assert_eq!(
        moves[1].stops,
        vec![src, Position::new(4, 5), Position::new(6, 7)]
    );
    assert_eq!(
        moves[1].captures,
        Some(vec![Position::new(3, 4), Position::new(5, 6)])
    );
    assert_ne!(moves[0].stops[2], moves[1].stops[2]);
}

#[test]
fn captures_never_repeat_a_square() {
    let mut board = cleared_board();
    let src = Position::new(2, 3);
    board.set(src, Some(Piece::new(Player::Black)));
    board.set(Position::new(3, 2), Some(Piece::new(Player::White)));
    board.set(Position::new(3, 4), Some(Piece::new(Player::White)));
    board.set(Position::new(5, 2), Some(Piece::new(Player::White)));
    board.set(Position::new(5, 6), Some(Piece::new(Player::White)));
    let moves = board.get_capture_moves(src).expect("captures exist");
    for m in &moves {
        let captures = m.captures.as_ref().expect("capture moves list captures");
        assert!(!captures.is_empty());
        assert_eq!(m.stops.len(), captures.len() + 1);
        for a in 0..captures.len() {
            for b in 0..captures.len() {
                if a != b {
                    assert_ne!(captures[a], captures[b]);
                }
            }
        }
    }
}

#[test]
fn man_cannot_capture_backward() {
    let mut board = cleared_board();
    let src = Position::new(4, 3);
    board.set(src, Some(Piece::new(Player::Black)));
    board.set(Position::new(3, 2), Some(Piece::new(Player::White)));
    assert!(board.get_capture_moves(src).is_none());
}

#[test]
fn man_cannot_capture_own_piece() {
    let mut board = cleared_board();
    let src = Position::new(2, 1);
    board.set(src, Some(Piece::new(Player::Black)));
    board.set(Position::new(3, 2), Some(Piece::new(Player::Black)));
    assert!(board.get_capture_moves(src).is_none());
}

#[test]
fn capture_needs_empty_landing_square() {
    let mut board = cleared_board();
    let src = Position::new(2, 1);
    board.set(src, Some(Piece::new(Player::Black)));
    board.set(Position::new(3, 2), Some(Piece::new(Player::White)));
    board.set(Position::new(4, 3), Some(Piece::new(Player::White)));
    assert!(board.get_capture_moves(src).is_none());
}

#[test]
fn king_captures_backward() {
    let mut board = cleared_board();
    let src = Position::new(2, 3);
    board.set(src, Some(Piece { player: Player::White, is_king: true }));
    board.set(Position::new(3, 4), Some(Piece::new(Player::Black)));
    let moves = board.get_capture_moves(src).expect("the king jumps against its forward direction");
    assert_eq!(moves.len(), 1);
    assert_eq!(moves[0].stops, vec![src, Position::new(4, 5)]);
    assert_eq!(moves[0].captures, Some(vec![Position::new(3, 4)]));
}

#[test]
fn search_enumerates_from_given_context() {
    let mut board = cleared_board();
    board.set(Position::new(3, 4), Some(Piece::new(Player::Black)));
    let searcher = CaptureSearch::new(&board, Player::White, true);
    let moves = searcher.find_captures(Position::new(2, 3), Vec::new(), Vec::new());
    assert_eq!(moves.len(), 1);
    assert_eq!(moves[0].src, Position::new(2, 3));
    assert_eq!(moves[0].stops, vec![Position::new(2, 3), Position::new(4, 5)]);
    assert_eq!(moves[0].captures, Some(vec![Position::new(3, 4)]));
}
