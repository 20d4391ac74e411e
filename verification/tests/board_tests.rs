use checkers::board::Board;
use checkers::piece::Piece;
use checkers::player::Player;
use checkers::position::Position;

fn cleared_board() -> Board {
    let mut board = Board::new();
    for row in 0..8usize {
        for col in 0..8usize {
            board.set(Position::new(row, col), None);
        }
    }
    board
}

#[test]
fn fresh_board_has_twelve_pieces_per_side() {
    let board = Board::new();
    let mut black = 0;
    let mut white = 0;
    for row in 0..8usize {
        for col in 0..8usize {
            if let Some(piece) = board.get(Position::new(row, col)) {
                match piece.player() {
                    Player::Black => black += 1,
                    Player::White => white += 1,
                }
            }
        }
    }
    assert_eq!(black, 12);
    assert_eq!(white, 12);
}

#[test]
fn fresh_board_layout() {
    let board = Board::new();
    for row in 0..8usize {
        for col in 0..8usize {
            let square = board.get(Position::new(row, col));
            if (row + col) % 2 == 1 && row <= 2 {
                let piece = square.expect("black squares of rows 0-2 are occupied");
                assert_eq!(piece.player(), Player::Black);
                assert!(!piece.is_king());
            } else if (row + col) % 2 == 1 && row >= 5 {
                let piece = square.expect("black squares of rows 5-7 are occupied");
                assert_eq!(piece.player(), Player::White);
                assert!(!piece.is_king());
            } else {
                assert!(square.is_none());
            }
        }
    }
}

#[test]
fn get_set_round_trip() {
    let mut board = cleared_board();
    let pos = Position::new(4, 3);
    let piece = Piece::new(Player::Black);
    board.set(pos, Some(piece));
    let back = board.get(pos).expect("the square was just filled");
    assert_eq!(back.player(), Player::Black);
    assert!(!back.is_king());
    board.set(pos, None);
    assert!(board.get(pos).is_none());
}

#[test]
fn regular_moves_absent_on_empty_square() {
    let board = Board::new();
    assert!(board.get_regular_moves(Position::new(3, 3)).is_none());
    assert!(board.get_regular_moves(Position::new(4, 4)).is_none());
}

#[test]
fn regular_moves_black_man_only_forward() {
    let board = Board::new();
    let src = Position::new(2, 1);
    let moves = board.get_regular_moves(src).expect("the square is occupied");
    assert_eq!(moves.len(), 2);
    for m in &moves {
        assert_eq!(m.src, src);
        assert!(m.captures.is_none());
        assert_eq!(m.stops.len(), 1);
        assert_eq!(m.stops[0].row, 3);
    }
    assert_eq!(moves[0].stops, vec![Position::new(3, 0)]);
    assert_eq!(moves[1].stops, vec![Position::new(3, 2)]);
}

#[test]
fn regular_moves_white_man_only_forward() {
    let board = Board::new();
    let src = Position::new(5, 0);
    let moves = board.get_regular_moves(src).expect("the square is occupied");
    assert_eq!(moves.len(), 1);
    assert_eq!(moves[0].src, src);
    assert!(moves[0].captures.is_none());
    assert_eq!(moves[0].stops, vec![Position::new(4, 1)]);
}

#[test]
fn regular_moves_blocked_man_yields_empty_list() {
    let board = Board::new();
    let moves = board.get_regular_moves(Position::new(0, 1)).expect("the square is occupied");
    assert!(moves.is_empty());
}

#[test]
fn regular_moves_king_any_direction() {
    let mut board = cleared_board();
    let src = Position::new(4, 4);
    board.set(src, Some(Piece { player: Player::White, is_king: true }));
    let moves = board.get_regular_moves(src).expect("the square is occupied");
    assert_eq!(moves.len(), 4);
    let stops: Vec<Position> = moves.iter().map(|m| m.stops[0]).collect();
    assert_eq!(
        stops,
        vec![
            Position::new(3, 3),
            Position::new(3, 5),
            Position::new(5, 3),
            Position::new(5, 5),
        ]
    );
}

#[test]
fn regular_moves_man_blocked_by_any_piece() {
    let mut board = cleared_board();
    let src = Position::new(2, 3);
    board.set(src, Some(Piece::new(Player::Black)));
    board.set(Position::new(3, 2), Some(Piece::new(Player::White)));
    let moves = board.get_regular_moves(src).expect("the square is occupied");
    assert_eq!(moves.len(), 1);
    assert_eq!(moves[0].stops, vec![Position::new(3, 4)]);
}
