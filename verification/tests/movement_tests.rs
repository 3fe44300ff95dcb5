use chess_engine::GameState;
use chess_engine::Piece;
use chess_engine::Player;
use chess_engine::Position;

fn pos(r: u8, c: u8) -> Position {
    Position::new(r, c).unwrap()
}

fn lone_piece_state(piece: Piece) -> GameState {
    let mut board: Vec<Vec<Option<Piece>>> = vec![vec![None; 8]; 8];
    let (r, c) = piece.get_position().as_tuple();
    board[r as usize][c as usize] = Some(piece);
    GameState::from_board(board, Player::White, None).unwrap()
}

#[test]
fn test_rook_movement() {
    let state = lone_piece_state(Piece::new_rook(pos(4, 4), Player::White, false));
    let result = state.get_moves(pos(4, 4));
    assert_eq!(result.len(), 14);
}

#[test]
fn test_queen_movement() {
    let state = lone_piece_state(Piece::new_queen(pos(4, 4), Player::White));
    let result = state.get_moves(pos(4, 4));
    assert_eq!(result.len(), 27);
}

#[test]
fn test_king_movement() {
    let state = lone_piece_state(Piece::new_king(pos(4, 4), Player::White, false));
    let result = state.get_moves(pos(4, 4));
    assert_eq!(result.len(), 8);
}

#[test]
fn test_bishop_movement() {
    let state = lone_piece_state(Piece::new_bishop(pos(4, 4), Player::White));
    let result = state.get_moves(pos(4, 4));
    assert_eq!(result.len(), 13);
}

#[test]
fn test_knight_movement() {
    let state = lone_piece_state(Piece::new_knight(pos(4, 4), Player::White));
    let result = state.get_moves(pos(4, 4));
    assert_eq!(result.len(), 8);
}

#[test]
fn test_pawn_movement() {
    let state = lone_piece_state(Piece::new_pawn(pos(4, 4), Player::White, true));
    let result = state.get_moves(pos(4, 4));
    assert_eq!(result.len(), 2);
}
