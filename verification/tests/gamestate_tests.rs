use chess_engine::GameState;
use chess_engine::Move;
use chess_engine::Piece;
use chess_engine::Player;
use chess_engine::Position;
use chess_engine::PromotionType;
use chess_engine::get_opponent;

fn pos(r: u8, c: u8) -> Position {
    Position::new(r, c).unwrap()
}

fn mv(a: u8, b: u8, c: u8, d: u8) -> Move {
    Move::new(pos(a, b), pos(c, d))
}

fn board_with(pieces: Vec<Piece>) -> Vec<Vec<Option<Piece>>> {
    let mut board: Vec<Vec<Option<Piece>>> = vec![vec![None; 8]; 8];
    for piece in pieces {
        let (r, c) = piece.get_position().as_tuple();
        board[r as usize][c as usize] = Some(piece);
    }
    board
}

fn expect_moves(state: GameState, position: Position, expected_moves: &mut Vec<Move>) {
    let mut moves = state.get_moves(position);
    expected_moves.sort();
    moves.sort();
    assert_eq!(moves, *expected_moves);
}

fn check_move_not_in_get_moves(state: &GameState, position: &Position, checked_move: &Move) {
    let moves = state.get_moves(*position);
    assert!(!moves.contains(checked_move));
}

#[test]
fn test_init_pawn_moves() {
    let board = board_with(vec![Piece::new_pawn(pos(1, 0), Player::White, true)]);
    let state = GameState::from_board(board, Player::White, None).unwrap();
    let p = pos(1, 0);
    let mut expected_moves = vec![mv(1, 0, 2, 0), mv(1, 0, 3, 0)];
    expect_moves(state, p, &mut expected_moves);
}

#[test]
fn test_pawn_non_first_moves() {
    let board = board_with(vec![Piece::new_pawn(pos(2, 0), Player::White, false)]);
    let state = GameState::from_board(board, Player::White, None).unwrap();
    let p = pos(2, 0);
    let mut expected_moves = vec![mv(2, 0, 3, 0)];
    expect_moves(state, p, &mut expected_moves);
}

#[test]
fn test_pawn_blocked_by_friendly() {
    let board = board_with(vec![
        Piece::new_pawn(pos(2, 0), Player::White, false),
        Piece::new_pawn(pos(3, 0), Player::White, false),
    ]);
    let state = GameState::from_board(board, Player::White, None).unwrap();
    let p = pos(2, 0);
    let mut expected_moves = vec![];
    expect_moves(state, p, &mut expected_moves);
}

#[test]
fn test_pawn_blocked_by_enemy() {
    let board = board_with(vec![
        Piece::new_pawn(pos(2, 0), Player::White, false),
        Piece::new_pawn(pos(3, 0), Player::Black, false),
    ]);
    let state = GameState::from_board(board, Player::White, None).unwrap();
    let p = pos(2, 0);
    let mut expected_moves = vec![];
    expect_moves(state, p, &mut expected_moves);
}

#[test]
fn test_pawn_can_take() {
    let board = board_with(vec![
        Piece::new_pawn(pos(4, 3), Player::White, false),
        Piece::new_pawn(pos(5, 4), Player::Black, false),
    ]);
    let state = GameState::from_board(board, Player::White, None).unwrap();
    let p = pos(4, 3);
    let mut expected_moves = vec![mv(4, 3, 5, 3), mv(4, 3, 5, 4)];
    expect_moves(state, p, &mut expected_moves);
}

#[test]
fn test_pawn_en_passant() {
    let board = board_with(vec![
        Piece::new_pawn(pos(2, 4), Player::White, false),
        Piece::new_pawn(pos(4, 5), Player::Black, false),
    ]);
    let state = GameState::from_board(board, Player::White, None).unwrap();
    let new_move = mv(2, 4, 4, 4);
    let new_state = GameState::transform_state(&state, new_move, None);
    let _result = GameState::update_en_passant(&state, &new_move);
    let mut expected_moves = vec![mv(4, 5, 3, 4), mv(4, 5, 3, 5)];
    let p = pos(4, 5);
    expect_moves(new_state, p, &mut expected_moves);
}

#[test]
fn test_knight_moves_center() {
    let board = board_with(vec![Piece::new_knight(pos(4, 3), Player::White)]);
    let state = GameState::from_board(board, Player::White, None).unwrap();
    let p = pos(4, 3);
    let mut expected_moves = vec![
        mv(4, 3, 2, 2),
        mv(4, 3, 3, 1),
        mv(4, 3, 5, 1),
        mv(4, 3, 6, 2),
        mv(4, 3, 6, 4),
        mv(4, 3, 5, 5),
        mv(4, 3, 3, 5),
        mv(4, 3, 2, 4),
    ];
    expect_moves(state, p, &mut expected_moves);
}

#[test]
fn test_knight_moves_corner() {
    let board = board_with(vec![Piece::new_knight(pos(0, 0), Player::White)]);
    let state = GameState::from_board(board, Player::White, None).unwrap();
    let p = pos(0, 0);
    let mut expected_moves = vec![mv(0, 0, 1, 2), mv(0, 0, 2, 1)];
    expect_moves(state, p, &mut expected_moves);
}

#[test]
fn test_knight_can_take() {
    let board = board_with(vec![
        Piece::new_knight(pos(0, 0), Player::White),
        Piece::new_pawn(pos(1, 2), Player::Black, false),
        Piece::new_pawn(pos(2, 1), Player::Black, false),
    ]);
    let state = GameState::from_board(board, Player::White, None).unwrap();
    let p = pos(0, 0);
    let mut expected_moves = vec![mv(0, 0, 1, 2), mv(0, 0, 2, 1)];
    expect_moves(state, p, &mut expected_moves);
}

#[test]
fn test_knight_blocked() {
    let board = board_with(vec![
        Piece::new_knight(pos(0, 0), Player::White),
        Piece::new_pawn(pos(1, 2), Player::White, true),
        Piece::new_pawn(pos(2, 1), Player::White, false),
    ]);
    let state = GameState::from_board(board, Player::White, None).unwrap();
    let p = pos(0, 0);
    let mut expected_moves = vec![];
    expect_moves(state, p, &mut expected_moves);
}

#[test]
fn test_bishop_moves() {
    let board = board_with(vec![Piece::new_bishop(pos(3, 3), Player::White)]);
    let state = GameState::from_board(board, Player::White, None).unwrap();
    let p = pos(3, 3);
    let mut expected_moves = vec![
        mv(3, 3, 0, 0),
        mv(3, 3, 1, 1),
        mv(3, 3, 2, 2),
        mv(3, 3, 4, 4),
        mv(3, 3, 5, 5),
        mv(3, 3, 6, 6),
        mv(3, 3, 7, 7),
        mv(3, 3, 6, 0),
        mv(3, 3, 5, 1),
        mv(3, 3, 4, 2),
        mv(3, 3, 2, 4),
        mv(3, 3, 1, 5),
        mv(3, 3, 0, 6),
    ];
    expect_moves(state, p, &mut expected_moves);
}

#[test]
fn test_bishop_can_take() {
    let board = board_with(vec![
        Piece::new_bishop(pos(3, 3), Player::White),
        Piece::new_bishop(pos(1, 1), Player::Black),
        Piece::new_bishop(pos(1, 5), Player::Black),
        Piece::new_bishop(pos(5, 5), Player::Black),
        Piece::new_bishop(pos(5, 1), Player::Black),
    ]);
    let state = GameState::from_board(board, Player::White, None).unwrap();
    let p = pos(3, 3);
    let mut expected_moves = vec![
        mv(3, 3, 1, 1),
        mv(3, 3, 2, 2),
        mv(3, 3, 4, 4),
        mv(3, 3, 5, 5),
        mv(3, 3, 5, 1),
        mv(3, 3, 4, 2),
        mv(3, 3, 2, 4),
        mv(3, 3, 1, 5),
    ];
    expect_moves(state, p, &mut expected_moves);
}

#[test]
fn test_bishop_blocked() {
    let board = board_with(vec![
        Piece::new_bishop(pos(3, 3), Player::White),
        Piece::new_bishop(pos(1, 1), Player::White),
        Piece::new_bishop(pos(1, 5), Player::White),
        Piece::new_bishop(pos(5, 5), Player::White),
        Piece::new_bishop(pos(5, 1), Player::White),
    ]);
    let state = GameState::from_board(board, Player::White, None).unwrap();
    let p = pos(3, 3);
    let mut expected_moves = vec![
        mv(3, 3, 2, 2),
        mv(3, 3, 4, 4),
        mv(3, 3, 4, 2),
        mv(3, 3, 2, 4),
    ];
    expect_moves(state, p, &mut expected_moves);
}

#[test]
fn test_rook_moves() {
    let board = board_with(vec![Piece::new_rook(pos(3, 3), Player::White, false)]);
    let state = GameState::from_board(board, Player::White, None).unwrap();
    let p = pos(3, 3);
    let mut expected_moves = vec![
        mv(3, 3, 3, 0),
        mv(3, 3, 3, 1),
        mv(3, 3, 3, 2),
        mv(3, 3, 3, 4),
        mv(3, 3, 3, 5),
        mv(3, 3, 3, 6),
        mv(3, 3, 3, 7),
        mv(3, 3, 0, 3),
        mv(3, 3, 1, 3),
        mv(3, 3, 2, 3),
        mv(3, 3, 4, 3),
        mv(3, 3, 5, 3),
        mv(3, 3, 6, 3),
        mv(3, 3, 7, 3),
    ];
    expect_moves(state, p, &mut expected_moves);
}

#[test]
fn test_rook_can_take() {
    let board = board_with(vec![
        Piece::new_rook(pos(3, 3), Player::White, false),
        Piece::new_rook(pos(1, 3), Player::Black, false),
        Piece::new_rook(pos(3, 1), Player::Black, false),
        Piece::new_rook(pos(5, 3), Player::Black, false),
        Piece::new_rook(pos(3, 5), Player::Black, false),
    ]);
    let state = GameState::from_board(board, Player::White, None).unwrap();
    let p = pos(3, 3);
    let mut expected_moves = vec![
        mv(3, 3, 3, 1),
        mv(3, 3, 3, 2),
        mv(3, 3, 3, 4),
        mv(3, 3, 3, 5),
        mv(3, 3, 1, 3),
        mv(3, 3, 2, 3),
        mv(3, 3, 4, 3),
        mv(3, 3, 5, 3),
    ];
    expect_moves(state, p, &mut expected_moves);
}

#[test]
fn test_rook_blocked() {
    let board = board_with(vec![
        Piece::new_rook(pos(3, 3), Player::White, false),
        Piece::new_rook(pos(1, 3), Player::White, false),
        Piece::new_rook(pos(3, 1), Player::White, false),
        Piece::new_rook(pos(5, 3), Player::White, false),
        Piece::new_rook(pos(3, 5), Player::White, false),
    ]);
    let state = GameState::from_board(board, Player::White, None).unwrap();
    let p = pos(3, 3);
    let mut expected_moves = vec![
        mv(3, 3, 3, 2),
        mv(3, 3, 3, 4),
        mv(3, 3, 2, 3),
        mv(3, 3, 4, 3),
    ];
    expect_moves(state, p, &mut expected_moves);
}

#[test]
fn test_queen_moves() {
    let board = board_with(vec![Piece::new_queen(pos(3, 3), Player::White)]);
    let state = GameState::from_board(board, Player::White, None).unwrap();
    let p = pos(3, 3);
    let mut expected_moves = vec![
        mv(3, 3, 0, 0),
        mv(3, 3, 1, 1),
        mv(3, 3, 2, 2),
        mv(3, 3, 4, 4),
        mv(3, 3, 5, 5),
        mv(3, 3, 6, 6),
        mv(3, 3, 7, 7),
        mv(3, 3, 6, 0),
        mv(3, 3, 5, 1),
        mv(3, 3, 4, 2),
        mv(3, 3, 2, 4),
        mv(3, 3, 1, 5),
        mv(3, 3, 0, 6),
        mv(3, 3, 3, 0),
        mv(3, 3, 3, 1),
        mv(3, 3, 3, 2),
        mv(3, 3, 3, 4),
        mv(3, 3, 3, 5),
        mv(3, 3, 3, 6),
        mv(3, 3, 3, 7),
        mv(3, 3, 0, 3),
        mv(3, 3, 1, 3),
        mv(3, 3, 2, 3),
        mv(3, 3, 4, 3),
        mv(3, 3, 5, 3),
        mv(3, 3, 6, 3),
        mv(3, 3, 7, 3),
    ];
    expect_moves(state, p, &mut expected_moves);
}

#[test]
fn test_queen_can_take() {
    let board = board_with(vec![
        Piece::new_queen(pos(3, 3), Player::White),
        Piece::new_queen(pos(2, 3), Player::Black),
        Piece::new_queen(pos(2, 2), Player::Black),
        Piece::new_queen(pos(3, 2), Player::Black),
        Piece::new_queen(pos(4, 2), Player::Black),
        Piece::new_queen(pos(4, 3), Player::Black),
        Piece::new_queen(pos(4, 4), Player::Black),
        Piece::new_queen(pos(3, 4), Player::Black),
        Piece::new_queen(pos(2, 4), Player::Black),
    ]);
    let state = GameState::from_board(board, Player::White, None).unwrap();
    let p = pos(3, 3);
    let mut expected_moves = vec![
        mv(3, 3, 2, 2),
        mv(3, 3, 4, 4),
        mv(3, 3, 4, 2),
        mv(3, 3, 2, 4),
        mv(3, 3, 3, 2),
        mv(3, 3, 3, 4),
        mv(3, 3, 2, 3),
        mv(3, 3, 4, 3),
    ];
    expect_moves(state, p, &mut expected_moves);
}

#[test]
fn test_queen_blocked() {
    let board = board_with(vec![
        Piece::new_queen(pos(3, 3), Player::White),
        Piece::new_queen(pos(2, 3), Player::White),
        Piece::new_queen(pos(2, 2), Player::White),
        Piece::new_queen(pos(3, 2), Player::White),
        Piece::new_queen(pos(4, 2), Player::White),
        Piece::new_queen(pos(4, 3), Player::White),
        Piece::new_queen(pos(4, 4), Player::White),
        Piece::new_queen(pos(3, 4), Player::White),
        Piece::new_queen(pos(2, 4), Player::White),
    ]);
    let state = GameState::from_board(board, Player::White, None).unwrap();
    let p = pos(3, 3);
    let mut expected_moves = vec![];
    expect_moves(state, p, &mut expected_moves);
}

#[test]
fn test_king_moves() {
    let board = board_with(vec![Piece::new_king(pos(3, 3), Player::White, false)]);
    let state = GameState::from_board(board, Player::White, None).unwrap();
    let p = pos(3, 3);
    let mut expected_moves = vec![
        mv(3, 3, 2, 2),
        mv(3, 3, 4, 4),
        mv(3, 3, 4, 2),
        mv(3, 3, 2, 4),
        mv(3, 3, 3, 2),
        mv(3, 3, 3, 4),
        mv(3, 3, 2, 3),
        mv(3, 3, 4, 3),
    ];
    expect_moves(state, p, &mut expected_moves);
}

#[test]
fn test_king_can_take() {
    let board = board_with(vec![
        Piece::new_king(pos(3, 3), Player::White, false),
        Piece::new_bishop(pos(3, 2), Player::Black),
        Piece::new_bishop(pos(3, 4), Player::Black),
    ]);
    let state = GameState::from_board(board, Player::White, None).unwrap();
    let p = pos(3, 3);
    // The king may capture either bishop and may step to the squares the
    // bishops do not cover; (2, 3) and (4, 3) lie on their diagonals, so
    // stepping there would leave the king in check.
    let mut expected_moves = vec![
        mv(3, 3, 2, 2),
        mv(3, 3, 4, 4),
        mv(3, 3, 4, 2),
        mv(3, 3, 2, 4),
        mv(3, 3, 3, 2),
        mv(3, 3, 3, 4),
    ];
    expect_moves(state, p, &mut expected_moves);
}

#[test]
fn test_king_blocked() {
    let board = board_with(vec![
        Piece::new_king(pos(3, 3), Player::White, false),
        Piece::new_bishop(pos(3, 2), Player::White),
        Piece::new_bishop(pos(3, 4), Player::White),
    ]);
    let state = GameState::from_board(board, Player::White, None).unwrap();
    let p = pos(3, 3);
    let mut expected_moves = vec![
        mv(3, 3, 2, 2),
        mv(3, 3, 4, 4),
        mv(3, 3, 4, 2),
        mv(3, 3, 2, 4),
        mv(3, 3, 2, 3),
        mv(3, 3, 4, 3),
    ];
    expect_moves(state, p, &mut expected_moves);
}

#[test]
fn test_is_player_checked() {
    let board = board_with(vec![
        Piece::new_king(pos(3, 3), Player::White, false),
        Piece::new_bishop(pos(2, 2), Player::Black),
        Piece::new_bishop(pos(3, 4), Player::White),
    ]);
    let state = GameState::from_board(board, Player::White, None).unwrap();
    assert!(state.is_checked());
}

#[test]
fn test_transform_state() {
    let board = board_with(vec![Piece::new_bishop(pos(2, 2), Player::Black)]);
    let state = GameState::from_board(board, Player::White, None).unwrap();
    let new_move = mv(2, 2, 3, 3);
    let promotion = None;

    let new_state = GameState::transform_state(&state, new_move, promotion);

    assert!(new_state.get_piece(pos(2, 2)).is_none());
    assert!(matches!(new_state.get_piece(pos(3, 3)), Some(Piece::Bishop(_))));

    assert_eq!(new_state.get_current_player(), get_opponent(state.get_current_player()));

    assert!(new_state.get_en_passant_square().is_none());
}

#[test]
fn test_transform_state_with_promotion() {
    let board = board_with(vec![Piece::new_bishop(pos(2, 2), Player::Black)]);
    let state = GameState::from_board(board, Player::White, None).unwrap();
    let new_move = mv(2, 2, 3, 3);
    let promotion = Some(PromotionType::Knight);

    let new_state = GameState::transform_state(&state, new_move, promotion);

    assert!(new_state.get_piece(pos(2, 2)).is_none());
    // Only a pawn landing on its back rank is promoted: the promotion
    // choice is ignored for a bishop, which arrives unchanged in kind.
    assert!(matches!(new_state.get_piece(pos(3, 3)), Some(Piece::Bishop(_))));

    assert_eq!(new_state.get_current_player(), get_opponent(state.get_current_player()));

    assert!(new_state.get_en_passant_square().is_none());
}

#[test]
fn test_update_en_passant() {
    let board = board_with(vec![
        Piece::new_pawn(pos(2, 4), Player::Black, false),
        Piece::new_pawn(pos(4, 5), Player::White, false),
    ]);
    let state = GameState::from_board(board, Player::White, None).unwrap();
    let new_move = mv(2, 4, 4, 4);
    let result = GameState::update_en_passant(&state, &new_move);
    assert_eq!(result, Some(pos(4, 4)));
}

#[test]
fn test_king_castles() {
    let board = board_with(vec![
        Piece::new_king(pos(0, 4), Player::White, true),
        Piece::new_rook(pos(0, 0), Player::White, true),
        Piece::new_rook(pos(0, 7), Player::White, true),
    ]);
    let state = GameState::from_board(board, Player::White, None).unwrap();
    let p = pos(0, 4);
    let mut expected_moves = vec![
        mv(0, 4, 0, 3),
        mv(0, 4, 1, 3),
        mv(0, 4, 1, 4),
        mv(0, 4, 1, 5),
        mv(0, 4, 0, 5),
        mv(0, 4, 0, 2),
        mv(0, 4, 0, 6),
    ];
    expect_moves(state, p, &mut expected_moves);
}

#[test]
fn test_king_cant_castle_king_moved() {
    let board = board_with(vec![
        Piece::new_king(pos(0, 4), Player::White, false),
        Piece::new_rook(pos(0, 0), Player::White, true),
        Piece::new_rook(pos(0, 7), Player::White, true),
    ]);
    let state = GameState::from_board(board, Player::White, None).unwrap();
    let p = pos(0, 4);
    let mut expected_moves = vec![
        mv(0, 4, 0, 3),
        mv(0, 4, 1, 3),
        mv(0, 4, 1, 4),
        mv(0, 4, 1, 5),
        mv(0, 4, 0, 5),
    ];
    expect_moves(state, p, &mut expected_moves);
}

#[test]
fn test_king_cant_castle_rook_moved() {
    let board = board_with(vec![
        Piece::new_king(pos(0, 4), Player::White, true),
        Piece::new_rook(pos(0, 0), Player::White, false),
        Piece::new_rook(pos(0, 7), Player::White, true),
    ]);
    let state = GameState::from_board(board, Player::White, None).unwrap();
    let p = pos(0, 4);
    let mut expected_moves = vec![
        mv(0, 4, 0, 3),
        mv(0, 4, 1, 3),
        mv(0, 4, 1, 4),
        mv(0, 4, 1, 5),
        mv(0, 4, 0, 5),
        mv(0, 4, 0, 6),
    ];
    expect_moves(state, p, &mut expected_moves);
}

#[test]
fn test_king_cant_castle_blocked() {
    let board = board_with(vec![
        Piece::new_king(pos(0, 4), Player::White, true),
        Piece::new_rook(pos(0, 0), Player::White, true),
        Piece::new_knight(pos(0, 1), Player::White),
        Piece::new_knight(pos(0, 6), Player::White),
        Piece::new_rook(pos(0, 7), Player::White, true),
    ]);
    let state = GameState::from_board(board, Player::White, None).unwrap();
    let p = pos(0, 4);
    let mut expected_moves = vec![
        mv(0, 4, 0, 3),
        mv(0, 4, 1, 3),
        mv(0, 4, 1, 4),
        mv(0, 4, 1, 5),
        mv(0, 4, 0, 5),
    ];
    expect_moves(state, p, &mut expected_moves);
}

#[test]
fn test_king_cant_castle_under_check() {
    let board = board_with(vec![
        Piece::new_king(pos(0, 4), Player::White, true),
        Piece::new_rook(pos(0, 0), Player::White, true),
        Piece::new_rook(pos(0, 7), Player::White, true),
        Piece::new_rook(pos(7, 4), Player::Black, false),
    ]);
    let state = GameState::from_board(board, Player::White, None).unwrap();
    let p = pos(0, 4);
    // The black rook gives check, so neither castling move is offered,
    // even though both gaps are clear and every flag is set.
    check_move_not_in_get_moves(&state, &p, &mv(0, 4, 0, 2));
    check_move_not_in_get_moves(&state, &p, &mv(0, 4, 0, 6));
}

#[test]
fn test_is_promotion() {
    let board = board_with(vec![
        Piece::new_pawn(pos(6, 4), Player::White, false),
        Piece::new_pawn(pos(5, 5), Player::White, false),
        Piece::new_rook(pos(6, 6), Player::White, false),
    ]);
    let state = GameState::from_board(board, Player::White, None).unwrap();
    assert!(state.is_promotion_move(mv(6, 4, 7, 4)));
    assert!(!state.is_promotion_move(mv(5, 5, 6, 5)));
    assert!(!state.is_promotion_move(mv(6, 6, 7, 6)));
}

#[test]
fn test_is_promotion_black() {
    let board = board_with(vec![
        Piece::new_pawn(pos(1, 4), Player::Black, false),
        Piece::new_pawn(pos(2, 5), Player::Black, false),
        Piece::new_rook(pos(1, 6), Player::Black, false),
    ]);
    let state = GameState::from_board(board, Player::Black, None).unwrap();
    assert!(state.is_promotion_move(mv(1, 4, 0, 4)));
    assert!(!state.is_promotion_move(mv(2, 5, 1, 5)));
    assert!(!state.is_promotion_move(mv(1, 6, 0, 6)));
}

#[test]
fn test_running() {
    let board = board_with(vec![
        Piece::new_king(pos(0, 4), Player::White, false),
        Piece::new_king(pos(7, 4), Player::Black, false),
        Piece::new_rook(pos(1, 2), Player::White, false),
        Piece::new_rook(pos(6, 5), Player::Black, false),
    ]);
    let state = GameState::from_board(board, Player::White, None).unwrap();
    assert!(!state.is_finished());
}

#[test]
fn test_draw() {
    let board = board_with(vec![
        Piece::new_king(pos(0, 4), Player::White, false),
        Piece::new_king(pos(2, 4), Player::Black, false),
        Piece::new_pawn(pos(1, 4), Player::Black, false),
    ]);
    let state = GameState::from_board(board, Player::White, None).unwrap();
    assert!(state.get_winner().is_none());
}

#[test]
fn test_checkmate() {
    let board = board_with(vec![
        Piece::new_king(pos(0, 4), Player::White, false),
        Piece::new_king(pos(2, 4), Player::Black, false),
        Piece::new_queen(pos(1, 4), Player::Black),
    ]);
    let state = GameState::from_board(board, Player::White, None).unwrap();
    assert!(state.get_winner().is_some());
    assert!(state.get_winner().unwrap() == Player::Black);
}
