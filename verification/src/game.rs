use crate::gamestate::GameState;
use crate::gamestate::StateView;
use crate::gamestate::back_rank;
use crate::gamestate::in_check_player;
use crate::gamestate::init_square;
use crate::gamestate::legal_state_move;
use crate::gamestate::move_allowed;
use crate::gamestate::on_board;
use crate::gamestate::transform_spec;
use crate::moves::Move;
use crate::piece::PieceData;
use crate::piece::PieceType;
use crate::piece::PromotionType;
use crate::player::Player;
use crate::player::opponent;
use crate::position::Position;
use vstd::prelude::*;

verus! {

/// The standing of the game toward the player to move.
#[derive(Debug, Clone, Copy, PartialEq, Eq, Structural, Hash)]
pub enum Status {
    Check,
    Checkmate,
    Normal,
}

/// A running game, held for a host that renders the board and relays the
/// players' choices: one current state, replaced wholesale whenever an
/// allowed move is applied.
pub struct Game {
    pub(crate) state: GameState,
}

impl Game {
    /// The mathematical value of the held state.
    pub open(crate) spec fn model(self) -> StateView {
        self.state.model()
    }

    /// The held state is well formed; every state this type ever holds
    /// is.
    pub open spec fn wf(self) -> bool {
        self.model().wf()
    }

    /// Starts a game from the standard starting position.
    pub fn new() -> (g: Game)
        ensures
            g.wf(),
            g.model().current_player == Player::White,
            g.model().en_passant_square is None,
            forall|i: int, j: int|
                on_board(i, j) ==> #[trigger] g.model().board[i][j] == init_square(i, j),
    {
        Game { state: GameState::init() }
    }

    /// Returns the positions that the piece on the given square can move
    /// to within one move.
    pub fn get_moves(&self, row: u8, column: u8) -> (r: Vec<Position>)
        requires
            self.wf(),
            row <= 7,
            column <= 7,
        ensures
            r@.no_duplicates(),
            forall|q: Position|
                #[trigger] r@.contains(q) <==> (exists|m: Move|
                    {
                        &&& #[trigger] move_allowed(self.model(), m)
                        &&& m.from_pos().spec_row() == row
                        &&& m.from_pos().spec_col() == column
                        &&& m.to_pos() == q
                    }),
    {
        let pos = match Position::new(row, column) {
            Some(p) => p,
            None => {
                return Vec::new();
            },
        };
        let ms = self.state.get_moves(pos);
        let mut result: Vec<Position> = Vec::new();
        let mut i: usize = 0;
        while i < ms.len()
            invariant
                self.wf(),
                pos.spec_row() == row,
                pos.spec_col() == column,
                pos.wf(),
                i <= ms@.len(),
                result@.no_duplicates(),
                forall|m: Move|
                    #[trigger] ms@.contains(m) <==> (self.model().at_pos(pos) matches Some(p)
                        && crate::gamestate::legal_move(self.model(), p, m)),
                ms@.no_duplicates(),
                forall|q: Position|
                    #[trigger] result@.contains(q) <==> (exists|j: int|
                        0 <= j < i && (#[trigger] ms@[j]).to_pos() == q),
            decreases ms@.len() - i,
        {
            let m = ms[i];
            let q = m.get_end_position();
            proof {
                assert(ms@.contains(m)) by {
                    assert(ms@[i as int] == m);
                }
                // Two legal moves of the same piece with the same
                // destination are the same move, so the destination is new.
                assert(!result@.contains(q)) by {
                    if result@.contains(q) {
                        let j = choose|j: int| 0 <= j < i && ms@[j].to_pos() == q;
                        assert(ms@.contains(ms@[j]));
                        assert(ms@[j].from_pos() == m.from_pos());
                        assert(ms@[j] == m);
                    }
                }
            }
            let ghost snap = result@;
            result.push(q);
            proof {
                assert forall|q2: Position| #[trigger] result@.contains(q2) <==> (snap.contains(
                    q2) || q2 == q) by {
                    if snap.contains(q2) {
                        let j = choose|j: int| 0 <= j < snap.len() && snap[j] == q2;
                        assert(result@[j] == q2);
                    }
                    if q2 == q {
                        assert(result@[snap.len() as int] == q2);
                    }
                    if result@.contains(q2) {
                        let j = choose|j: int| 0 <= j < result@.len() && result@[j] == q2;
                        if j < snap.len() {
                            assert(snap[j] == q2);
                        }
                    }
                }
                assert forall|q2: Position| #[trigger] result@.contains(q2) implies (exists|
                    j: int,
                | 0 <= j <= i && (#[trigger] ms@[j]).to_pos() == q2) by {
                    if q2 == q {
                        assert(ms@[i as int].to_pos() == q2);
                    }
                }
            }
            i += 1;
        }
        proof {
            assert forall|q: Position| #[trigger] result@.contains(q) <==> (exists|m: Move|
                {
                    &&& #[trigger] move_allowed(self.model(), m)
                    &&& m.from_pos().spec_row() == row
                    &&& m.from_pos().spec_col() == column
                    &&& m.to_pos() == q
                }) by {
                if result@.contains(q) {
                    let j = choose|j: int| 0 <= j < ms@.len() && ms@[j].to_pos() == q;
                    let m = ms@[j];
                    assert(ms@.contains(m));
                    assert(move_allowed(self.model(), m));
                }
                if exists|m: Move|
                    {
                        &&& #[trigger] move_allowed(self.model(), m)
                        &&& m.from_pos().spec_row() == row
                        &&& m.from_pos().spec_col() == column
                        &&& m.to_pos() == q
                    } {
                    let m = choose|m: Move|
                        {
                            &&& #[trigger] move_allowed(self.model(), m)
                            &&& m.from_pos().spec_row() == row
                            &&& m.from_pos().spec_col() == column
                            &&& m.to_pos() == q
                        };
                    assert(m.from_pos() == pos);
                    assert(ms@.contains(m));
                    let j = choose|j: int| 0 <= j < ms@.len() && ms@[j] == m;
                }
            }
        }
        result
    }

    /// Returns true if the game has finished: the player to move has no
    /// legal move left.
    pub fn is_finished(&self) -> (b: bool)
        requires
            self.wf(),
        ensures
            b == (forall|m: Move| !legal_state_move(self.model(), m)),
    {
        self.state.is_finished()
    }

    /// Returns true if the given move would promote a pawn.
    pub fn is_promotion_move(&self, from_row: u8, from_column: u8, to_row: u8, to_column: u8) -> (b:
        bool)
        requires
            self.wf(),
            from_row <= 7,
            from_column <= 7,
            to_row <= 7,
            to_column <= 7,
        ensures
            b == (exists|m: Move|
                {
                    &&& m.from_pos().spec_row() == from_row
                    &&& m.from_pos().spec_col() == from_column
                    &&& m.to_pos().spec_row() == to_row
                    &&& m.to_pos().spec_col() == to_column
                    &&& #[trigger] m.wf()
                    &&& (self.model().at_pos(m.from_pos()) matches Some(p) && p.spec_kind()
                        == PieceType::Pawn)
                    &&& to_row == back_rank(self.model().current_player)
                }),
    {
        let from = match Position::new(from_row, from_column) {
            Some(p) => p,
            None => {
                return false;
            },
        };
        let to = match Position::new(to_row, to_column) {
            Some(p) => p,
            None => {
                return false;
            },
        };
        let m = Move::new(from, to);
        let b = self.state.is_promotion_move(m);
        proof {
            if b {
                assert(m.wf());
            }
        }
        b
    }

    /// Tries to make a move, with an optional promotion choice for a pawn
    /// reaching the back rank.  When the move is among the legal moves of
    /// the piece on its source square, the held state is replaced by the
    /// transformed one and Ok is returned; otherwise the state is left
    /// unchanged and an error is returned.
    pub fn make_move(
        &mut self,
        from_row: u8,
        from_column: u8,
        to_row: u8,
        to_column: u8,
        promotion_type: Option<PromotionType>,
    ) -> (r: Result<(), String>)
        requires
            old(self).wf(),
            from_row <= 7,
            from_column <= 7,
            to_row <= 7,
            to_column <= 7,
        ensures
            final(self).wf(),
            (r is Ok <==> (exists|m: Move|
                {
                    &&& #[trigger] move_allowed(old(self).model(), m)
                    &&& m.from_pos().spec_row() == from_row
                    &&& m.from_pos().spec_col() == from_column
                    &&& m.to_pos().spec_row() == to_row
                    &&& m.to_pos().spec_col() == to_column
                })),
            r is Ok ==> (forall|m: Move|
                (#[trigger] m.wf() && m.from_pos().spec_row() == from_row
                    && m.from_pos().spec_col() == from_column && m.to_pos().spec_row() == to_row
                    && m.to_pos().spec_col() == to_column) ==> final(self).model()
                    == transform_spec(old(self).model(), m, promotion_type)),
            r is Err ==> final(self).model() == old(self).model(),
            r matches Err(e) ==> e@ =~= "Invalid move"@,
    {
        let from = match Position::new(from_row, from_column) {
            Some(p) => p,
            None => {
                proof {
                    reveal_strlit("Invalid move");
                }
                return Err("Invalid move".to_string());
            },
        };
        let to = match Position::new(to_row, to_column) {
            Some(p) => p,
            None => {
                proof {
                    reveal_strlit("Invalid move");
                }
                return Err("Invalid move".to_string());
            },
        };
        let chess_move = Move::new(from, to);
        let possible_moves = self.state.get_moves(from);
        let mut found = false;
        let mut i: usize = 0;
        while i < possible_moves.len()
            invariant
                i <= possible_moves@.len(),
                found ==> possible_moves@.contains(chess_move),
                !found ==> (forall|j: int| 0 <= j < i ==> possible_moves@[j] != chess_move),
            decreases possible_moves@.len() - i,
        {
            if possible_moves[i] == chess_move {
                found = true;
            }
            i += 1;
        }
        if found {
            proof {
                assert(move_allowed(self.model(), chess_move));
                assert forall|m: Move|
                    (#[trigger] m.wf() && m.from_pos().spec_row() == from_row
                        && m.from_pos().spec_col() == from_column && m.to_pos().spec_row()
                        == to_row && m.to_pos().spec_col() == to_column) implies m
                    == chess_move by {
                    assert(m.from_pos() == from);
                    assert(m.to_pos() == to);
                }
            }
            self.state = GameState::transform_state(&self.state, chess_move, promotion_type);
            Ok(())
        } else {
            proof {
                reveal_strlit("Invalid move");
                if exists|m: Move|
                    {
                        &&& #[trigger] move_allowed(self.model(), m)
                        &&& m.from_pos().spec_row() == from_row
                        &&& m.from_pos().spec_col() == from_column
                        &&& m.to_pos().spec_row() == to_row
                        &&& m.to_pos().spec_col() == to_column
                    } {
                    let m = choose|m: Move|
                        {
                            &&& #[trigger] move_allowed(self.model(), m)
                            &&& m.from_pos().spec_row() == from_row
                            &&& m.from_pos().spec_col() == from_column
                            &&& m.to_pos().spec_row() == to_row
                            &&& m.to_pos().spec_col() == to_column
                        };
                    assert(m == chess_move);
                    assert(possible_moves@.contains(chess_move));
                    let j = choose|j: int|
                        0 <= j < possible_moves@.len() && possible_moves@[j] == chess_move;
                }
            }
            Err("Invalid move".to_string())
        }
    }

    /// Returns the standing of the game toward the player to move:
    /// Checkmate when that player stands in check with no legal move
    /// left, Check when in check with moves left, and Normal otherwise.
    pub fn get_status(&self) -> (r: Status)
        requires
            self.wf(),
        ensures
            r == (if in_check_player(self.model(), self.model().current_player) {
                if forall|m: Move| !legal_state_move(self.model(), m) {
                    Status::Checkmate
                } else {
                    Status::Check
                }
            } else {
                Status::Normal
            }),
    {
        if self.state.is_checked() {
            if self.state.is_finished() {
                Status::Checkmate
            } else {
                Status::Check
            }
        } else {
            Status::Normal
        }
    }

    /// Returns the winning player if the game has resulted in a win:
    /// checkmate against the player to move.
    pub fn get_winner(&self) -> (r: Option<Player>)
        requires
            self.wf(),
        ensures
            r == (if in_check_player(self.model(), self.model().current_player) && (forall|
                m: Move,
            | !legal_state_move(self.model(), m)) {
                Some(opponent(self.model().current_player))
            } else {
                None::<Player>
            }),
    {
        self.state.get_winner()
    }

    /// Returns the player and kind of the piece on the given square, if
    /// any.
    pub fn get_piece_data(&self, row: u8, column: u8) -> (r: Option<PieceData>)
        requires
            self.wf(),
            row <= 7,
            column <= 7,
        ensures
            (r is Some <==> self.model().at(row as int, column as int) is Some),
            (r matches Some(d) ==> (self.model().at(row as int, column as int) matches Some(p)
                && d.spec_player() == p.spec_player() && d.spec_kind() == p.spec_kind())),
    {
        let pos = match Position::new(row, column) {
            Some(p) => p,
            None => {
                return None;
            },
        };
        match self.state.get_piece(pos) {
            Some(p) => Some(p.get_data()),
            None => None,
        }
    }
}

} // verus!
