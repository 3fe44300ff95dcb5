use crate::movement::merge_moves;
use crate::movement::plain_move;
use crate::movement::pseudo_move;
use crate::moves::Move;
use crate::piece::Piece;
use crate::piece::PieceType;
use crate::piece::PromotionType;
use crate::piece::SharedData;
use crate::player::Player;
use crate::player::get_opponent;
use crate::player::opponent;
use crate::position::Position;
use vstd::math::abs;
use vstd::prelude::*;

verus! {

/// True iff (r, c) is a square of the 8x8 board.
pub open spec fn on_board(r: int, c: int) -> bool {
    0 <= r < 8 && 0 <= c < 8
}

/// True iff `b` is an 8x8 grid whose stored pieces each report the square
/// they are stored on.
pub open spec fn board_wf(b: Seq<Seq<Option<Piece>>>) -> bool {
    &&& b.len() == 8
    &&& (forall|r: int| 0 <= r < 8 ==> (#[trigger] b[r]).len() == 8)
    &&& (forall|r: int, c: int|
        on_board(r, c) ==> (#[trigger] b[r][c] matches Some(p) ==> p.spec_position().spec_row()
            == r && p.spec_position().spec_col() == c))
}

/// True iff the en-passant square, when present, lies on the board.
pub open spec fn ep_wf(e: Option<Position>) -> bool {
    e matches Some(p) ==> p.wf()
}

/// The mathematical value of a game state: the board as a sequence of
/// rows, the player to move, and the en-passant square if any.  Contracts
/// throughout the crate speak of this model.
pub struct StateView {
    pub board: Seq<Seq<Option<Piece>>>,
    pub current_player: Player,
    pub en_passant_square: Option<Position>,
}

impl StateView {
    /// The whole value is well formed.
    pub open spec fn wf(self) -> bool {
        board_wf(self.board) && ep_wf(self.en_passant_square)
    }

    /// The field at row `r`, column `c`.
    pub open spec fn at(self, r: int, c: int) -> Option<Piece> {
        self.board[r][c]
    }

    /// The field at a given position.
    pub open spec fn at_pos(self, p: Position) -> Option<Piece> {
        self.at(p.spec_row(), p.spec_col())
    }

    /// The square (r, c) is on the board and empty.
    pub open spec fn empty_at(self, r: int, c: int) -> bool {
        on_board(r, c) && self.at(r, c) is None
    }

    /// The square (r, c) is on the board and holds a piece of the player
    /// opposing `pl`.
    pub open spec fn enemy_at(self, pl: Player, r: int, c: int) -> bool {
        on_board(r, c) && (self.at(r, c) matches Some(q) && q.spec_player() != pl)
    }

    /// The square (r, c) is a square player `pl` may land on: on the
    /// board, and not occupied by a piece of `pl` itself.
    pub open spec fn free_for(self, pl: Player, r: int, c: int) -> bool {
        self.empty_at(r, c) || self.enemy_at(pl, r, c)
    }
}

/// The back rank of a player: the row that player's pawns promote on.
pub open spec fn back_rank(pl: Player) -> int {
    if pl == Player::White {
        7
    } else {
        0
    }
}

/// An enemy pawn of `pl` stands on the board square (r, c).
pub open spec fn enemy_pawn_at(s: StateView, pl: Player, r: int, c: int) -> bool {
    on_board(r, c) && (s.at(r, c) matches Some(q) && q.spec_kind() == PieceType::Pawn
        && q.spec_player() != pl)
}

/// The en-passant square after `m` is played on `s`, judged on the
/// pre-move board: the destination square itself iff the moved piece is a
/// pawn that advances exactly two rows and an enemy pawn stands
/// immediately beside the destination; otherwise there is none.
pub open spec fn ep_after(s: StateView, m: Move) -> Option<Position> {
    match s.at_pos(m.from_pos()) {
        Some(p) => {
            if p.spec_kind() == PieceType::Pawn && abs(
                m.to_pos().spec_row() - m.from_pos().spec_row(),
            ) == 2 && (enemy_pawn_at(
                s,
                p.spec_player(),
                m.to_pos().spec_row(),
                m.to_pos().spec_col() - 1,
            ) || enemy_pawn_at(
                s,
                p.spec_player(),
                m.to_pos().spec_row(),
                m.to_pos().spec_col() + 1,
            )) {
                Some(m.to_pos())
            } else {
                None
            }
        },
        None => None,
    }
}

/// `m` is an en-passant capture on `s`: a pawn moves one square diagonally
/// forward onto an empty square, and the square beside the pawn that its
/// destination lies past holds an enemy piece recorded as the en-passant
/// target.
pub open spec fn is_ep_capture(s: StateView, m: Move) -> bool {
    &&& (s.at_pos(m.from_pos()) matches Some(p) && p.spec_kind() == PieceType::Pawn
        && m.to_pos().spec_row() == m.from_pos().spec_row() + crate::movement::pawn_dir(
        p.spec_player(),
    ) && s.enemy_at(p.spec_player(), m.from_pos().spec_row(), m.to_pos().spec_col()))
    &&& abs(m.to_pos().spec_col() - m.from_pos().spec_col()) == 1
    &&& s.at_pos(m.to_pos()) is None
    &&& (s.en_passant_square matches Some(ep) && ep.spec_row() == m.from_pos().spec_row()
        && ep.spec_col() == m.to_pos().spec_col())
}

/// The freshly constructed piece a pawn is replaced by on promotion.  As
/// with every new rook, a promoted rook starts with its castling flag set;
/// the flag matters only in the corner-rook arrangement of castling.
pub open(crate) spec fn promoted_piece(pt: PromotionType, pl: Player, to: Position) -> Piece {
    match pt {
        PromotionType::Knight => Piece::Knight(SharedData { position: to, player: pl }),
        PromotionType::Bishop => Piece::Bishop(SharedData { position: to, player: pl }),
        PromotionType::Rook => Piece::Rook(SharedData { position: to, player: pl }, true),
        PromotionType::Queen => Piece::Queen(SharedData { position: to, player: pl }),
    }
}

/// `m` lands a pawn on its own back rank, making the pawn eligible for
/// promotion when a promotion choice is supplied.
pub open spec fn promoting_move(s: StateView, m: Move) -> bool {
    s.at_pos(m.from_pos()) matches Some(p) && p.spec_kind() == PieceType::Pawn
        && m.to_pos().spec_row() == back_rank(p.spec_player())
}

/// The occupant of square (r, c) after `m`, with promotion choice
/// `promo`, is played on `s`: the destination square receives the moved
/// piece (with its flags cleared), or, when a promotion choice is
/// supplied and the move lands a pawn on its back rank, the freshly
/// promoted piece of the same player; the source square is vacated; on an
/// en-passant capture the passed pawn's square is vacated too; every
/// other square keeps its occupant.
pub open(crate) spec fn square_after(
    s: StateView,
    m: Move,
    promo: Option<PromotionType>,
    r: int,
    c: int,
) -> Option<Piece> {
    if r == m.to_pos().spec_row() && c == m.to_pos().spec_col() {
        match s.at_pos(m.from_pos()) {
            Some(p) => match promo {
                Some(pt) => if promoting_move(s, m) {
                    Some(promoted_piece(pt, p.spec_player(), m.to_pos()))
                } else {
                    Some(p.shifted(m.to_pos()))
                },
                None => Some(p.shifted(m.to_pos())),
            },
            None => None,
        }
    } else if r == m.from_pos().spec_row() && c == m.from_pos().spec_col() {
        None
    } else if is_ep_capture(s, m) && r == m.from_pos().spec_row() && c == m.to_pos().spec_col() {
        None
    } else {
        s.at(r, c)
    }
}

/// The full state after `m`, with promotion choice `promo`, is played on
/// `s`: the board transformed square by square, the turn passed to the
/// opponent, and the en-passant square recomputed.
pub open(crate) spec fn transform_spec(s: StateView, m: Move, promo: Option<PromotionType>) -> StateView {
    StateView {
        board: Seq::new(8, |r: int| Seq::new(8, |c: int| square_after(s, m, promo, r, c))),
        current_player: opponent(s.current_player),
        en_passant_square: ep_after(s, m),
    }
}

/// A king of `pl` stands on the square with row-major index `i`.
pub open spec fn king_at(s: StateView, pl: Player, i: int) -> bool {
    s.at(i / 8, i % 8) matches Some(p) && p.spec_kind() == PieceType::King && p.spec_player() == pl
}

/// The row-major index of the first square at or after index `i` holding
/// a king of `pl`; 64 when there is none.
pub open spec fn first_king_from(s: StateView, pl: Player, i: int) -> int
    decreases 64 - i,
{
    if i < 0 || i >= 64 {
        64
    } else if king_at(s, pl, i) {
        i
    } else {
        first_king_from(s, pl, i + 1)
    }
}

/// `m` is a plain (castling-free) move of the piece standing on its own
/// source square.  The attack scan quantifies over these: castling, the
/// one move whose own lawfulness depends on attack status, can never
/// capture — its destination must be empty — so leaving it out loses no
/// attack and keeps the definitions well founded.
pub open spec fn plain_from_square(s: StateView, m: Move) -> bool {
    &&& on_board(m.from_pos().spec_row(), m.from_pos().spec_col())
    &&& (s.at_pos(m.from_pos()) matches Some(p) && plain_move(s, p, m))
}

/// Some piece of `pl` has a plain move landing on square (r, c).
pub open spec fn attacks(s: StateView, pl: Player, r: int, c: int) -> bool {
    exists|m: Move|
        {
            &&& #[trigger] plain_from_square(s, m)
            &&& (s.at_pos(m.from_pos()) matches Some(p) && p.spec_player() == pl)
            &&& m.to_pos().spec_row() == r
            &&& m.to_pos().spec_col() == c
        }
}

/// The first-found king of `pl` is attacked by the opposing side; false
/// when `pl` has no king on the board.
pub open spec fn in_check_player(s: StateView, pl: Player) -> bool {
    let i = first_king_from(s, pl, 0);
    i < 64 && attacks(s, opponent(pl), i / 8, i % 8)
}

/// `m` is a legal move of piece `p` on `s`: pseudo-legal, and after
/// playing it the mover's own king is not attacked.
pub open spec fn legal_move(s: StateView, p: Piece, m: Move) -> bool {
    pseudo_move(s, p, m) && !in_check_player(transform_spec(s, m, None), p.spec_player())
}

/// `m` is a legal move of the position `s`: its source square holds a
/// piece of the player to move, and the move is legal for that piece.
pub open spec fn legal_state_move(s: StateView, m: Move) -> bool {
    &&& on_board(m.from_pos().spec_row(), m.from_pos().spec_col())
    &&& (s.at_pos(m.from_pos()) matches Some(p) && p.spec_player() == s.current_player
        && legal_move(s, p, m))
}

/// The move is allowed by the move-application entry point: its source
/// square holds a piece and the move is legal for that piece.
pub open spec fn move_allowed(s: StateView, m: Move) -> bool {
    &&& on_board(m.from_pos().spec_row(), m.from_pos().spec_col())
    &&& (s.at_pos(m.from_pos()) matches Some(p) && legal_move(s, p, m))
}

/// When no square in `i..64` holds a king of `pl`, the search from `i`
/// finds none.
proof fn lemma_first_king_none(s: StateView, pl: Player, i: int)
    requires
        0 <= i <= 64,
        forall|t: int| i <= t < 64 ==> !king_at(s, pl, t),
    ensures
        first_king_from(s, pl, i) == 64,
    decreases 64 - i,
{
    if i < 64 {
        lemma_first_king_none(s, pl, i + 1);
    }
}

/// When square `j` holds a king of `pl` and no earlier square at or after
/// `i` does, the search from `i` finds exactly `j`.
proof fn lemma_first_king_found(s: StateView, pl: Player, i: int, j: int)
    requires
        0 <= i <= j < 64,
        forall|t: int| i <= t < j ==> !king_at(s, pl, t),
        king_at(s, pl, j),
    ensures
        first_king_from(s, pl, i) == j,
    decreases j - i,
{
    if i < j {
        lemma_first_king_found(s, pl, i + 1, j);
    }
}

/// The occupant of square (r, c) in the standard starting position:
/// White's pieces on rows 0 and 1, Black's on rows 6 and 7, in the
/// conventional order, with every rook, king and pawn flag set.
pub open(crate) spec fn init_square(r: int, c: int) -> Option<Piece> {
    let pos = Position { row: r as u8, column: c as u8 };
    if r == 0 || r == 7 {
        let pl = if r == 0 {
            Player::White
        } else {
            Player::Black
        };
        let d = SharedData { position: pos, player: pl };
        if c == 0 || c == 7 {
            Some(Piece::Rook(d, true))
        } else if c == 1 || c == 6 {
            Some(Piece::Knight(d))
        } else if c == 2 || c == 5 {
            Some(Piece::Bishop(d))
        } else if c == 3 {
            Some(Piece::Queen(d))
        } else {
            Some(Piece::King(d, true))
        }
    } else if r == 1 || r == 6 {
        let pl = if r == 1 {
            Player::White
        } else {
            Player::Black
        };
        Some(Piece::Pawn(SharedData { position: pos, player: pl }, true))
    } else {
        None
    }
}

/// Applying a move is pure: the transition takes the state by shared
/// reference and never changes it, and the state it produces is a
/// function of the inputs alone, so two independent applications of the
/// same move and promotion choice to the same state yield structurally
/// equal results — the same board contents, player to move, and
/// en-passant square.
pub proof fn lemma_transform_deterministic(
    state: GameState,
    mv: Move,
    promotion: Option<PromotionType>,
    r1: GameState,
    r2: GameState,
)
    requires
        r1.model() == transform_spec(state.model(), mv, promotion),
        r2.model() == transform_spec(state.model(), mv, promotion),
    ensures
        r1.model() == r2.model(),
{
}

/// Whether a chessman is captured by a move: the fate the transition
/// function deals to the piece standing in the move's way.
#[derive(Debug, Clone, Copy, PartialEq, Eq, Structural, Hash)]
pub enum ChessmanStatus {
    Captured,
    NotCaptured,
}

/// A full game position: the 8x8 board of optional pieces, the player
/// whose move it is, and the single-ply en-passant square.  Values are
/// immutable snapshots: every transition produces a brand-new state and
/// leaves the prior one intact.
pub struct GameState {
    /// The main board structure that contains all the fields.
    pub(crate) board: Vec<Vec<Option<Piece>>>,
    /// The player whose move it is now.
    pub(crate) current_player: Player,
    /// If there is a pawn that can be taken en passant, its position is
    /// denoted here.  There is always at most a single pawn that can be
    /// taken en passant.
    pub(crate) en_passant_square: Option<Position>,
}

impl GameState {
    /// The mathematical value of this state.
    pub open(crate) spec fn model(self) -> StateView {
        StateView {
            board: self.board@.map_values(|row: Vec<Option<Piece>>| row@),
            current_player: self.current_player,
            en_passant_square: self.en_passant_square,
        }
    }

    /// The state is well formed: an 8x8 board whose pieces report their
    /// own squares, and an on-board en-passant square if any.  Every state
    /// built by this crate's factories and transitions satisfies this.
    pub open spec fn wf(self) -> bool {
        self.model().wf()
    }

    /// Creates a state from a given board and other data.  Succeeds iff
    /// the board is exactly 8x8, every stored piece reports the square it
    /// is stored on, and the en-passant square, if any, is on the board.
    /// Rejecting a piece that misreports its own square goes beyond
    /// checking the shape alone, but a stored piece reporting its square
    /// is a standing invariant of every state, and accepting such a board
    /// would break every operation that relies on it.  Game sanity is not
    /// checked: a board without kings is accepted, and is the caller's
    /// concern.
    pub fn from_board(
        init_board: Vec<Vec<Option<Piece>>>,
        player: Player,
        en_passant_square: Option<Position>,
    ) -> (r: Option<GameState>)
        ensures
            r is Some <==> (board_wf(init_board@.map_values(|row: Vec<Option<Piece>>| row@))
                && ep_wf(en_passant_square)),
            r matches Some(g) ==> {
                &&& g.model() == (StateView {
                    board: init_board@.map_values(|row: Vec<Option<Piece>>| row@),
                    current_player: player,
                    en_passant_square,
                })
                &&& g.wf()
            },
    {
        let ghost bview = init_board@.map_values(|row: Vec<Option<Piece>>| row@);
        if init_board.len() != 8 {
            return None;
        }
        let mut r: usize = 0;
        while r < 8
            invariant
                init_board@.len() == 8,
                bview == init_board@.map_values(|row: Vec<Option<Piece>>| row@),
                r <= 8,
                forall|i: int| 0 <= i < r ==> (#[trigger] bview[i]).len() == 8,
                forall|i: int, c: int|
                    0 <= i < r && 0 <= c < 8 ==> (#[trigger] bview[i][c] matches Some(p)
                        ==> p.spec_position().spec_row() == i && p.spec_position().spec_col()
                            == c),
            decreases 8 - r,
        {
            if init_board[r].len() != 8 {
                return None;
            }
            let mut c: usize = 0;
            while c < 8
                invariant
                    init_board@.len() == 8,
                    bview == init_board@.map_values(|row: Vec<Option<Piece>>| row@),
                    r < 8,
                    c <= 8,
                    init_board@[r as int]@.len() == 8,
                    forall|j: int|
                        0 <= j < c ==> (#[trigger] bview[r as int][j] matches Some(p)
                            ==> p.spec_position().spec_row() == r
                                && p.spec_position().spec_col() == j),
                decreases 8 - c,
            {
                if let Some(piece) = init_board[r][c] {
                    let pos = piece.get_position();
                    if !(pos.get_row() as usize == r && pos.get_column() as usize == c) {
                        return None;
                    }
                }
                c += 1;
            }
            r += 1;
        }
        if let Some(ep) = en_passant_square {
            if !(ep.get_row() <= 7 && ep.get_column() <= 7) {
                return None;
            }
        }
        Some(GameState { board: init_board, current_player: player, en_passant_square })
    }

    /// Returns the player whose move it is now.
    pub fn get_current_player(&self) -> (p: Player)
        ensures
            p == self.model().current_player,
    {
        self.current_player
    }

    /// Computes the en-passant square that results from playing a given
    /// move on a given state, judged on that state's board: the move's
    /// destination iff the moved piece is a pawn advancing exactly two
    /// rows with an enemy pawn immediately beside its destination.
    pub fn update_en_passant(state: &GameState, mv: &Move) -> (r: Option<Position>)
        requires
            state.wf(),
            mv.wf(),
        ensures
            r == ep_after(state.model(), *mv),
    {
        let start = mv.get_current_position();
        let end = mv.get_end_position();
        let (end_row, end_col) = end.as_tuple();
        if let Some(p) = state.get_piece(start) {
            let is_pawn = match p.get_type() {
                PieceType::Pawn => true,
                _ => false,
            };
            if is_pawn {
                let dr = end_row as i16 - start.get_row() as i16;
                if dr == 2 || dr == -2 {
                    if end_col >= 1 {
                        if let Some(left) = Position::new(end_row, end_col - 1) {
                            if let Some(q) = state.get_piece(left) {
                                let q_pawn = match q.get_type() {
                                    PieceType::Pawn => true,
                                    _ => false,
                                };
                                if q_pawn && q.get_player() != p.get_player() {
                                    return Some(end);
                                }
                            }
                        }
                    }
                    if end_col <= 6 {
                        if let Some(right) = Position::new(end_row, end_col + 1) {
                            if let Some(q) = state.get_piece(right) {
                                let q_pawn = match q.get_type() {
                                    PieceType::Pawn => true,
                                    _ => false,
                                };
                                if q_pawn && q.get_player() != p.get_player() {
                                    return Some(end);
                                }
                            }
                        }
                    }
                }
            }
        }
        None
    }

    /// Generates the next state that would result from a given move and a
    /// given promotion choice.  This method does not check the legality of
    /// the move, but only performs it: the moved piece lands on the
    /// destination with its eligibility flags cleared, the source square
    /// is vacated, a passed pawn taken en passant is removed, a supplied
    /// promotion choice replaces a pawn landing on its back rank with a
    /// freshly constructed piece of the same player (and is ignored for
    /// any other move), the turn passes to the opponent, and the
    /// en-passant square is recomputed.  The given state is left
    /// untouched.
    pub fn transform_state(state: &GameState, mv: Move, promotion: Option<PromotionType>) -> (r:
        GameState)
        requires
            state.wf(),
            mv.wf(),
        ensures
            r.model() == transform_spec(state.model(), mv, promotion),
            r.wf(),
    {
        let ghost s = state.model();
        let from = mv.get_current_position();
        let to = mv.get_end_position();
        let (fr, fc) = from.as_tuple();
        let (tr, tc) = to.as_tuple();
        let moved = state.get_piece(from);
        let promoting = match moved {
            Some(p) => {
                let is_pawn = match p.get_type() {
                    PieceType::Pawn => true,
                    _ => false,
                };
                let rank: u8 = if p.get_player() == Player::White {
                    7
                } else {
                    0
                };
                is_pawn && tr == rank
            },
            None => false,
        };
        let ep_cap = Self::is_ep_capture_exec(state, &mv);
        let next_ep = Self::update_en_passant(state, &mv);
        let mut new_board: Vec<Vec<Option<Piece>>> = Vec::new();
        let mut r: u8 = 0;
        while r < 8
            invariant
                state.wf(),
                mv.wf(),
                s == state.model(),
                from == mv.from_pos(),
                to == mv.to_pos(),
                fr == from.spec_row(),
                fc == from.spec_col(),
                tr == to.spec_row(),
                tc == to.spec_col(),
                moved == s.at_pos(from),
                promoting == promoting_move(s, mv),
                ep_cap == is_ep_capture(s, mv),
                r <= 8,
                new_board@.len() == r,
                forall|i: int, j: int|
                    0 <= i < r && 0 <= j < 8 ==> (#[trigger] new_board@[i]@[j] == square_after(
                        s,
                        mv,
                        promotion,
                        i,
                        j,
                    )),
                forall|i: int| 0 <= i < r ==> (#[trigger] new_board@[i]@).len() == 8,
            decreases 8 - r,
        {
            let mut row: Vec<Option<Piece>> = Vec::new();
            let mut c: u8 = 0;
            while c < 8
                invariant
                    state.wf(),
                    mv.wf(),
                    s == state.model(),
                    from == mv.from_pos(),
                    to == mv.to_pos(),
                    fr == from.spec_row(),
                    fc == from.spec_col(),
                    tr == to.spec_row(),
                    tc == to.spec_col(),
                    moved == s.at_pos(from),
                    promoting == promoting_move(s, mv),
                    ep_cap == is_ep_capture(s, mv),
                    r < 8,
                    c <= 8,
                    row@.len() == c,
                    forall|j: int|
                        0 <= j < c ==> (#[trigger] row@[j] == square_after(
                            s,
                            mv,
                            promotion,
                            r as int,
                            j,
                        )),
                decreases 8 - c,
            {
                let val: Option<Piece> = if r == tr && c == tc {
                    match moved {
                        Some(p) => {
                            if promoting {
                                match promotion {
                                    Some(PromotionType::Knight) => Some(
                                        Piece::new_knight(to, p.get_player()),
                                    ),
                                    Some(PromotionType::Bishop) => Some(
                                        Piece::new_bishop(to, p.get_player()),
                                    ),
                                    Some(PromotionType::Rook) => Some(
                                        Piece::new_rook(to, p.get_player(), true),
                                    ),
                                    Some(PromotionType::Queen) => Some(
                                        Piece::new_queen(to, p.get_player()),
                                    ),
                                    None => Some(p.shift(to)),
                                }
                            } else {
                                Some(p.shift(to))
                            }
                        },
                        None => None,
                    }
                } else if r == fr && c == fc {
                    None
                } else if ep_cap && r == fr && c == tc {
                    None
                } else {
                    match Position::new(r, c) {
                        Some(pos) => state.get_piece(pos),
                        None => None,
                    }
                };
                row.push(val);
                c += 1;
            }
            new_board.push(row);
            r += 1;
        }
        let result = GameState {
            board: new_board,
            current_player: get_opponent(state.current_player),
            en_passant_square: next_ep,
        };
        proof {
            let t = transform_spec(s, mv, promotion);
            assert forall|i: int| 0 <= i < 8 implies result.model().board[i] == t.board[i] by {
                assert(result.model().board[i] =~= t.board[i]);
            }
            assert(result.model().board =~= t.board);
            assert(result.model() == t);
            assert forall|i: int, j: int| on_board(i, j) implies (#[trigger] t.board[i][j]
                matches Some(p) ==> p.spec_position().spec_row() == i
                    && p.spec_position().spec_col() == j) by {
                assert(t.board[i][j] == square_after(s, mv, promotion, i, j));
            }
            assert(result.wf());
        }
        result
    }

    /// Decides whether a move is an en-passant capture on this board: a
    /// pawn moving one square diagonally forward onto an empty square,
    /// past the enemy piece recorded as the en-passant target.
    fn is_ep_capture_exec(state: &GameState, mv: &Move) -> (b: bool)
        requires
            state.wf(),
            mv.wf(),
        ensures
            b == is_ep_capture(state.model(), *mv),
    {
        let from = mv.get_current_position();
        let to = mv.get_end_position();
        let (fr, fc) = from.as_tuple();
        let (tr, tc) = to.as_tuple();
        if let Some(p) = state.get_piece(from) {
            let is_pawn = match p.get_type() {
                PieceType::Pawn => true,
                _ => false,
            };
            if !is_pawn {
                return false;
            }
            let d: i16 = if p.get_player() == Player::White {
                1
            } else {
                -1
            };
            if tr as i16 != fr as i16 + d {
                return false;
            }
            let dc = tc as i16 - fc as i16;
            if !(dc == 1 || dc == -1) {
                return false;
            }
            if state.get_piece(to).is_some() {
                return false;
            }
            let beside = match Position::new(fr, tc) {
                Some(pos) => pos,
                None => {
                    return false;
                },
            };
            let enemy_beside = match state.get_piece(beside) {
                Some(q) => q.get_player() != p.get_player(),
                None => false,
            };
            if !enemy_beside {
                return false;
            }
            match state.get_en_passant_square() {
                Some(ep) => ep.get_row() == fr && ep.get_column() == tc,
                None => false,
            }
        } else {
            false
        }
    }

    /// Returns true if a given position resides on the last row from the
    /// perspective of the current player.
    fn is_end_row(&self, position: Position) -> (b: bool)
        ensures
            b == (position.spec_row() == back_rank(self.model().current_player)),
    {
        let end_row: u8 = if self.current_player == Player::White {
            7
        } else {
            0
        };
        position.get_row() == end_row
    }

    /// Returns true if the move would promote a pawn: the piece on its
    /// source square is a pawn and its destination lies on the current
    /// player's back rank.
    pub fn is_promotion_move(&self, mv: Move) -> (b: bool)
        requires
            self.wf(),
            mv.wf(),
        ensures
            b == (self.model().at_pos(mv.from_pos()) matches Some(p) && p.spec_kind()
                == PieceType::Pawn && mv.to_pos().spec_row() == back_rank(
                self.model().current_player,
            )),
    {
        let moved = self.get_piece(mv.get_current_position());
        match moved {
            Some(p) => {
                let is_pawn = match p.get_type() {
                    PieceType::Pawn => true,
                    _ => false,
                };
                is_pawn && self.is_end_row(mv.get_end_position())
            },
            None => false,
        }
    }

    /// Returns true if the piece on the move's source square is a pawn
    /// whose double-step flag is still set and the move is one square
    /// diagonal.
    pub fn can_en_passant(game_state: &GameState, mv: &Move) -> (b: bool)
        requires
            game_state.wf(),
            mv.wf(),
        ensures
            b == (game_state.model().at_pos(mv.from_pos()) matches Some(p) && p.spec_kind()
                == PieceType::Pawn && p.spec_first_move() && abs(
                mv.to_pos().spec_row() - mv.from_pos().spec_row(),
            ) == 1 && abs(mv.to_pos().spec_col() - mv.from_pos().spec_col()) == 1),
    {
        let from = mv.get_current_position();
        if let Some(p) = game_state.get_piece(from) {
            let is_pawn = match p.get_type() {
                PieceType::Pawn => true,
                _ => false,
            };
            if is_pawn && p.first_move() {
                let dr = mv.get_end_position().get_row() as i16 - from.get_row() as i16;
                let dc = mv.get_end_position().get_column() as i16 - from.get_column() as i16;
                if (dr == 1 || dr == -1) && (dc == 1 || dc == -1) {
                    return true;
                }
            }
        }
        false
    }

    /// The position of the first king of `pl` in row-major order, if any.
    fn find_king(&self, pl: Player) -> (o: Option<Position>)
        requires
            self.wf(),
        ensures
            o is Some <==> first_king_from(self.model(), pl, 0) < 64,
            o matches Some(p) ==> p.wf() && p.spec_row() == first_king_from(self.model(), pl, 0)
                / 8 && p.spec_col() == first_king_from(self.model(), pl, 0) % 8,
    {
        let ghost s = self.model();
        let mut idx: u8 = 0;
        while idx < 64
            invariant
                self.wf(),
                s == self.model(),
                idx <= 64,
                forall|t: int| 0 <= t < idx ==> !king_at(s, pl, t),
            decreases 64 - idx,
        {
            let r = idx / 8;
            let c = idx % 8;
            let pos = match Position::new(r, c) {
                Some(p) => p,
                None => {
                    return None;
                },
            };
            if let Some(p) = self.get_piece(pos) {
                let is_king = match p.get_type() {
                    PieceType::King => true,
                    _ => false,
                };
                if is_king && p.get_player() == pl {
                    proof {
                        assert(king_at(s, pl, idx as int));
                        lemma_first_king_found(s, pl, 0, idx as int);
                    }
                    return Some(pos);
                }
            }
            proof {
                assert(!king_at(s, pl, idx as int));
            }
            idx += 1;
        }
        proof {
            lemma_first_king_none(s, pl, 0);
        }
        None
    }

    /// Decides whether some piece of `pl` has a plain (castling-free)
    /// move landing on `target`.
    #[verifier::loop_isolation(false)]
    pub(crate) fn square_attacked(&self, pl: Player, target: Position) -> (b: bool)
        requires
            self.wf(),
            target.wf(),
        ensures
            b == attacks(self.model(), pl, target.spec_row(), target.spec_col()),
    {
        let ghost s = self.model();
        let mut r: u8 = 0;
        while r < 8
            invariant
                self.wf(),
                s == self.model(),
                target.wf(),
                r <= 8,
                forall|m: Move|
                    (#[trigger] plain_from_square(s, m) && (s.at_pos(m.from_pos())
                        matches Some(p) && p.spec_player() == pl) && m.from_pos().spec_row()
                        < r) ==> !(m.to_pos().spec_row() == target.spec_row()
                        && m.to_pos().spec_col() == target.spec_col()),
            decreases 8 - r,
        {
            let mut c: u8 = 0;
            while c < 8
                invariant
                    self.wf(),
                    s == self.model(),
                    target.wf(),
                    r < 8,
                    c <= 8,
                    forall|m: Move|
                        (#[trigger] plain_from_square(s, m) && (s.at_pos(m.from_pos())
                            matches Some(p) && p.spec_player() == pl) && (m.from_pos().spec_row()
                            < r || (m.from_pos().spec_row() == r && m.from_pos().spec_col()
                            < c))) ==> !(m.to_pos().spec_row() == target.spec_row()
                            && m.to_pos().spec_col() == target.spec_col()),
                decreases 8 - c,
            {
                let pos = match Position::new(r, c) {
                    Some(p) => p,
                    None => {
                        return false;
                    },
                };
                if let Some(p) = self.get_piece(pos) {
                    if p.get_player() == pl {
                        proof {
                            assert(p.spec_position() == pos);
                        }
                        let ms = p.get_plain_moves(self);
                        let mut i: usize = 0;
                        while i < ms.len()
                            invariant
                                target.wf(),
                                forall|j: int|
                                    0 <= j < i ==> !((#[trigger] ms@[j]).to_pos().spec_row()
                                        == target.spec_row() && ms@[j].to_pos().spec_col()
                                        == target.spec_col()),
                                forall|m: Move|
                                    #[trigger] ms@.contains(m) <==> plain_move(s, p, m),
                            decreases ms.len() - i,
                        {
                            let m = ms[i];
                            if m.get_end_position() == target {
                                proof {
                                    assert(ms@.contains(m)) by {
                                        assert(ms@[i as int] == m);
                                    }
                                    assert(plain_from_square(s, m));
                                    assert(attacks(s, pl, target.spec_row(), target.spec_col()));
                                }
                                return true;
                            }
                            i += 1;
                        }
                        proof {
                            assert forall|m: Move|
                                (plain_from_square(s, m) && (s.at_pos(m.from_pos())
                                    matches Some(q) && q.spec_player() == pl)
                                    && (m.from_pos().spec_row() < r || (m.from_pos().spec_row()
                                    == r && m.from_pos().spec_col() <= c)))
                                implies !(m.to_pos().spec_row() == target.spec_row()
                                    && m.to_pos().spec_col() == target.spec_col()) by {
                                if m.from_pos().spec_row() == r && m.from_pos().spec_col() == c {
                                    assert(ms@.contains(m));
                                    let j = choose|j: int| 0 <= j < ms@.len() && ms@[j] == m;
                                }
                            }
                        }
                    } else {
                        proof {
                            assert forall|m: Move|
                                (plain_from_square(s, m) && (s.at_pos(m.from_pos())
                                    matches Some(q) && q.spec_player() == pl)
                                    && m.from_pos().spec_row() == r && m.from_pos().spec_col()
                                    == c) implies false by {}
                        }
                    }
                }
                c += 1;
            }
            r += 1;
        }
        proof {
            if attacks(s, pl, target.spec_row(), target.spec_col()) {
                let m = choose|m: Move|
                    {
                        &&& #[trigger] plain_from_square(s, m)
                        &&& (s.at_pos(m.from_pos()) matches Some(p) && p.spec_player() == pl)
                        &&& m.to_pos().spec_row() == target.spec_row()
                        &&& m.to_pos().spec_col() == target.spec_col()
                    };
                assert(false);
            }
        }
        false
    }

    /// Decides whether `pl`'s first-found king is attacked by the
    /// opposing side; a board without a king of `pl` counts as not in
    /// check.
    pub(crate) fn player_in_check(&self, pl: Player) -> (b: bool)
        requires
            self.wf(),
        ensures
            b == in_check_player(self.model(), pl),
    {
        match self.find_king(pl) {
            Some(kp) => self.square_attacked(get_opponent(pl), kp),
            None => false,
        }
    }

    /// Returns true if the current player is under check: some opponent
    /// piece has a plain move onto the current player's king's square.
    pub fn is_checked(&self) -> (b: bool)
        requires
            self.wf(),
        ensures
            b == in_check_player(self.model(), self.model().current_player),
    {
        let pl = self.get_current_player();
        self.player_in_check(pl)
    }

    /// Returns all the moves that can be made by the piece on a given
    /// position; an empty vector if the square is empty.
    pub fn get_moves(&self, position: Position) -> (r: Vec<Move>)
        requires
            self.wf(),
            position.wf(),
        ensures
            r@.no_duplicates(),
            forall|m: Move|
                #[trigger] r@.contains(m) <==> (self.model().at_pos(position) matches Some(p)
                    && legal_move(self.model(), p, m)),
    {
        match self.get_piece(position) {
            Some(piece) => piece.get_moves(self),
            None => Vec::new(),
        }
    }

    /// Returns all the legal moves that can be made by the current player.
    #[verifier::loop_isolation(false)]
    fn get_all_moves(&self) -> (r: Vec<Move>)
        requires
            self.wf(),
        ensures
            r@.no_duplicates(),
            forall|m: Move| #[trigger] r@.contains(m) <==> legal_state_move(self.model(), m),
    {
        let ghost s = self.model();
        let mut result: Vec<Move> = Vec::new();
        let mut r: u8 = 0;
        while r < 8
            invariant
                r <= 8,
                result@.no_duplicates(),
                forall|m: Move|
                    #[trigger] result@.contains(m) <==> (legal_state_move(s, m)
                        && m.from_pos().spec_row() < r),
            decreases 8 - r,
        {
            let mut c: u8 = 0;
            while c < 8
                invariant
                    r < 8,
                    c <= 8,
                    result@.no_duplicates(),
                    forall|m: Move|
                        #[trigger] result@.contains(m) <==> (legal_state_move(s, m) && (
                        m.from_pos().spec_row() < r || (m.from_pos().spec_row() == r
                            && m.from_pos().spec_col() < c))),
                decreases 8 - c,
            {
                let ghost pacc = |m: Move|
                    legal_state_move(s, m) && (m.from_pos().spec_row() < r as int || (
                    m.from_pos().spec_row() == r as int && m.from_pos().spec_col() < c as int));
                let pos = match Position::new(r, c) {
                    Some(p) => p,
                    None => {
                        return result;
                    },
                };
                if let Some(p) = self.get_piece(pos) {
                    if p.get_player() == self.get_current_player() {
                        proof {
                            assert(p.spec_position() == pos);
                        }
                        let ms = p.get_moves(self);
                        let ghost pnew = |m: Move| legal_move(s, p, m);
                        proof {
                            assert forall|m: Move| !(#[trigger] pacc(m) && pnew(m)) by {}
                        }
                        result = merge_moves(result, ms, Ghost(pacc), Ghost(pnew));
                    }
                }
                c += 1;
            }
            r += 1;
        }
        result
    }

    /// Returns true if the current state indicates that the game has
    /// finished: the current player has no legal move left.  This covers
    /// both checkmate and a stalemate-like no-move state.
    pub fn is_finished(&self) -> (b: bool)
        requires
            self.wf(),
        ensures
            b == (forall|m: Move| !legal_state_move(self.model(), m)),
    {
        let all = self.get_all_moves();
        let b = all.len() == 0;
        proof {
            if all@.len() > 0 {
                assert(all@.contains(all@[0]));
            } else {
                assert forall|m: Move| !legal_state_move(self.model(), m) by {
                    if legal_state_move(self.model(), m) {
                        assert(all@.contains(m));
                    }
                }
            }
        }
        b
    }

    /// If the match has resulted in a win, returns the winning player:
    /// the opponent of the current player, exactly when the current
    /// player stands in check and has no legal move left.  In a running
    /// game, and in a no-move state without check, there is no winner.
    pub fn get_winner(&self) -> (r: Option<Player>)
        requires
            self.wf(),
        ensures
            r == (if in_check_player(self.model(), self.model().current_player) && (forall|
                m: Move,
            | !legal_state_move(self.model(), m)) {
                Some(opponent(self.model().current_player))
            } else {
                None::<Player>
            }),
    {
        if self.is_checked() && self.is_finished() {
            Some(get_opponent(self.get_current_player()))
        } else {
            None
        }
    }

    /// The occupant of square (r, c) in the standard starting position.
    fn init_square_exec(r: u8, c: u8) -> (o: Option<Piece>)
        requires
            r < 8,
            c < 8,
        ensures
            o == init_square(r as int, c as int),
    {
        let pos = match Position::new(r, c) {
            Some(p) => p,
            None => {
                return None;
            },
        };
        if r == 0 || r == 7 {
            let pl = if r == 0 {
                Player::White
            } else {
                Player::Black
            };
            if c == 0 || c == 7 {
                Some(Piece::new_rook(pos, pl, true))
            } else if c == 1 || c == 6 {
                Some(Piece::new_knight(pos, pl))
            } else if c == 2 || c == 5 {
                Some(Piece::new_bishop(pos, pl))
            } else if c == 3 {
                Some(Piece::new_queen(pos, pl))
            } else {
                Some(Piece::new_king(pos, pl, true))
            }
        } else if r == 1 || r == 6 {
            let pl = if r == 1 {
                Player::White
            } else {
                Player::Black
            };
            Some(Piece::new_pawn(pos, pl, true))
        } else {
            None
        }
    }

    /// Creates the standard starting position: White on rows 0 and 1,
    /// Black on rows 6 and 7, every rook, king and pawn still carrying its
    /// castling or double-step eligibility, White to move, and no
    /// en-passant square.
    pub fn init() -> (r: GameState)
        ensures
            r.wf(),
            r.model().current_player == Player::White,
            r.model().en_passant_square is None,
            forall|i: int, j: int|
                on_board(i, j) ==> #[trigger] r.model().board[i][j] == init_square(i, j),
    {
        let mut board: Vec<Vec<Option<Piece>>> = Vec::new();
        let mut r: u8 = 0;
        while r < 8
            invariant
                r <= 8,
                board@.len() == r,
                forall|i: int| 0 <= i < r ==> (#[trigger] board@[i]@).len() == 8,
                forall|i: int, j: int|
                    0 <= i < r && 0 <= j < 8 ==> (#[trigger] board@[i]@[j] == init_square(i, j)),
            decreases 8 - r,
        {
            let mut row: Vec<Option<Piece>> = Vec::new();
            let mut c: u8 = 0;
            while c < 8
                invariant
                    r < 8,
                    c <= 8,
                    row@.len() == c,
                    forall|j: int| 0 <= j < c ==> (#[trigger] row@[j] == init_square(r as int, j)),
                decreases 8 - c,
            {
                row.push(Self::init_square_exec(r, c));
                c += 1;
            }
            board.push(row);
            r += 1;
        }
        let result = GameState {
            board,
            current_player: Player::White,
            en_passant_square: None,
        };
        proof {
            assert forall|i: int, j: int| on_board(i, j) implies (#[trigger] result.model().board[i][j]
                == init_square(i, j)) by {}
            assert forall|i: int, j: int| on_board(i, j) implies (#[trigger] result.model().board[i][j]
                matches Some(p) ==> p.spec_position().spec_row() == i
                    && p.spec_position().spec_col() == j) by {
                assert(result.model().board[i][j] == init_square(i, j));
            }
        }
        result
    }

    /// Tells whether playing the given move on this board would capture a
    /// chessman: the destination square is occupied, or the move is an
    /// en-passant capture of the passed pawn.
    pub fn capture_status(&self, mv: &Move) -> (r: ChessmanStatus)
        requires
            self.wf(),
            mv.wf(),
        ensures
            r == (if self.model().at_pos(mv.to_pos()) is Some || is_ep_capture(self.model(), *mv) {
                ChessmanStatus::Captured
            } else {
                ChessmanStatus::NotCaptured
            }),
    {
        if self.get_piece(mv.get_end_position()).is_some() {
            ChessmanStatus::Captured
        } else if Self::is_ep_capture_exec(self, mv) {
            ChessmanStatus::Captured
        } else {
            ChessmanStatus::NotCaptured
        }
    }

    /// Returns the piece standing on a given square, if any.
    pub fn get_piece(&self, position: Position) -> (r: Option<Piece>)
        requires
            self.wf(),
            position.wf(),
        ensures
            r == self.model().at_pos(position),
    {
        let (row, column) = position.as_tuple();
        self.board[row as usize][column as usize]
    }

    /// Returns the position of the pawn that can currently be taken en
    /// passant, if there is one.
    pub fn get_en_passant_square(&self) -> (r: Option<Position>)
        ensures
            r == self.model().en_passant_square,
    {
        self.en_passant_square
    }
}

} // verus!
