use crate::gamestate::GameState;
use crate::gamestate::legal_move;
use crate::movement;
use crate::movement::plain_move;
use crate::movement::pseudo_move;
use crate::player::Player;
use crate::position::Position;
use vstd::prelude::*;

verus! {

/// The six kinds of chess pieces.
#[derive(Debug, Clone, Copy, PartialEq, Eq, Structural, Hash)]
pub enum PieceType {
    Pawn,
    Knight,
    Bishop,
    Rook,
    Queen,
    King,
}

/// The six piece kinds under their traditional names; an alternative
/// naming of [`PieceType`] kept for hosts that speak of chessmen.
#[derive(Debug, Clone, Copy, PartialEq, Eq, Structural, Hash)]
pub enum ChessmanKind {
    Pawn,
    Rook,
    Bishop,
    Knight,
    King,
    Queen,
}

impl ChessmanKind {
    /// The same kind as a [`PieceType`] value.
    pub open spec fn as_piece_type_spec(self) -> PieceType {
        match self {
            ChessmanKind::Pawn => PieceType::Pawn,
            ChessmanKind::Rook => PieceType::Rook,
            ChessmanKind::Bishop => PieceType::Bishop,
            ChessmanKind::Knight => PieceType::Knight,
            ChessmanKind::King => PieceType::King,
            ChessmanKind::Queen => PieceType::Queen,
        }
    }

    /// Returns the same kind as a [`PieceType`] value.
    pub fn as_piece_type(self) -> (t: PieceType)
        ensures
            t == self.as_piece_type_spec(),
    {
        match self {
            ChessmanKind::Pawn => PieceType::Pawn,
            ChessmanKind::Rook => PieceType::Rook,
            ChessmanKind::Bishop => PieceType::Bishop,
            ChessmanKind::Knight => PieceType::Knight,
            ChessmanKind::King => PieceType::King,
            ChessmanKind::Queen => PieceType::Queen,
        }
    }
}

/// The piece kinds a pawn may be promoted to.
#[derive(Debug, Clone, Copy, PartialEq, Eq, Structural, Hash)]
pub enum PromotionType {
    Queen,
    Rook,
    Bishop,
    Knight,
}

/// Data present in every piece variant: the square the piece stands on and
/// the player it belongs to.
#[derive(Debug, Clone, Copy, PartialEq, Eq, Structural, Hash)]
pub struct SharedData {
    pub(crate) position: Position,
    pub(crate) player: Player,
}

impl SharedData {
    /// The square the piece stands on.
    pub open(crate) spec fn spec_position(self) -> Position {
        self.position
    }

    /// The player the piece belongs to.
    pub open(crate) spec fn spec_player(self) -> Player {
        self.player
    }

    /// Creates the shared payload of a piece.
    pub fn new(new_position: Position, new_player: Player) -> (r: SharedData)
        ensures
            r.spec_position() == new_position,
            r.spec_player() == new_player,
    {
        SharedData { position: new_position, player: new_player }
    }

    /// Returns the square the piece stands on.
    pub fn get_position(&self) -> (p: Position)
        ensures
            p == self.spec_position(),
    {
        self.position
    }

    /// Returns the player the piece belongs to.
    pub fn get_player(&self) -> (p: Player)
        ensures
            p == self.spec_player(),
    {
        self.player
    }
}

/// A piece on the board: a closed union over the six kinds.  Each variant
/// carries its square and owner; a pawn additionally carries whether it is
/// still eligible for its two-square first step, and a rook or king whether
/// it is still eligible for castling.  Pieces are immutable values: moving
/// one produces a fresh value through [`Piece::shift`].
#[derive(Debug, Clone, Copy, PartialEq, Eq, Structural, Hash)]
pub enum Piece {
    /// A pawn, with its double-step eligibility flag.
    Pawn(SharedData, bool),
    Knight(SharedData),
    Bishop(SharedData),
    /// A rook, with its castling eligibility flag.
    Rook(SharedData, bool),
    Queen(SharedData),
    /// A king, with its castling eligibility flag.
    King(SharedData, bool),
}

impl Piece {
    /// The shared payload of the piece.
    pub open(crate) spec fn data(self) -> SharedData {
        match self {
            Piece::Pawn(d, _) => d,
            Piece::Knight(d) => d,
            Piece::Bishop(d) => d,
            Piece::Rook(d, _) => d,
            Piece::Queen(d) => d,
            Piece::King(d, _) => d,
        }
    }

    /// The player the piece belongs to.
    pub open(crate) spec fn spec_player(self) -> Player {
        self.data().player
    }

    /// The square the piece stands on.
    pub open(crate) spec fn spec_position(self) -> Position {
        self.data().position
    }

    /// The kind of the piece.
    pub open(crate) spec fn spec_kind(self) -> PieceType {
        match self {
            Piece::Pawn(_, _) => PieceType::Pawn,
            Piece::Knight(_) => PieceType::Knight,
            Piece::Bishop(_) => PieceType::Bishop,
            Piece::Rook(_, _) => PieceType::Rook,
            Piece::Queen(_) => PieceType::Queen,
            Piece::King(_, _) => PieceType::King,
        }
    }

    /// Whether a king or rook is still eligible for castling; false for
    /// every other kind.
    pub open(crate) spec fn spec_can_castle(self) -> bool {
        match self {
            Piece::Rook(_, b) => b,
            Piece::King(_, b) => b,
            _ => false,
        }
    }

    /// Whether a pawn is still eligible for its two-square first step;
    /// false for every other kind.
    pub open(crate) spec fn spec_first_move(self) -> bool {
        match self {
            Piece::Pawn(_, b) => b,
            _ => false,
        }
    }

    /// The piece stands on the board.
    pub open(crate) spec fn wf(self) -> bool {
        self.spec_position().wf()
    }

    /// The value of the same piece after it has moved to `to`: same kind,
    /// same player, standing on `to`, with every eligibility flag cleared.
    pub open(crate) spec fn shifted(self, to: Position) -> Piece {
        match self {
            Piece::Pawn(d, _) => Piece::Pawn(SharedData { position: to, ..d }, false),
            Piece::Knight(d) => Piece::Knight(SharedData { position: to, ..d }),
            Piece::Bishop(d) => Piece::Bishop(SharedData { position: to, ..d }),
            Piece::Rook(d, _) => Piece::Rook(SharedData { position: to, ..d }, false),
            Piece::Queen(d) => Piece::Queen(SharedData { position: to, ..d }),
            Piece::King(d, _) => Piece::King(SharedData { position: to, ..d }, false),
        }
    }

    /// Creates a new pawn.
    pub fn new_pawn(position: Position, player: Player, first_move: bool) -> (r: Piece)
        ensures
            r.spec_kind() == PieceType::Pawn,
            r.spec_position() == position,
            r.spec_player() == player,
            r.spec_first_move() == first_move,
    {
        Piece::Pawn(SharedData::new(position, player), first_move)
    }

    /// Creates a new knight.
    pub fn new_knight(position: Position, player: Player) -> (r: Piece)
        ensures
            r.spec_kind() == PieceType::Knight,
            r.spec_position() == position,
            r.spec_player() == player,
    {
        Piece::Knight(SharedData::new(position, player))
    }

    /// Creates a new bishop.
    pub fn new_bishop(position: Position, player: Player) -> (r: Piece)
        ensures
            r.spec_kind() == PieceType::Bishop,
            r.spec_position() == position,
            r.spec_player() == player,
    {
        Piece::Bishop(SharedData::new(position, player))
    }

    /// Creates a new rook.
    pub fn new_rook(position: Position, player: Player, can_castle: bool) -> (r: Piece)
        ensures
            r.spec_kind() == PieceType::Rook,
            r.spec_position() == position,
            r.spec_player() == player,
            r.spec_can_castle() == can_castle,
    {
        Piece::Rook(SharedData::new(position, player), can_castle)
    }

    /// Creates a new queen.
    pub fn new_queen(position: Position, player: Player) -> (r: Piece)
        ensures
            r.spec_kind() == PieceType::Queen,
            r.spec_position() == position,
            r.spec_player() == player,
    {
        Piece::Queen(SharedData::new(position, player))
    }

    /// Creates a new king.
    pub fn new_king(position: Position, player: Player, can_castle: bool) -> (r: Piece)
        ensures
            r.spec_kind() == PieceType::King,
            r.spec_position() == position,
            r.spec_player() == player,
            r.spec_can_castle() == can_castle,
    {
        Piece::King(SharedData::new(position, player), can_castle)
    }

    /// Returns the piece's player.
    pub fn get_player(&self) -> (p: Player)
        ensures
            p == self.spec_player(),
    {
        match self {
            Piece::Pawn(data, _) => data.player,
            Piece::Knight(data) => data.player,
            Piece::Bishop(data) => data.player,
            Piece::Rook(data, _) => data.player,
            Piece::Queen(data) => data.player,
            Piece::King(data, _) => data.player,
        }
    }

    /// Returns the piece's position.
    pub fn get_position(&self) -> (p: Position)
        ensures
            p == self.spec_position(),
    {
        match self {
            Piece::Pawn(data, _) => data.position,
            Piece::Knight(data) => data.position,
            Piece::Bishop(data) => data.position,
            Piece::Rook(data, _) => data.position,
            Piece::Queen(data) => data.position,
            Piece::King(data, _) => data.position,
        }
    }

    /// Returns a PieceType value according to the piece's kind.
    pub fn get_type(&self) -> (t: PieceType)
        ensures
            t == self.spec_kind(),
    {
        match self {
            Piece::Pawn(_, _) => PieceType::Pawn,
            Piece::Knight(_) => PieceType::Knight,
            Piece::Bishop(_) => PieceType::Bishop,
            Piece::Rook(_, _) => PieceType::Rook,
            Piece::Queen(_) => PieceType::Queen,
            Piece::King(_, _) => PieceType::King,
        }
    }

    /// Returns the player and kind of the piece, bundled for a host that
    /// only renders the board.
    pub fn get_data(&self) -> (d: PieceData)
        ensures
            d.spec_player() == self.spec_player(),
            d.spec_kind() == self.spec_kind(),
    {
        PieceData::new(self.get_player(), self.get_type())
    }

    /// Returns true if a king or a rook is still eligible for castling.
    pub fn can_castle(&self) -> (b: bool)
        ensures
            b == self.spec_can_castle(),
    {
        match self {
            Piece::King(_, result) => *result,
            Piece::Rook(_, result) => *result,
            _ => false,
        }
    }

    /// Returns true if a pawn is yet to make its first move and may
    /// therefore advance two squares.
    pub fn first_move(&self) -> (b: bool)
        ensures
            b == self.spec_first_move(),
    {
        if let Piece::Pawn(_, result) = self {
            *result
        } else {
            false
        }
    }

    /// Returns all the moves that a piece can physically make on the given
    /// board, therefore not taking into account possible consequences such
    /// as checks or pins.  The one exception is castling, which by rule is
    /// barred outright while the king stands in check.
    pub fn get_unchecked_moves(&self, state: &GameState) -> (r: Vec<crate::moves::Move>)
        requires
            state.wf(),
            self.wf(),
            state.model().at_pos(self.spec_position()) == Some(*self),
        ensures
            r@.no_duplicates(),
            forall|m: crate::moves::Move|
                #[trigger] r@.contains(m) <==> pseudo_move(state.model(), *self, m),
    {
        match self {
            Piece::Pawn(data, first) => movement::pawn_moves(
                state,
                data.get_position(),
                data.get_player(),
                *first,
            ),
            Piece::Knight(data) => movement::knight_moves(
                state,
                data.get_position(),
                data.get_player(),
            ),
            Piece::Bishop(data) => movement::bishop_moves(
                state,
                data.get_position(),
                data.get_player(),
            ),
            Piece::Rook(data, _) => movement::rook_moves(
                state,
                data.get_position(),
                data.get_player(),
            ),
            Piece::Queen(data) => movement::queen_moves(
                state,
                data.get_position(),
                data.get_player(),
            ),
            Piece::King(data, cc) => movement::king_moves(
                state,
                data.get_position(),
                data.get_player(),
                *cc,
            ),
        }
    }

    /// Returns the plain (castling-free) moves of this piece on the given
    /// board: what the attack scan consults, since castling never lands
    /// on an occupied square and so never delivers an attack.
    pub(crate) fn get_plain_moves(&self, state: &GameState) -> (r: Vec<crate::moves::Move>)
        requires
            state.wf(),
            self.wf(),
        ensures
            r@.no_duplicates(),
            forall|m: crate::moves::Move|
                #[trigger] r@.contains(m) <==> plain_move(state.model(), *self, m),
    {
        match self {
            Piece::Pawn(data, first) => movement::pawn_moves(
                state,
                data.get_position(),
                data.get_player(),
                *first,
            ),
            Piece::Knight(data) => movement::knight_moves(
                state,
                data.get_position(),
                data.get_player(),
            ),
            Piece::Bishop(data) => movement::bishop_moves(
                state,
                data.get_position(),
                data.get_player(),
            ),
            Piece::Rook(data, _) => movement::rook_moves(
                state,
                data.get_position(),
                data.get_player(),
            ),
            Piece::Queen(data) => movement::queen_moves(
                state,
                data.get_position(),
                data.get_player(),
            ),
            Piece::King(data, _) => movement::king_step_moves(
                state,
                data.get_position(),
                data.get_player(),
            ),
        }
    }

    /// Returns all the moves this piece can legally make on the given
    /// board: every pseudo-legal candidate is played out on a copy of the
    /// state, and kept only when the resulting position leaves the mover's
    /// own king unattacked.
    #[verifier::loop_isolation(false)]
    pub fn get_moves(&self, state: &GameState) -> (r: Vec<crate::moves::Move>)
        requires
            state.wf(),
            self.wf(),
            state.model().at_pos(self.spec_position()) == Some(*self),
        ensures
            r@.no_duplicates(),
            forall|m: crate::moves::Move|
                #[trigger] r@.contains(m) <==> legal_move(state.model(), *self, m),
    {
        let ghost s = state.model();
        let cands = self.get_unchecked_moves(state);
        let mut result: Vec<crate::moves::Move> = Vec::new();
        let mut i: usize = 0;
        while i < cands.len()
            invariant
                result@.no_duplicates(),
                forall|m: crate::moves::Move|
                    #[trigger] result@.contains(m) <==> ((exists|j: int|
                        0 <= j < i && cands@[j] == m) && legal_move(s, *self, m)),
            decreases cands.len() - i,
        {
            let m = cands[i];
            proof {
                assert(cands@.contains(m)) by {
                    assert(cands@[i as int] == m);
                }
                movement::lemma_pattern_to_wf(s, *self, m.to_pos());
            }
            let next = GameState::transform_state(state, m, None);
            if !next.player_in_check(self.get_player()) {
                proof {
                    assert(!result@.contains(m)) by {
                        if result@.contains(m) {
                            let j = choose|j: int| 0 <= j < i && cands@[j] == m;
                            assert(cands@[j] == cands@[i as int]);
                        }
                    }
                }
                let ghost snap = result@;
                result.push(m);
                proof {
                    assert forall|m2: crate::moves::Move| #[trigger] result@.contains(m2) <==> (
                        snap.contains(m2) || m2 == m) by {
                        movement::lemma_push_contains(snap, m, m2);
                    }
                    assert forall|m2: crate::moves::Move| #[trigger] result@.contains(m2)
                        implies ((exists|j: int| 0 <= j <= i && cands@[j] == m2) && legal_move(
                        s, *self, m2)) by {
                        if m2 == m {
                            assert(cands@[i as int] == m2);
                        }
                    }
                }
            }
            i += 1;
        }
        proof {
            assert forall|m: crate::moves::Move| #[trigger] result@.contains(m) <==> legal_move(
                s, *self, m) by {
                if legal_move(s, *self, m) {
                    assert(cands@.contains(m));
                    let j = choose|j: int| 0 <= j < cands@.len() && cands@[j] == m;
                }
            }
        }
        result
    }

    /// Returns the piece as it stands after moving to `new_pos`: the same
    /// kind and player on the new square, with the double-step and castling
    /// eligibility flags cleared, since a piece that has moved loses them
    /// permanently.
    pub fn shift(self, new_pos: Position) -> (r: Piece)
        ensures
            r == self.shifted(new_pos),
    {
        match self {
            Piece::Pawn(data, _) => Piece::new_pawn(new_pos, data.player, false),
            Piece::Knight(data) => Piece::new_knight(new_pos, data.player),
            Piece::Bishop(data) => Piece::new_bishop(new_pos, data.player),
            Piece::Rook(data, _) => Piece::new_rook(new_pos, data.player, false),
            Piece::Queen(data) => Piece::new_queen(new_pos, data.player),
            Piece::King(data, _) => Piece::new_king(new_pos, data.player, false),
        }
    }
}

/// The player and kind of a piece, bundled for hosts that render the board.
#[derive(Debug, Clone, Copy, PartialEq, Eq, Structural, Hash)]
pub struct PieceData {
    pub(crate) player: Player,
    pub(crate) piece_type: PieceType,
}

impl PieceData {
    /// The player.
    pub open(crate) spec fn spec_player(self) -> Player {
        self.player
    }

    /// The piece kind.
    pub open(crate) spec fn spec_kind(self) -> PieceType {
        self.piece_type
    }

    /// Bundles a player with a piece kind.
    pub fn new(player: Player, piece_type: PieceType) -> (r: PieceData)
        ensures
            r.spec_player() == player,
            r.spec_kind() == piece_type,
    {
        PieceData { player, piece_type }
    }

    /// Returns the player.
    pub fn get_player(&self) -> (p: Player)
        ensures
            p == self.spec_player(),
    {
        self.player
    }

    /// Returns the piece kind.
    pub fn get_type(&self) -> (t: PieceType)
        ensures
            t == self.spec_kind(),
    {
        self.piece_type
    }
}

} // verus!
