//! The movement rules of the six piece kinds.
//!
//! Each kind's rule is stated declaratively as a spec predicate over the
//! state model: which destination squares a piece on a given square may
//! move to, taking occupancy and blocking into account but not whether
//! the mover's own king ends up attacked afterwards.  Castling alone also
//! looks at the present: a king standing in check may not castle.  The
//! executable generators in this module each return exactly the moves
//! their predicate admits.

use crate::gamestate::GameState;
use crate::gamestate::StateView;
use crate::gamestate::attacks;
use crate::gamestate::on_board;
use crate::moves::Move;
use crate::piece::Piece;
use crate::piece::PieceType;
use crate::player::Player;
use crate::player::get_opponent;
use crate::player::opponent;
use crate::position::Position;
use vstd::math::abs;
use vstd::prelude::*;

verus! {

/// The coordinate `k` steps away from `a`, in the direction given by the
/// sign of `d`.
pub open spec fn stepped(a: int, d: int, k: int) -> int {
    if d > 0 {
        a + k
    } else if d < 0 {
        a - k
    } else {
        a
    }
}

/// Every square strictly between `from` and the square `k` steps along
/// direction (dr, dc) is on the board and empty.
pub open spec fn ray_clear(s: StateView, from: Position, dr: int, dc: int, k: int) -> bool {
    forall|j: int|
        1 <= j < k ==> s.empty_at(
            #[trigger] stepped(from.spec_row(), dr, j),
            stepped(from.spec_col(), dc, j),
        )
}

/// `to` is reachable from `from` by sliding along direction (dr, dc): it
/// lies some distance 1..=7 away, every square strictly before it is
/// empty, and `to` itself is empty or holds an enemy piece.
pub open spec fn line_move(
    s: StateView,
    from: Position,
    pl: Player,
    dr: int,
    dc: int,
    to: Position,
) -> bool {
    exists|k: int|
        {
            &&& 1 <= k < 8
            &&& to.spec_row() == stepped(from.spec_row(), dr, k)
            &&& to.spec_col() == stepped(from.spec_col(), dc, k)
            &&& #[trigger] ray_clear(s, from, dr, dc, k)
            &&& s.free_for(pl, to.spec_row(), to.spec_col())
        }
}

/// A rook slides along the four straight directions.
pub open spec fn rook_move(s: StateView, from: Position, pl: Player, to: Position) -> bool {
    ||| line_move(s, from, pl, 1, 0, to)
    ||| line_move(s, from, pl, -1, 0, to)
    ||| line_move(s, from, pl, 0, 1, to)
    ||| line_move(s, from, pl, 0, -1, to)
}

/// A bishop slides along the four diagonal directions.
pub open spec fn bishop_move(s: StateView, from: Position, pl: Player, to: Position) -> bool {
    ||| line_move(s, from, pl, 1, 1, to)
    ||| line_move(s, from, pl, 1, -1, to)
    ||| line_move(s, from, pl, -1, 1, to)
    ||| line_move(s, from, pl, -1, -1, to)
}

/// A queen slides along all eight directions.
pub open spec fn queen_move(s: StateView, from: Position, pl: Player, to: Position) -> bool {
    rook_move(s, from, pl, to) || bishop_move(s, from, pl, to)
}

/// A knight jumps to a square one row and two columns, or two rows and one
/// column, away; the jump is never blocked, only a friendly piece on the
/// target square forbids it.
pub open spec fn knight_move(s: StateView, from: Position, pl: Player, to: Position) -> bool {
    let dr = to.spec_row() - from.spec_row();
    let dc = to.spec_col() - from.spec_col();
    &&& ((abs(dr) == 1 && abs(dc) == 2) || (abs(dr) == 2 && abs(dc) == 1))
    &&& s.free_for(pl, to.spec_row(), to.spec_col())
}

/// A king steps to any of the up to eight adjacent squares not held by a
/// friendly piece.
pub open spec fn king_step_move(s: StateView, from: Position, pl: Player, to: Position) -> bool {
    let dr = to.spec_row() - from.spec_row();
    let dc = to.spec_col() - from.spec_col();
    &&& abs(dr) <= 1
    &&& abs(dc) <= 1
    &&& !(dr == 0 && dc == 0)
    &&& s.free_for(pl, to.spec_row(), to.spec_col())
}

/// Queenside castling: a rook of the same player stands in the column-0
/// corner of the king's row with its castling flag still set, the three
/// squares between the corner and column 4 are empty, and the king lands
/// on column 2 of its row.
pub open spec fn castle_queenside(s: StateView, from: Position, pl: Player, to: Position) -> bool {
    &&& to.spec_row() == from.spec_row()
    &&& to.spec_col() == 2
    &&& (s.at(from.spec_row(), 0) matches Some(p) && p.spec_kind() == PieceType::Rook
        && p.spec_can_castle() && p.spec_player() == pl)
    &&& s.at(from.spec_row(), 1) is None
    &&& s.at(from.spec_row(), 2) is None
    &&& s.at(from.spec_row(), 3) is None
}

/// Kingside castling: a rook of the same player stands in the column-7
/// corner of the king's row with its castling flag still set, the two
/// squares between the corner and column 4 are empty, and the king lands
/// on column 6 of its row.
pub open spec fn castle_kingside(s: StateView, from: Position, pl: Player, to: Position) -> bool {
    &&& to.spec_row() == from.spec_row()
    &&& to.spec_col() == 6
    &&& (s.at(from.spec_row(), 7) matches Some(p) && p.spec_kind() == PieceType::Rook
        && p.spec_can_castle() && p.spec_player() == pl)
    &&& s.at(from.spec_row(), 5) is None
    &&& s.at(from.spec_row(), 6) is None
}

/// The row direction a pawn advances in: +1 for White, -1 for Black.
pub open spec fn pawn_dir(pl: Player) -> int {
    if pl == Player::White {
        1
    } else {
        -1
    }
}

/// A pawn advances one square to an empty square; advances two squares
/// while still double-step eligible when both squares are empty; captures
/// one square diagonally forward onto an enemy piece; or captures en
/// passant diagonally forward onto an empty square when the enemy piece
/// beside it is the one recorded as capturable en passant this ply.
pub open spec fn pawn_move(
    s: StateView,
    from: Position,
    pl: Player,
    first: bool,
    to: Position,
) -> bool {
    let fr = from.spec_row();
    let fc = from.spec_col();
    let tr = to.spec_row();
    let tc = to.spec_col();
    let d = pawn_dir(pl);
    ||| (tr == fr + d && tc == fc && s.empty_at(tr, tc))
    ||| (first && tr == fr + 2 * d && tc == fc && s.empty_at(fr + d, fc) && s.empty_at(tr, tc))
    ||| (tr == fr + d && abs(tc - fc) == 1 && s.enemy_at(pl, tr, tc))
    ||| (tr == fr + d && abs(tc - fc) == 1 && s.empty_at(tr, tc) && (s.en_passant_square
        matches Some(ep) && ep.spec_row() == fr && ep.spec_col() == tc) && s.enemy_at(pl, fr, tc))
}

/// The movement rule of `p`'s kind, applied from `p`'s own square,
/// castling aside: can the piece go to `to` by its plain pattern and the
/// occupancy rules?  Castling is the one move whose lawfulness depends on
/// attack status, so the attack scan is defined over these plain moves
/// and no circularity arises.
pub open spec fn plain_pattern(s: StateView, p: Piece, to: Position) -> bool {
    match p {
        Piece::Pawn(d, first) => pawn_move(s, d.spec_position(), d.spec_player(), first, to),
        Piece::Knight(d) => knight_move(s, d.spec_position(), d.spec_player(), to),
        Piece::Bishop(d) => bishop_move(s, d.spec_position(), d.spec_player(), to),
        Piece::Rook(d, _) => rook_move(s, d.spec_position(), d.spec_player(), to),
        Piece::Queen(d) => queen_move(s, d.spec_position(), d.spec_player(), to),
        Piece::King(d, _) => king_step_move(s, d.spec_position(), d.spec_player(), to),
    }
}

/// `m` is a plain (castling-free) move of piece `p`: it starts on `p`'s
/// square and its destination obeys `p`'s plain movement rule.
pub open spec fn plain_move(s: StateView, p: Piece, m: Move) -> bool {
    m.from_pos() == p.spec_position() && plain_pattern(s, p, m.to_pos())
}

/// The full movement rule of `p`'s kind, applied from `p`'s own square:
/// the plain pattern, or, for a still-eligible king that does not
/// presently stand on an attacked square, a castling move.  Whether the
/// mover's own king ends up attacked afterwards is not considered here.
pub open spec fn piece_pattern(s: StateView, p: Piece, to: Position) -> bool {
    ||| plain_pattern(s, p, to)
    ||| (p matches Piece::King(d, cc) && cc && !attacks(
        s,
        opponent(d.spec_player()),
        d.spec_position().spec_row(),
        d.spec_position().spec_col(),
    ) && (castle_queenside(s, d.spec_position(), d.spec_player(), to) || castle_kingside(
        s,
        d.spec_position(),
        d.spec_player(),
        to,
    )))
}

/// `m` is a pseudo-legal move of piece `p`: it starts on `p`'s square and
/// its destination obeys `p`'s movement rule.  Whether the mover's own
/// king ends up attacked afterwards is not considered here.
pub open spec fn pseudo_move(s: StateView, p: Piece, m: Move) -> bool {
    m.from_pos() == p.spec_position() && piece_pattern(s, p, m.to_pos())
}

/// Pushing an element adds exactly it to the members of a sequence.
pub(crate) proof fn lemma_push_contains(s: Seq<Move>, x: Move, y: Move)
    ensures
        s.push(x).contains(y) <==> (s.contains(y) || y == x),
{
    if s.contains(y) {
        let i = choose|i: int| 0 <= i < s.len() && s[i] == y;
        assert(s.push(x)[i] == y);
    }
    if y == x {
        assert(s.push(x)[s.len() as int] == y);
    }
    if s.push(x).contains(y) {
        let i = choose|i: int| 0 <= i < s.push(x).len() && s.push(x)[i] == y;
        if i < s.len() {
            assert(s[i] == y);
        }
    }
}

/// Builds the position (r, c) when that square is on the board.
fn make_pos(r: i16, c: i16) -> (o: Option<Position>)
    ensures
        o is Some <==> on_board(r as int, c as int),
        o matches Some(p) ==> p.spec_row() == r as int && p.spec_col() == c as int,
{
    if 0 <= r && r <= 7 && 0 <= c && c <= 7 {
        Position::new(r as u8, c as u8)
    } else {
        None
    }
}

/// The square `(from.row + dr, from.col + dc)`, when it is on the board
/// and not occupied by a piece of `player` itself.
fn try_shift_target(state: &GameState, from: Position, player: Player, dr: i16, dc: i16) -> (o:
    Option<Position>)
    requires
        state.wf(),
        from.wf(),
        -2 <= dr <= 2,
        -2 <= dc <= 2,
    ensures
        o matches Some(to) ==> to.spec_row() == from.spec_row() + dr && to.spec_col()
            == from.spec_col() + dc && state.model().free_for(
            player,
            to.spec_row(),
            to.spec_col(),
        ),
        o is None ==> !state.model().free_for(
            player,
            from.spec_row() + dr,
            from.spec_col() + dc,
        ),
{
    let nr = from.get_row() as i16 + dr;
    let nc = from.get_column() as i16 + dc;
    match make_pos(nr, nc) {
        None => None,
        Some(to) => {
            match state.get_piece(to) {
                None => Some(to),
                Some(q) => {
                    if q.get_player() != player {
                        Some(to)
                    } else {
                        None
                    }
                },
            }
        },
    }
}

/// The eight jump offsets of a knight.
spec fn knight_offset(i: int) -> (int, int) {
    if i == 0 {
        (-2, -1)
    } else if i == 1 {
        (-2, 1)
    } else if i == 2 {
        (-1, -2)
    } else if i == 3 {
        (-1, 2)
    } else if i == 4 {
        (1, -2)
    } else if i == 5 {
        (1, 2)
    } else if i == 6 {
        (2, -1)
    } else {
        (2, 1)
    }
}

/// Exec table of the eight knight offsets.
fn knight_offset_exec(i: usize) -> (o: (i16, i16))
    requires
        i < 8,
    ensures
        (o.0 as int, o.1 as int) == knight_offset(i as int),
        -2 <= o.0 <= 2,
        -2 <= o.1 <= 2,
{
    if i == 0 {
        (-2, -1)
    } else if i == 1 {
        (-2, 1)
    } else if i == 2 {
        (-1, -2)
    } else if i == 3 {
        (-1, 2)
    } else if i == 4 {
        (1, -2)
    } else if i == 5 {
        (1, 2)
    } else if i == 6 {
        (2, -1)
    } else {
        (2, 1)
    }
}

/// The destination `to` lies at offset `o` from `from` and may be landed
/// on by `pl`.
spec fn offset_reaches(s: StateView, from: Position, pl: Player, o: (int, int), to: Position) -> bool {
    &&& to.spec_row() == from.spec_row() + o.0
    &&& to.spec_col() == from.spec_col() + o.1
    &&& s.free_for(pl, to.spec_row(), to.spec_col())
}

/// The knight offsets are exactly the jumps the knight rule admits.
proof fn lemma_knight_offsets(s: StateView, from: Position, pl: Player, to: Position)
    ensures
        (exists|j: int|
            0 <= j < 8 && offset_reaches(s, from, pl, #[trigger] knight_offset(j), to))
            <==> knight_move(s, from, pl, to),
{
    if knight_move(s, from, pl, to) {
        let dr = to.spec_row() - from.spec_row();
        let dc = to.spec_col() - from.spec_col();
        if dr == -2 && dc == -1 {
            assert(offset_reaches(s, from, pl, knight_offset(0), to));
        } else if dr == -2 && dc == 1 {
            assert(offset_reaches(s, from, pl, knight_offset(1), to));
        } else if dr == -1 && dc == -2 {
            assert(offset_reaches(s, from, pl, knight_offset(2), to));
        } else if dr == -1 && dc == 2 {
            assert(offset_reaches(s, from, pl, knight_offset(3), to));
        } else if dr == 1 && dc == -2 {
            assert(offset_reaches(s, from, pl, knight_offset(4), to));
        } else if dr == 1 && dc == 2 {
            assert(offset_reaches(s, from, pl, knight_offset(5), to));
        } else if dr == 2 && dc == -1 {
            assert(offset_reaches(s, from, pl, knight_offset(6), to));
        } else {
            assert(dr == 2 && dc == 1);
            assert(offset_reaches(s, from, pl, knight_offset(7), to));
        }
    }
}

/// All pseudo-legal moves of a knight of `player` standing on `from`.
pub(crate) fn knight_moves(state: &GameState, from: Position, player: Player) -> (r: Vec<Move>)
    requires
        state.wf(),
        from.wf(),
    ensures
        r@.no_duplicates(),
        forall|m: Move|
            #[trigger] r@.contains(m) <==> (m.from_pos() == from && knight_move(
                state.model(),
                from,
                player,
                m.to_pos(),
            )),
{
    let ghost s = state.model();
    let mut result: Vec<Move> = Vec::new();
    let mut i: usize = 0;
    while i < 8
        invariant
            state.wf(),
            from.wf(),
            s == state.model(),
            i <= 8,
            result@.no_duplicates(),
            forall|m: Move|
                #[trigger] result@.contains(m) <==> (m.from_pos() == from && exists|j: int|
                    0 <= j < i && offset_reaches(s, from, player, #[trigger] knight_offset(j), m.to_pos())),
        decreases 8 - i,
    {
        let (dr, dc) = knight_offset_exec(i);
        if let Some(to) = try_shift_target(state, from, player, dr, dc) {
            let m = Move::new(from, to);
            proof {
                assert(offset_reaches(s, from, player, knight_offset(i as int), to));
                // The new destination differs from every earlier one, since
                // the eight offsets are pairwise distinct.
                assert(!result@.contains(m));
                lemma_push_contains(result@, m, m);
            }
            let ghost old_seq = result@;
            result.push(m);
            proof {
                assert forall|m2: Move| #[trigger] result@.contains(m2) implies (m2.from_pos()
                    == from && exists|j: int|
                    0 <= j <= i && offset_reaches(s, from, player, #[trigger] knight_offset(j), m2.to_pos())) by {
                    lemma_push_contains(old_seq, m, m2);
                    if m2 == m {
                        assert(offset_reaches(s, from, player, knight_offset(i as int), m2.to_pos()));
                    }
                }
                assert forall|m2: Move| (m2.from_pos() == from && exists|j: int|
                    0 <= j <= i && offset_reaches(s, from, player, #[trigger] knight_offset(j), m2.to_pos()))
                    implies #[trigger] result@.contains(m2) by {
                    lemma_push_contains(old_seq, m, m2);
                    let j = choose|j: int|
                        0 <= j <= i && offset_reaches(s, from, player, knight_offset(j), m2.to_pos());
                    if j < i {
                        assert(old_seq.contains(m2));
                    } else {
                        assert(m2.to_pos().spec_row() == to.spec_row());
                        assert(m2.to_pos().spec_col() == to.spec_col());
                        assert(m2.to_pos() == to);
                        assert(m2 == m);
                    }
                }
            }
        }
        i += 1;
    }
    proof {
        assert forall|m: Move| #[trigger] result@.contains(m) <==> (m.from_pos() == from
            && knight_move(s, from, player, m.to_pos())) by {
            lemma_knight_offsets(s, from, player, m.to_pos());
        }
    }
    result
}

/// The eight unit offsets of a king step.
spec fn king_offset(i: int) -> (int, int) {
    if i == 0 {
        (-1, -1)
    } else if i == 1 {
        (-1, 0)
    } else if i == 2 {
        (-1, 1)
    } else if i == 3 {
        (0, -1)
    } else if i == 4 {
        (0, 1)
    } else if i == 5 {
        (1, -1)
    } else if i == 6 {
        (1, 0)
    } else {
        (1, 1)
    }
}

/// Exec table of the eight king offsets.
fn king_offset_exec(i: usize) -> (o: (i16, i16))
    requires
        i < 8,
    ensures
        (o.0 as int, o.1 as int) == king_offset(i as int),
        -2 <= o.0 <= 2,
        -2 <= o.1 <= 2,
{
    if i == 0 {
        (-1, -1)
    } else if i == 1 {
        (-1, 0)
    } else if i == 2 {
        (-1, 1)
    } else if i == 3 {
        (0, -1)
    } else if i == 4 {
        (0, 1)
    } else if i == 5 {
        (1, -1)
    } else if i == 6 {
        (1, 0)
    } else {
        (1, 1)
    }
}

/// The king offsets are exactly the steps the king rule admits.
proof fn lemma_king_offsets(s: StateView, from: Position, pl: Player, to: Position)
    ensures
        (exists|j: int|
            0 <= j < 8 && offset_reaches(s, from, pl, #[trigger] king_offset(j), to))
            <==> king_step_move(s, from, pl, to),
{
    if king_step_move(s, from, pl, to) {
        let dr = to.spec_row() - from.spec_row();
        let dc = to.spec_col() - from.spec_col();
        if dr == -1 && dc == -1 {
            assert(offset_reaches(s, from, pl, king_offset(0), to));
        } else if dr == -1 && dc == 0 {
            assert(offset_reaches(s, from, pl, king_offset(1), to));
        } else if dr == -1 && dc == 1 {
            assert(offset_reaches(s, from, pl, king_offset(2), to));
        } else if dr == 0 && dc == -1 {
            assert(offset_reaches(s, from, pl, king_offset(3), to));
        } else if dr == 0 && dc == 1 {
            assert(offset_reaches(s, from, pl, king_offset(4), to));
        } else if dr == 1 && dc == -1 {
            assert(offset_reaches(s, from, pl, king_offset(5), to));
        } else if dr == 1 && dc == 0 {
            assert(offset_reaches(s, from, pl, king_offset(6), to));
        } else {
            assert(dr == 1 && dc == 1);
            assert(offset_reaches(s, from, pl, king_offset(7), to));
        }
    }
}

/// All pseudo-legal single steps of a king of `player` standing on `from`;
/// castling is handled separately.
pub(crate) fn king_step_moves(state: &GameState, from: Position, player: Player) -> (r: Vec<Move>)
    requires
        state.wf(),
        from.wf(),
    ensures
        r@.no_duplicates(),
        forall|m: Move|
            #[trigger] r@.contains(m) <==> (m.from_pos() == from && king_step_move(
                state.model(),
                from,
                player,
                m.to_pos(),
            )),
{
    let ghost s = state.model();
    let mut result: Vec<Move> = Vec::new();
    let mut i: usize = 0;
    while i < 8
        invariant
            state.wf(),
            from.wf(),
            s == state.model(),
            i <= 8,
            result@.no_duplicates(),
            forall|m: Move|
                #[trigger] result@.contains(m) <==> (m.from_pos() == from && exists|j: int|
                    0 <= j < i && offset_reaches(s, from, player, #[trigger] king_offset(j), m.to_pos())),
        decreases 8 - i,
    {
        let (dr, dc) = king_offset_exec(i);
        if let Some(to) = try_shift_target(state, from, player, dr, dc) {
            let m = Move::new(from, to);
            proof {
                assert(offset_reaches(s, from, player, king_offset(i as int), to));
                assert(!result@.contains(m));
                lemma_push_contains(result@, m, m);
            }
            let ghost old_seq = result@;
            result.push(m);
            proof {
                assert forall|m2: Move| #[trigger] result@.contains(m2) implies (m2.from_pos()
                    == from && exists|j: int|
                    0 <= j <= i && offset_reaches(s, from, player, #[trigger] king_offset(j), m2.to_pos())) by {
                    lemma_push_contains(old_seq, m, m2);
                    if m2 == m {
                        assert(offset_reaches(s, from, player, king_offset(i as int), m2.to_pos()));
                    }
                }
                assert forall|m2: Move| (m2.from_pos() == from && exists|j: int|
                    0 <= j <= i && offset_reaches(s, from, player, #[trigger] king_offset(j), m2.to_pos()))
                    implies #[trigger] result@.contains(m2) by {
                    lemma_push_contains(old_seq, m, m2);
                    let j = choose|j: int|
                        0 <= j <= i && offset_reaches(s, from, player, king_offset(j), m2.to_pos());
                    if j < i {
                        assert(old_seq.contains(m2));
                    } else {
                        assert(m2.to_pos() == to);
                        assert(m2 == m);
                    }
                }
            }
        }
        i += 1;
    }
    proof {
        assert forall|m: Move| #[trigger] result@.contains(m) <==> (m.from_pos() == from
            && king_step_move(s, from, player, m.to_pos())) by {
            lemma_king_offsets(s, from, player, m.to_pos());
        }
    }
    result
}

/// The destination at distance `k` along (dr, dc) obeys the sliding rule.
spec fn line_move_at(
    s: StateView,
    from: Position,
    pl: Player,
    dr: int,
    dc: int,
    k: int,
    to: Position,
) -> bool {
    &&& to.spec_row() == stepped(from.spec_row(), dr, k)
    &&& to.spec_col() == stepped(from.spec_col(), dc, k)
    &&& ray_clear(s, from, dr, dc, k)
    &&& s.free_for(pl, to.spec_row(), to.spec_col())
}

/// All pseudo-legal sliding moves of a piece of `player` on `from` along
/// the single direction (dr, dc).
fn line_moves_dir(state: &GameState, from: Position, player: Player, dr: i16, dc: i16) -> (r: Vec<
    Move,
>)
    requires
        state.wf(),
        from.wf(),
        -1 <= dr <= 1,
        -1 <= dc <= 1,
        !(dr == 0 && dc == 0),
    ensures
        r@.no_duplicates(),
        forall|m: Move|
            #[trigger] r@.contains(m) <==> (m.from_pos() == from && line_move(
                state.model(),
                from,
                player,
                dr as int,
                dc as int,
                m.to_pos(),
            )),
{
    let ghost s = state.model();
    let mut result: Vec<Move> = Vec::new();
    let mut dist: u8 = 1;
    let mut blocked = false;
    while dist < 8
        invariant
            state.wf(),
            from.wf(),
            s == state.model(),
            -1 <= dr <= 1,
            -1 <= dc <= 1,
            !(dr == 0 && dc == 0),
            1 <= dist <= 8,
            result@.no_duplicates(),
            !blocked ==> ray_clear(s, from, dr as int, dc as int, dist as int),
            blocked ==> (forall|k: int, to: Position|
                dist <= k < 8 ==> !line_move_at(s, from, player, dr as int, dc as int, k, to)),
            forall|m: Move|
                #[trigger] result@.contains(m) <==> (m.from_pos() == from && exists|k: int|
                    1 <= k < dist && line_move_at(s, from, player, dr as int, dc as int, k, m.to_pos())),
        decreases 8 - dist,
    {
        if !blocked {
            let fr = from.get_row() as i16;
            let fc = from.get_column() as i16;
            let d = dist as i16;
            let nr = if dr > 0 { fr + d } else if dr < 0 { fr - d } else { fr };
            let nc = if dc > 0 { fc + d } else if dc < 0 { fc - d } else { fc };
            proof {
                assert(nr as int == stepped(from.spec_row(), dr as int, dist as int));
                assert(nc as int == stepped(from.spec_col(), dc as int, dist as int));
            }
            match make_pos(nr, nc) {
                None => {
                    blocked = true;
                    proof {
                        assert forall|k: int, to: Position| dist <= k < 8 implies !line_move_at(
                            s, from, player, dr as int, dc as int, k, to) by {
                            if k > dist {
                                assert(!s.empty_at(
                                    stepped(from.spec_row(), dr as int, dist as int),
                                    stepped(from.spec_col(), dc as int, dist as int),
                                ));
                                assert(!ray_clear(s, from, dr as int, dc as int, k));
                            }
                        }
                    }
                },
                Some(to) => {
                    let occupant = state.get_piece(to);
                    let take_it = match occupant {
                        None => true,
                        Some(q) => q.get_player() != player,
                    };
                    if take_it {
                        let m = Move::new(from, to);
                        proof {
                            assert(line_move_at(s, from, player, dr as int, dc as int, dist as int, to));
                            assert(!result@.contains(m));
                            lemma_push_contains(result@, m, m);
                        }
                        let ghost old_seq = result@;
                        result.push(m);
                        proof {
                            assert forall|m2: Move| #[trigger] result@.contains(m2) implies (
                                m2.from_pos() == from && exists|k: int|
                                1 <= k <= dist && line_move_at(s, from, player, dr as int, dc as int, k, m2.to_pos())) by {
                                lemma_push_contains(old_seq, m, m2);
                                if m2 == m {
                                    assert(line_move_at(s, from, player, dr as int, dc as int, dist as int, m2.to_pos()));
                                }
                            }
                            assert forall|m2: Move| (m2.from_pos() == from && exists|k: int|
                                1 <= k <= dist && line_move_at(s, from, player, dr as int, dc as int, k, m2.to_pos()))
                                implies #[trigger] result@.contains(m2) by {
                                lemma_push_contains(old_seq, m, m2);
                                let k = choose|k: int|
                                    1 <= k <= dist && line_move_at(s, from, player, dr as int, dc as int, k, m2.to_pos());
                                if k < dist {
                                    assert(old_seq.contains(m2));
                                } else {
                                    assert(m2.to_pos() == to);
                                    assert(m2 == m);
                                }
                            }
                        }
                    }
                    if occupant.is_some() {
                        blocked = true;
                        proof {
                            assert forall|k: int, to2: Position| dist < k < 8 implies !line_move_at(
                                s, from, player, dr as int, dc as int, k, to2) by {
                                assert(!s.empty_at(
                                    stepped(from.spec_row(), dr as int, dist as int),
                                    stepped(from.spec_col(), dc as int, dist as int),
                                ));
                                assert(!ray_clear(s, from, dr as int, dc as int, k));
                            }
                            assert forall|k: int, to2: Position| dist + 1 <= k < 8
                                implies !line_move_at(s, from, player, dr as int, dc as int, k, to2) by {
                                assert(!ray_clear(s, from, dr as int, dc as int, k));
                            }
                        }
                    } else {
                        proof {
                            assert(s.empty_at(
                                stepped(from.spec_row(), dr as int, dist as int),
                                stepped(from.spec_col(), dc as int, dist as int),
                            ));
                            assert forall|j: int| 1 <= j < dist + 1 implies s.empty_at(
                                #[trigger] stepped(from.spec_row(), dr as int, j),
                                stepped(from.spec_col(), dc as int, j),
                            ) by {
                            }
                        }
                    }
                },
            }
        }
        dist += 1;
    }
    proof {
        assert forall|m: Move| #[trigger] result@.contains(m) <==> (m.from_pos() == from
            && line_move(s, from, player, dr as int, dc as int, m.to_pos())) by {
            if result@.contains(m) {
                let k = choose|k: int|
                    1 <= k < 8 && line_move_at(s, from, player, dr as int, dc as int, k, m.to_pos());
                assert(ray_clear(s, from, dr as int, dc as int, k));
                assert(line_move(s, from, player, dr as int, dc as int, m.to_pos()));
            }
            if m.from_pos() == from && line_move(s, from, player, dr as int, dc as int, m.to_pos()) {
                let k = choose|k: int|
                    {
                        &&& 1 <= k < 8
                        &&& m.to_pos().spec_row() == stepped(from.spec_row(), dr as int, k)
                        &&& m.to_pos().spec_col() == stepped(from.spec_col(), dc as int, k)
                        &&& #[trigger] ray_clear(s, from, dr as int, dc as int, k)
                        &&& s.free_for(player, m.to_pos().spec_row(), m.to_pos().spec_col())
                    };
                assert(line_move_at(s, from, player, dr as int, dc as int, k, m.to_pos()));
            }
        }
    }
    result
}

/// Concatenation joins exactly the members of the two sequences.
proof fn lemma_add_contains(s1: Seq<Move>, s2: Seq<Move>, y: Move)
    ensures
        (s1 + s2).contains(y) <==> (s1.contains(y) || s2.contains(y)),
{
    if s1.contains(y) {
        let i = choose|i: int| 0 <= i < s1.len() && s1[i] == y;
        assert((s1 + s2)[i] == y);
    }
    if s2.contains(y) {
        let i = choose|i: int| 0 <= i < s2.len() && s2[i] == y;
        assert((s1 + s2)[s1.len() + i] == y);
    }
    if (s1 + s2).contains(y) {
        let i = choose|i: int| 0 <= i < (s1 + s2).len() && (s1 + s2)[i] == y;
        if i < s1.len() {
            assert(s1[i] == y);
        } else {
            assert(s2[i - s1.len()] == y);
        }
    }
}

/// Concatenating two duplicate-free sequences with no member in common
/// yields a duplicate-free sequence.
proof fn lemma_add_no_dup(s1: Seq<Move>, s2: Seq<Move>)
    requires
        s1.no_duplicates(),
        s2.no_duplicates(),
        forall|y: Move| s1.contains(y) ==> !s2.contains(y),
    ensures
        (s1 + s2).no_duplicates(),
{
    assert forall|i: int, j: int| 0 <= i < j < (s1 + s2).len() implies (s1 + s2)[i] != (s1
        + s2)[j] by {
        if i < s1.len() && j >= s1.len() {
            assert(s1.contains(s1[i]));
            assert(s2.contains(s2[j - s1.len()]));
        }
    }
}

/// Joins two duplicate-free move lists that hold exactly the moves
/// satisfying `p` and `q` respectively, where no move satisfies both.
pub(crate) fn merge_moves(a: Vec<Move>, b: Vec<Move>, Ghost(p): Ghost<spec_fn(Move) -> bool>, Ghost(q): Ghost<
    spec_fn(Move) -> bool>) -> (r: Vec<Move>)
    requires
        a@.no_duplicates(),
        b@.no_duplicates(),
        forall|m: Move| #[trigger] a@.contains(m) <==> p(m),
        forall|m: Move| #[trigger] b@.contains(m) <==> q(m),
        forall|m: Move| !(#[trigger] p(m) && q(m)),
    ensures
        r@.no_duplicates(),
        forall|m: Move| #[trigger] r@.contains(m) <==> (p(m) || q(m)),
{
    let ghost av = a@;
    let ghost bv = b@;
    let mut a = a;
    let mut b = b;
    a.append(&mut b);
    proof {
        assert(a@ == av + bv);
        lemma_add_no_dup(av, bv);
        assert forall|m: Move| #[trigger] a@.contains(m) <==> (p(m) || q(m)) by {
            lemma_add_contains(av, bv, m);
        }
    }
    a
}

/// Any destination of a sliding move lies strictly on the given side of
/// the source square.
proof fn lemma_line_move_delta(
    s: StateView,
    from: Position,
    pl: Player,
    dr: int,
    dc: int,
    to: Position,
)
    requires
        line_move(s, from, pl, dr, dc, to),
    ensures
        dr > 0 ==> to.spec_row() > from.spec_row(),
        dr < 0 ==> to.spec_row() < from.spec_row(),
        dr == 0 ==> to.spec_row() == from.spec_row(),
        dc > 0 ==> to.spec_col() > from.spec_col(),
        dc < 0 ==> to.spec_col() < from.spec_col(),
        dc == 0 ==> to.spec_col() == from.spec_col(),
{
    let k = choose|k: int|
        {
            &&& 1 <= k < 8
            &&& to.spec_row() == stepped(from.spec_row(), dr, k)
            &&& to.spec_col() == stepped(from.spec_col(), dc, k)
            &&& #[trigger] ray_clear(s, from, dr, dc, k)
            &&& s.free_for(pl, to.spec_row(), to.spec_col())
        };
}

/// All pseudo-legal moves of a rook of `player` standing on `from`.
pub(crate) fn rook_moves(state: &GameState, from: Position, player: Player) -> (r: Vec<Move>)
    requires
        state.wf(),
        from.wf(),
    ensures
        r@.no_duplicates(),
        forall|m: Move|
            #[trigger] r@.contains(m) <==> (m.from_pos() == from && rook_move(
                state.model(),
                from,
                player,
                m.to_pos(),
            )),
{
    let ghost s = state.model();
    let v1 = line_moves_dir(state, from, player, 1, 0);
    let v2 = line_moves_dir(state, from, player, -1, 0);
    let v3 = line_moves_dir(state, from, player, 0, 1);
    let v4 = line_moves_dir(state, from, player, 0, -1);
    let ghost p1 = |m: Move| m.from_pos() == from && line_move(s, from, player, 1, 0, m.to_pos());
    let ghost p2 = |m: Move| m.from_pos() == from && line_move(s, from, player, -1, 0, m.to_pos());
    let ghost p3 = |m: Move| m.from_pos() == from && line_move(s, from, player, 0, 1, m.to_pos());
    let ghost p4 = |m: Move| m.from_pos() == from && line_move(s, from, player, 0, -1, m.to_pos());
    let ghost p12 = |m: Move| p1(m) || p2(m);
    let ghost p34 = |m: Move| p3(m) || p4(m);
    proof {
        assert forall|m: Move| !(#[trigger] p1(m) && p2(m)) by {
            if p1(m) && p2(m) {
                lemma_line_move_delta(s, from, player, 1, 0, m.to_pos());
                lemma_line_move_delta(s, from, player, -1, 0, m.to_pos());
            }
        }
        assert forall|m: Move| !(#[trigger] p3(m) && p4(m)) by {
            if p3(m) && p4(m) {
                lemma_line_move_delta(s, from, player, 0, 1, m.to_pos());
                lemma_line_move_delta(s, from, player, 0, -1, m.to_pos());
            }
        }
        assert forall|m: Move| !(#[trigger] p12(m) && p34(m)) by {
            if p12(m) && p34(m) {
                if p1(m) {
                    lemma_line_move_delta(s, from, player, 1, 0, m.to_pos());
                } else {
                    lemma_line_move_delta(s, from, player, -1, 0, m.to_pos());
                }
                if p3(m) {
                    lemma_line_move_delta(s, from, player, 0, 1, m.to_pos());
                } else {
                    lemma_line_move_delta(s, from, player, 0, -1, m.to_pos());
                }
            }
        }
    }
    let v12 = merge_moves(v1, v2, Ghost(p1), Ghost(p2));
    let v34 = merge_moves(v3, v4, Ghost(p3), Ghost(p4));
    let result = merge_moves(v12, v34, Ghost(p12), Ghost(p34));
    result
}

/// All pseudo-legal moves of a bishop of `player` standing on `from`.
pub(crate) fn bishop_moves(state: &GameState, from: Position, player: Player) -> (r: Vec<Move>)
    requires
        state.wf(),
        from.wf(),
    ensures
        r@.no_duplicates(),
        forall|m: Move|
            #[trigger] r@.contains(m) <==> (m.from_pos() == from && bishop_move(
                state.model(),
                from,
                player,
                m.to_pos(),
            )),
{
    let ghost s = state.model();
    let v1 = line_moves_dir(state, from, player, 1, 1);
    let v2 = line_moves_dir(state, from, player, 1, -1);
    let v3 = line_moves_dir(state, from, player, -1, 1);
    let v4 = line_moves_dir(state, from, player, -1, -1);
    let ghost p1 = |m: Move| m.from_pos() == from && line_move(s, from, player, 1, 1, m.to_pos());
    let ghost p2 = |m: Move| m.from_pos() == from && line_move(s, from, player, 1, -1, m.to_pos());
    let ghost p3 = |m: Move| m.from_pos() == from && line_move(s, from, player, -1, 1, m.to_pos());
    let ghost p4 = |m: Move| m.from_pos() == from && line_move(s, from, player, -1, -1, m.to_pos());
    let ghost p12 = |m: Move| p1(m) || p2(m);
    let ghost p34 = |m: Move| p3(m) || p4(m);
    proof {
        assert forall|m: Move| !(#[trigger] p1(m) && p2(m)) by {
            if p1(m) && p2(m) {
                lemma_line_move_delta(s, from, player, 1, 1, m.to_pos());
                lemma_line_move_delta(s, from, player, 1, -1, m.to_pos());
            }
        }
        assert forall|m: Move| !(#[trigger] p3(m) && p4(m)) by {
            if p3(m) && p4(m) {
                lemma_line_move_delta(s, from, player, -1, 1, m.to_pos());
                lemma_line_move_delta(s, from, player, -1, -1, m.to_pos());
            }
        }
        assert forall|m: Move| !(#[trigger] p12(m) && p34(m)) by {
            if p12(m) && p34(m) {
                if p1(m) {
                    lemma_line_move_delta(s, from, player, 1, 1, m.to_pos());
                } else {
                    lemma_line_move_delta(s, from, player, 1, -1, m.to_pos());
                }
                if p3(m) {
                    lemma_line_move_delta(s, from, player, -1, 1, m.to_pos());
                } else {
                    lemma_line_move_delta(s, from, player, -1, -1, m.to_pos());
                }
            }
        }
    }
    let v12 = merge_moves(v1, v2, Ghost(p1), Ghost(p2));
    let v34 = merge_moves(v3, v4, Ghost(p3), Ghost(p4));
    let result = merge_moves(v12, v34, Ghost(p12), Ghost(p34));
    result
}

/// All pseudo-legal moves of a queen of `player` standing on `from`.
pub(crate) fn queen_moves(state: &GameState, from: Position, player: Player) -> (r: Vec<Move>)
    requires
        state.wf(),
        from.wf(),
    ensures
        r@.no_duplicates(),
        forall|m: Move|
            #[trigger] r@.contains(m) <==> (m.from_pos() == from && queen_move(
                state.model(),
                from,
                player,
                m.to_pos(),
            )),
{
    let ghost s = state.model();
    let vr = rook_moves(state, from, player);
    let vb = bishop_moves(state, from, player);
    let ghost pr = |m: Move| m.from_pos() == from && rook_move(s, from, player, m.to_pos());
    let ghost pb = |m: Move| m.from_pos() == from && bishop_move(s, from, player, m.to_pos());
    proof {
        assert forall|m: Move| !(#[trigger] pr(m) && pb(m)) by {
            if pr(m) && pb(m) {
                if line_move(s, from, player, 1, 0, m.to_pos()) {
                    lemma_line_move_delta(s, from, player, 1, 0, m.to_pos());
                } else if line_move(s, from, player, -1, 0, m.to_pos()) {
                    lemma_line_move_delta(s, from, player, -1, 0, m.to_pos());
                } else if line_move(s, from, player, 0, 1, m.to_pos()) {
                    lemma_line_move_delta(s, from, player, 0, 1, m.to_pos());
                } else {
                    lemma_line_move_delta(s, from, player, 0, -1, m.to_pos());
                }
                if line_move(s, from, player, 1, 1, m.to_pos()) {
                    lemma_line_move_delta(s, from, player, 1, 1, m.to_pos());
                } else if line_move(s, from, player, 1, -1, m.to_pos()) {
                    lemma_line_move_delta(s, from, player, 1, -1, m.to_pos());
                } else if line_move(s, from, player, -1, 1, m.to_pos()) {
                    lemma_line_move_delta(s, from, player, -1, 1, m.to_pos());
                } else {
                    lemma_line_move_delta(s, from, player, -1, -1, m.to_pos());
                }
            }
        }
    }
    let result = merge_moves(vr, vb, Ghost(pr), Ghost(pb));
    result
}

/// All pseudo-legal moves of a pawn of `player` standing on `from`, with
/// double-step eligibility `first`.
#[verifier::rlimit(100)]
pub(crate) fn pawn_moves(state: &GameState, from: Position, player: Player, first: bool) -> (r:
    Vec<Move>)
    requires
        state.wf(),
        from.wf(),
    ensures
        r@.no_duplicates(),
        forall|m: Move|
            #[trigger] r@.contains(m) <==> (m.from_pos() == from && pawn_move(
                state.model(),
                from,
                player,
                first,
                m.to_pos(),
            )),
{
    let ghost s = state.model();
    let ghost fri = from.spec_row();
    let ghost fci = from.spec_col();
    let ghost di = pawn_dir(player);
    let fr = from.get_row() as i16;
    let fc = from.get_column() as i16;
    let d: i16 = if player == Player::White {
        1
    } else {
        -1
    };
    let ghost c1 = |to: Position|
        to.spec_row() == fri + di && to.spec_col() == fci && s.empty_at(fri + di, fci);
    let ghost c2 = |to: Position|
        first && to.spec_row() == fri + 2 * di && to.spec_col() == fci && s.empty_at(fri + di, fci)
            && s.empty_at(fri + 2 * di, fci);
    let ghost c3 = |to: Position|
        to.spec_row() == fri + di && abs(to.spec_col() - fci) == 1 && s.enemy_at(
            player,
            to.spec_row(),
            to.spec_col(),
        );
    let ghost c4 = |to: Position|
        to.spec_row() == fri + di && abs(to.spec_col() - fci) == 1 && s.empty_at(
            to.spec_row(),
            to.spec_col(),
        ) && (s.en_passant_square matches Some(ep) && ep.spec_row() == fri && ep.spec_col()
            == to.spec_col()) && s.enemy_at(player, fri, to.spec_col());
    let mut result: Vec<Move> = Vec::new();
    // One square forward, onto an empty square.
    let ghost snap0 = result@;
    if let Some(to) = make_pos(fr + d, fc) {
        if state.get_piece(to).is_none() {
            let m = Move::new(from, to);
            result.push(m);
            proof {
                assert forall|m2: Move| #[trigger] result@.contains(m2) <==> (snap0.contains(m2)
                    || m2 == m) by {
                    lemma_push_contains(snap0, m, m2);
                }
            }
        }
    }
    proof {
        assert forall|m: Move| #[trigger] result@.contains(m) <==> (m.from_pos() == from && c1(
            m.to_pos())) by {}
    }
    // Two squares forward while still eligible, over an empty square onto
    // an empty square.
    let ghost snap1 = result@;
    if first {
        if let Some(mid) = make_pos(fr + d, fc) {
            if state.get_piece(mid).is_none() {
                if let Some(to) = make_pos(fr + 2 * d, fc) {
                    if state.get_piece(to).is_none() {
                        let m = Move::new(from, to);
                        proof {
                            assert(!result@.contains(m));
                        }
                        result.push(m);
                        proof {
                            assert forall|m2: Move| #[trigger] result@.contains(m2) <==> (
                                snap1.contains(m2) || m2 == m) by {
                                lemma_push_contains(snap1, m, m2);
                            }
                        }
                    }
                }
            }
        }
    }
    proof {
        assert forall|m: Move| #[trigger] result@.contains(m) <==> (m.from_pos() == from && (c1(
            m.to_pos()) || c2(m.to_pos()))) by {}
    }
    // Diagonally forward to the left: an ordinary capture onto an enemy
    // piece, or an en-passant capture onto an empty square when the enemy
    // piece beside the pawn is the recorded en-passant target.
    let ghost snap2 = result@;
    if let Some(to) = make_pos(fr + d, fc - 1) {
        let mut take_it = false;
        match state.get_piece(to) {
            Some(q) => {
                take_it = q.get_player() != player;
            },
            None => {
                if let Some(adj) = make_pos(fr, fc - 1) {
                    if let Some(q) = state.get_piece(adj) {
                        if q.get_player() != player {
                            if let Some(ep) = state.get_en_passant_square() {
                                take_it = ep == adj;
                            }
                        }
                    }
                }
            },
        }
        if take_it {
            let m = Move::new(from, to);
            proof {
                assert(!result@.contains(m));
            }
            result.push(m);
            proof {
                assert forall|m2: Move| #[trigger] result@.contains(m2) <==> (snap2.contains(m2)
                    || m2 == m) by {
                    lemma_push_contains(snap2, m, m2);
                }
            }
        }
    }
    proof {
        assert forall|m: Move| #[trigger] result@.contains(m) <==> (m.from_pos() == from && (c1(
            m.to_pos()) || c2(m.to_pos()) || ((c3(m.to_pos()) || c4(m.to_pos()))
            && m.to_pos().spec_col() == fci - 1))) by {}
    }
    // Diagonally forward to the right, in the same two ways.
    let ghost snap3 = result@;
    if let Some(to) = make_pos(fr + d, fc + 1) {
        let mut take_it = false;
        match state.get_piece(to) {
            Some(q) => {
                take_it = q.get_player() != player;
            },
            None => {
                if let Some(adj) = make_pos(fr, fc + 1) {
                    if let Some(q) = state.get_piece(adj) {
                        if q.get_player() != player {
                            if let Some(ep) = state.get_en_passant_square() {
                                take_it = ep == adj;
                            }
                        }
                    }
                }
            },
        }
        if take_it {
            let m = Move::new(from, to);
            proof {
                assert(!result@.contains(m));
            }
            result.push(m);
            proof {
                assert forall|m2: Move| #[trigger] result@.contains(m2) <==> (snap3.contains(m2)
                    || m2 == m) by {
                    lemma_push_contains(snap3, m, m2);
                }
            }
        }
    }
    proof {
        assert forall|m: Move| #[trigger] result@.contains(m) <==> (m.from_pos() == from && (c1(
            m.to_pos()) || c2(m.to_pos()) || c3(m.to_pos()) || c4(m.to_pos()))) by {}
        assert forall|m: Move| #[trigger] result@.contains(m) <==> (m.from_pos() == from
            && pawn_move(s, from, player, first, m.to_pos())) by {}
    }
    result
}

/// The castling move of a king of `player` on `from` toward the kingside
/// (column 7) corner when `right_side` is set, else toward the queenside
/// (column 0) corner, when the castling conditions hold on the board.
fn check_castle_move(state: &GameState, from: Position, player: Player, right_side: bool) -> (o:
    Option<Move>)
    requires
        state.wf(),
        from.wf(),
    ensures
        o matches Some(m) ==> m.from_pos() == from && m.to_pos().spec_row() == from.spec_row()
            && m.to_pos().spec_col() == (if right_side { 6int } else { 2 }),
        right_side ==> ((o matches Some(m) && castle_kingside(state.model(), from, player, m.to_pos()))
            <==> (exists|to: Position| castle_kingside(state.model(), from, player, to))),
        !right_side ==> ((o matches Some(m) && castle_queenside(state.model(), from, player, m.to_pos()))
            <==> (exists|to: Position| castle_queenside(state.model(), from, player, to))),
        o matches Some(m) ==> (if right_side {
            castle_kingside(state.model(), from, player, m.to_pos())
        } else {
            castle_queenside(state.model(), from, player, m.to_pos())
        }),
{
    let ghost s = state.model();
    let row = from.get_row();
    let corner_col: u8 = if right_side {
        7
    } else {
        0
    };
    let corner = match Position::new(row, corner_col) {
        Some(p) => p,
        None => {
            return None;
        },
    };
    let rook_ok = match state.get_piece(corner) {
        Some(p) => {
            let is_rook = match p.get_type() {
                PieceType::Rook => true,
                _ => false,
            };
            is_rook && p.can_castle() && p.get_player() == player
        },
        None => false,
    };
    if !rook_ok {
        return None;
    }
    let gap_clear = if right_side {
        let g5 = match Position::new(row, 5) {
            Some(p) => state.get_piece(p).is_none(),
            None => false,
        };
        let g6 = match Position::new(row, 6) {
            Some(p) => state.get_piece(p).is_none(),
            None => false,
        };
        g5 && g6
    } else {
        let g1 = match Position::new(row, 1) {
            Some(p) => state.get_piece(p).is_none(),
            None => false,
        };
        let g2 = match Position::new(row, 2) {
            Some(p) => state.get_piece(p).is_none(),
            None => false,
        };
        let g3 = match Position::new(row, 3) {
            Some(p) => state.get_piece(p).is_none(),
            None => false,
        };
        g1 && g2 && g3
    };
    if !gap_clear {
        return None;
    }
    let dest_col: u8 = if right_side {
        6
    } else {
        2
    };
    let to = match Position::new(row, dest_col) {
        Some(p) => p,
        None => {
            return None;
        },
    };
    Some(Move::new(from, to))
}

/// All pseudo-legal moves of a king of `player` standing on `from`, with
/// castling eligibility `cc`: the eight single steps, plus the castling
/// moves whose conditions hold — castling only while the king's own
/// square is not attacked, since a king in check may not castle.
pub(crate) fn king_moves(state: &GameState, from: Position, player: Player, cc: bool) -> (r: Vec<
    Move>)
    requires
        state.wf(),
        from.wf(),
        state.model().at_pos(from) matches Some(k) && k.spec_kind() == PieceType::King,
    ensures
        r@.no_duplicates(),
        forall|m: Move|
            #[trigger] r@.contains(m) <==> (m.from_pos() == from && (king_step_move(
                state.model(),
                from,
                player,
                m.to_pos(),
            ) || (cc && !attacks(state.model(), opponent(player), from.spec_row(), from.spec_col())
                && (castle_queenside(state.model(), from, player, m.to_pos())
                || castle_kingside(state.model(), from, player, m.to_pos()))))),
{
    let ghost s = state.model();
    let mut result = king_step_moves(state, from, player);
    if cc && !state.square_attacked(get_opponent(player), from) {
        let ghost snap0 = result@;
        if let Some(m) = check_castle_move(state, from, player, false) {
            proof {
                // A castling destination cannot also be a king step: the
                // step would start inside the required empty gap, where the
                // king itself stands.
                assert(s.at_pos(from) is Some);
                assert(!result@.contains(m));
            }
            result.push(m);
            proof {
                assert forall|m2: Move| #[trigger] result@.contains(m2) <==> (snap0.contains(m2)
                    || m2 == m) by {
                    lemma_push_contains(snap0, m, m2);
                }
            }
        }
        let ghost snap1 = result@;
        if let Some(m) = check_castle_move(state, from, player, true) {
            proof {
                assert(s.at_pos(from) is Some);
                assert(!result@.contains(m));
            }
            result.push(m);
            proof {
                assert forall|m2: Move| #[trigger] result@.contains(m2) <==> (snap1.contains(m2)
                    || m2 == m) by {
                    lemma_push_contains(snap1, m, m2);
                }
            }
        }
    }
    proof {
        assert forall|m: Move| #[trigger] result@.contains(m) <==> (m.from_pos() == from && (
            king_step_move(s, from, player, m.to_pos()) || (cc && !attacks(
            s, opponent(player), from.spec_row(), from.spec_col()) && (castle_queenside(
            s, from, player, m.to_pos()) || castle_kingside(s, from, player, m.to_pos()))))) by {}
    }
    result
}

/// Every destination the movement rules admit lies on the board.
pub(crate) proof fn lemma_pattern_to_wf(s: StateView, p: Piece, to: Position)
    requires
        piece_pattern(s, p, to),
        p.wf(),
    ensures
        to.wf(),
{
}

} // verus!

