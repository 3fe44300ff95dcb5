use vstd::prelude::*;

verus! {

/// One of the two sides of the game.
#[derive(Debug, PartialEq, Eq, Structural, Clone, Copy, Hash)]
pub enum Player {
    Black,
    White,
}

/// The side opposing `p`.
pub open spec fn opponent(p: Player) -> Player {
    match p {
        Player::White => Player::Black,
        Player::Black => Player::White,
    }
}

/// Returns the player opposing the given one.
pub fn get_opponent(player: Player) -> (r: Player)
    ensures
        r == opponent(player),
{
    match player {
        Player::White => Player::Black,
        Player::Black => Player::White,
    }
}

/// Taking the opponent twice gives back the same player, for both sides.
pub proof fn lemma_opponent_involutive(p: Player)
    ensures
        opponent(opponent(p)) == p,
{
}

} // verus!
