//! A chess rules engine.
//!
//! The crate models a board position, enumerates the legal moves of every
//! piece (including pawn double-steps, en passant, castling and promotion),
//! applies a chosen move to produce a brand-new position, and detects
//! terminal states.  Every state transition is a pure function over
//! immutable values, and each public operation carries a contract that
//! pins its result down against a mathematical model of the rules.

pub mod game;
pub mod gamestate;
pub mod movement;
pub mod moves;
pub mod piece;
pub mod player;
pub mod position;

pub use game::Game;
pub use game::Status;
pub use gamestate::ChessmanStatus;
pub use gamestate::GameState;
pub use moves::Move;
pub use piece::ChessmanKind;
pub use piece::Piece;
pub use piece::PieceData;
pub use piece::PieceType;
pub use piece::PromotionType;
pub use piece::SharedData;
pub use player::Player;
pub use player::get_opponent;
pub use position::Position;
