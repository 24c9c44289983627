//! An interactive chessboard widget core: position-transition animation and
//! pointer interaction, verified.
//!
//! The crate owns no rendering and no chess rules. A host hands it board
//! occupancy snapshots and legal-move lists, feeds it pointer events, and
//! reads back, for every animated piece, what it is visually doing. All
//! coordinates are fixed-point integers in board space (1000 units per
//! square side); all timestamps are milliseconds on a monotonic clock.

pub mod board;
pub mod diff;
pub mod anim;
pub mod geometry;
pub mod ground;
pub mod pieces;
pub mod promotable;

pub use board::{Board, Color, LegalMove, LegalMoveSet, Piece, Role, Square};
pub use geometry::{BoardGeometry, PixelRect, Pos};
pub use ground::{BoardState, EventContext, GroundMsg, State};
pub use pieces::{Figurine, Pieces, RenderEntry};
pub use promotable::Promotable;
