//! Rules engine for a three-player chess variant played on a board of six
//! 4 by 4 sections: the board's topology and its 21 directions, the moves of
//! each kind of piece, check and the legality of moves, and a game session
//! that passes the turn and marks mated players.

use vstd::prelude::*;

pub mod backend;
pub mod board;
pub mod direction;
pub mod game;
pub mod geometry;
pub mod legality;
pub mod moves;
pub mod topology;

pub use backend::{Backend, Color, Event, Image, MouseButton};
pub use board::Board;
pub use direction::Direction;
pub use game::{Game, PickOutcome};
pub use geometry::{draw_polygon, fill_quadrilateral, point_is_in_quadrilateral, point_is_in_triangle, sign};
pub use topology::{cadd, csub, Coord, Field, FieldType, Piece, PieceType, Player, Section};

verus! {

} // verus!
