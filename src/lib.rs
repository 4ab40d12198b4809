//! A one-screen arcade game: a target bounces up and down the right half of
//! the screen, and each click on the left half throws a pitchfork at it along a
//! ballistic arc. The library holds the game's rules: the target's motion, the
//! flight of a shot frame by frame, the hit test, and the score.

pub mod flight;
pub mod game;
pub mod shot;
pub mod target;
