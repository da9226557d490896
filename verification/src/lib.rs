//! The verified core of a terminal platformer: the double-buffered
//! character screen, key decoding, platform generation and the integer
//! parts of drawing a frame.

pub mod random;
pub mod terminal;
pub mod world;
pub mod game;
