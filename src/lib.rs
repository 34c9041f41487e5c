//! Dice expressions for tabletop games: parsing, simulated rolls and the
//! lines that report them.

pub mod driver;
pub mod laws;
pub mod parse;
pub mod roll;
pub mod simulate;
pub mod text;
