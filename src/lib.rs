//! Rules engine for a five-dice scoring game: the category catalog, dice
//! scoring, the scoreboard and the turn state machine.

pub mod category;
pub mod dice;
pub mod game;
pub mod scoreboard;
pub mod table_printer;
