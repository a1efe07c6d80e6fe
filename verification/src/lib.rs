//! Game-logic and adversarial-search core for two turn-based
//! drop-piece board games.
//!
//! Connect Four is played on a 7x6 grid: Red and Yellow alternate
//! dropping discs and four in a line wins.  TOOT-and-OTTO is played
//! on a 6x4 grid: both players share the letters T and O, each with a
//! stock of six per letter; one player wins by spelling T-O-O-T, the
//! other by spelling O-T-T-O, along any line of four.
//!
//! The board modules hold the positions, the drop rule, win and draw
//! detection and the heuristic evaluator; the cpu modules hold the
//! depth-limited minimax searches and the simpler rule-based
//! opponents.

pub mod connect4;
pub mod cpu;
pub mod cpu_con4;
pub mod cpu_toot;
pub mod easy_cpu;
pub mod hard_cpu;
pub mod medium_cpu;
pub mod opponent;
pub mod piece_color;
pub mod piece_letter;
pub mod player;
pub mod rng;
pub mod toot_and_otto;
