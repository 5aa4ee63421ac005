//! Rules of a Minesweeper game: the mine field, what the player has
//! uncovered and flagged, the cascade of a reveal, and the phases of a
//! session.

pub mod cascade;
pub mod config;
pub mod coordinates;
pub mod coverage;
pub mod covered;
pub mod engine;
pub mod field;
pub mod grid;
pub mod laws;
pub mod random;
pub mod session;
pub mod text;

pub use cascade::Signal;
pub use config::{ConfigurationError, DifficultySettings};
pub use coordinates::Coordinates;
pub use coverage::{Coverage, CoverageState};
pub use covered::CoveredCells;
pub use engine::{resolve_reveal, RevealOutcome};
pub use field::{Cell, Field};
pub use grid::{Grid, NEIGHBORS};
pub use session::{Command, Outcome, Phase, Session, SessionState};
