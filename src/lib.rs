//! A falling-words typing game: a word descends, the player types it, and a
//! completed word drifts away while it fades out.
//!
//! Positions are kept in micro-units (a millionth of a screen unit), speeds in
//! micro-units per millisecond (a thousandth of a unit per second), frame times
//! in milliseconds and opacity in millionths. All motion is therefore exact
//! integer arithmetic.
pub mod entity;
pub mod game;
pub mod geometry;
pub mod motion;
mod random;
pub mod score;
pub mod word_bank;

pub use entity::{EntityView, WordEntity, WordState};
pub use game::{Game, GameView, KeyEvent};
pub use geometry::{Point, Velocity, Viewport};
pub use motion::{
    drift_from, fade, shift, COMPONENT_RANGE, DRIFT_SPEED, DRIFT_SPEED_MIN, FALL_SPEED, NUDGE,
    OPAQUE,
};
pub use score::{ScoreKeeper, WordCompleted};
pub use word_bank::{WordBank, WordBankError};
