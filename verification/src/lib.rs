//! The judging and scoring logic of an osu!mania-style rhythm game.
pub mod difficulty;
pub mod score;
pub mod time;
pub mod timeline;
pub mod hitline;
