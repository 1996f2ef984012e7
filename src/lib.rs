//! Relative-strength ranking of competitive teams: the integer side of a
//! two-phase pipeline that seeds each team from its tournament record and then
//! refines the seed with a per-map Elo-style update.
//!
//! Teams, matches and events live in flat, index-stable collections; a team is
//! always referred to by its index. This crate decides which values take part
//! in each step (which wins count, which team holds the reference value, which
//! map moves which two ratings, which teams are eligible) and proves those
//! choices against their specifications. The real-valued arithmetic is left to
//! the caller.
pub mod context;
pub mod error;
pub mod intake;
pub mod model;
pub mod propagation;
pub mod roster;
pub mod seeding;
pub mod selection;
pub mod standings;
pub mod text;
