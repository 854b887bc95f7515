//! A vocabulary drill scheduler: the in-session practice deck that rotates
//! cards until every one of them has been passed, and the readiness rule that
//! decides which stored phrases are due for review today.

pub mod card;
pub mod deck;
pub mod drill_point;
pub mod error;
pub mod hint;
pub mod lesson_status;
pub mod perm;
pub mod readiness;
pub mod review;
pub mod rng;
pub mod run;
pub mod selector;
pub mod session;
pub mod tagged;
pub mod tags;
pub mod text;
pub mod worksheet;
