//! How much of a lesson is ready for review and how much has been learned
//! today, in phrases and in sessions.

use vstd::prelude::*;

verus! {

/// The number of cards in a full session.
pub const SESSION_SIZE: usize = 5;

/// The state of a lesson at some moment.
#[derive(Debug, Clone, Copy, PartialEq, Eq, Structural)]
pub struct LessonStatus {
    pub lesson_id: i64,
    /// Phrases that are due.
    pub ready: usize,
    /// Phrases that are not due.
    pub learned: usize,
}

/// The number of sessions that `count` phrases fill, the last one possibly
/// in part: `count` divided by the session size, rounded up.
pub open spec fn sessions_for(count: nat) -> nat {
    ((count + SESSION_SIZE - 1) / (SESSION_SIZE as int)) as nat
}

/// `sessions_for(count)` is the least number of sessions that hold `count`
/// phrases.
pub proof fn lemma_sessions_for_is_least(count: nat, sessions: nat)
    ensures
        count <= sessions_for(count) * SESSION_SIZE < count + SESSION_SIZE,
        count <= sessions * SESSION_SIZE ==> sessions_for(count) <= sessions,
{
}

impl LessonStatus {
    /// The number of sessions that `count` phrases fill.
    pub fn sessions(count: usize) -> (sessions: usize)
        ensures
            sessions == sessions_for(count as nat),
    {
        let full: usize = count / SESSION_SIZE;
        let remaining: usize = count % SESSION_SIZE;
        if remaining > 0 {
            full + 1
        } else {
            full
        }
    }

    /// The ready and the learned phrases, each counted in sessions.
    pub fn to_ready_learned(&self) -> (counts: (usize, usize))
        ensures
            counts.0 == sessions_for(self.ready as nat),
            counts.1 == sessions_for(self.learned as nat),
    {
        (Self::sessions(self.ready), Self::sessions(self.learned))
    }
}

} // verus!
