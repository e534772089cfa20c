//! The leaderboard's data row: who finished a game and how long it took.
//! Storing and querying rows is the storage layer's job; the library only
//! fixes the shape the two sides exchange.

use vstd::prelude::*;

verus! {

/// One finished run as the leaderboard lists it, fastest first.
#[derive(Clone, Debug)]
pub struct Score {
    pub username: String,
    pub time_in_seconds: i64,
}

impl Score {
    /// Packs one leaderboard row.
    pub fn new(username: String, time_in_seconds: i64) -> (r: Score)
        ensures
            r.username == username,
            r.time_in_seconds == time_in_seconds,
    {
        Score { username, time_in_seconds }
    }
}

} // verus!
