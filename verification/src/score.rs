//! The count of merges that the player has made.

use crate::physics::MergeNotification;
use vstd::prelude::*;

verus! {

/// Number of merges so far.
#[derive(Debug)]
pub struct Score {
    score: u32,
}

impl View for Score {
    type V = u32;

    closed spec fn view(&self) -> u32 {
        self.score
    }
}

impl Default for Score {
    fn default() -> (score: Self)
        ensures
            score@ == 0,
    {
        Score { score: 0 }
    }
}

impl Score {
    /// The number of merges counted.
    pub fn score(&self) -> (score: u32)
        ensures
            score == self@,
    {
        self.score
    }

    /// How many more merges can be counted.
    pub fn room(&self) -> (room: u32)
        ensures
            room == u32::MAX - self@,
    {
        u32::MAX - self.score
    }

    /// Counts the merges of one frame, one point each.
    pub fn record(&mut self, merges: &Vec<MergeNotification>)
        requires
            old(self)@ + merges.len() <= u32::MAX,
        ensures
            final(self)@ == old(self)@ + merges.len(),
    {
        self.score = self.score + merges.len() as u32;
    }
}

} // verus!
