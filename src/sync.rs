use vstd::prelude::*;

verus! {

/// What the session knows of the upstream ledger: the height its fork was
/// last rolled to, and the program that must survive every roll.
pub struct SyncCursor {
    pub height: u64,
    pub program: Vec<u8>,
}

/// The height to roll to, if any, when the upstream ledger reports
/// `upstream` (nothing when it could not be reached).
pub open spec fn roll_target(height: u64, upstream: Option<u64>) -> Option<u64> {
    match upstream {
        Some(h) => if h > height {
            Some(h)
        } else {
            None
        },
        None => None,
    }
}

/// The recorded height after a roll to `h` that succeeded or not.
pub open spec fn height_after(height: u64, h: u64, rolled: bool) -> u64 {
    if rolled && h > height {
        h
    } else {
        height
    }
}

impl SyncCursor {
    /// A session forked at `height` that serves `program`.
    pub fn new(height: u64, program: Vec<u8>) -> (r: SyncCursor)
        ensures
            r.height == height,
            r.program@ == program@,
    {
        SyncCursor { height, program }
    }

    /// Decides, on one tick, whether to roll the fork and to which height.
    pub fn plan(&self, upstream: Option<u64>) -> (r: Option<u64>)
        ensures
            r == roll_target(self.height, upstream),
    {
        match upstream {
            Some(h) => if h > self.height {
                Some(h)
            } else {
                None
            },
            None => None,
        }
    }

    /// Records the outcome of a roll to `h`. A failed roll changes nothing;
    /// the height never goes down and the program is kept.
    pub fn record(&mut self, h: u64, rolled: bool)
        ensures
            final(self).height == height_after(old(self).height, h, rolled),
            final(self).height >= old(self).height,
            final(self).program == old(self).program,
    {
        if rolled && h > self.height {
            self.height = h;
        }
    }
}

/// Once the upstream height has moved from `h` to `h + k`, one tick that
/// rolls successfully records `h + k`; a tick that fails or finds nothing new
/// leaves the height where it was.
pub proof fn lemma_sync_converges(h: u64, k: u64, rolled: bool)
    requires
        k > 0,
        h + k <= u64::MAX,
    ensures
        roll_target(h, Some((h + k) as u64)) == Some((h + k) as u64),
        rolled ==> height_after(h, (h + k) as u64, rolled) == h + k,
        !rolled ==> height_after(h, (h + k) as u64, rolled) == h,
        roll_target(h, Some(h)) is None,
        roll_target(h, None) is None,
{
}

} // verus!
