//! A controllable clock for deterministic tests: a logical millisecond
//! counter that auto-advances by a fixed quantum on every reading, so with a
//! positive quantum repeated readings are strictly increasing, plus an
//! explicit `advance`.
use vstd::prelude::*;

verus! {

use crate::{sat_add, Clock};

/// A fake clock owned by the test: starts at zero and moves only when read
/// or explicitly advanced.
pub struct FakeClock {
    cur: u64,
    auto_advance: u64,
}

impl Clock for FakeClock {
    closed spec fn time(&self) -> u64 {
        self.cur
    }

    closed spec fn quantum(&self) -> u64 {
        self.auto_advance
    }

    fn start() -> (c: Self) {
        FakeClock { cur: 0, auto_advance: 1 }
    }

    fn now(&mut self) -> (t: u64) {
        self.cur = sat_add(self.cur, self.auto_advance);
        self.cur
    }

    fn advance(&mut self, duration: u64) {
        self.cur = sat_add(self.cur, duration);
    }
}

impl FakeClock {
    /// A clock at time zero whose every reading auto-advances it by the
    /// given quantum instead of the default of one millisecond.
    pub fn with_quantum(quantum: u64) -> (c: Self)
        ensures
            c.time() == 0,
            c.quantum() == quantum,
    {
        FakeClock { cur: 0, auto_advance: quantum }
    }
}

} // verus!
