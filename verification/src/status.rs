//! How serious a finding is.

use vstd::prelude::*;

verus! {

/// Severity, from nothing to report up to bytes that could not be read.
#[derive(Clone, Copy, Debug, PartialEq, Eq, Structural)]
pub enum Status {
    Clean,
    Info,
    Warn,
    Bad,
    Unreadable,
}

impl Status {
    /// Position on the scale.
    pub open spec fn level(self) -> int {
        match self {
            Status::Clean => 0,
            Status::Info => 1,
            Status::Warn => 2,
            Status::Bad => 3,
            Status::Unreadable => 4,
        }
    }

    /// The more serious of two.
    pub open spec fn worse(self, other: Status) -> Status {
        if self.level() >= other.level() {
            self
        } else {
            other
        }
    }

    fn rank(&self) -> (r: u8)
        ensures
            r == self.level(),
    {
        match *self {
            Status::Clean => 0,
            Status::Info => 1,
            Status::Warn => 2,
            Status::Bad => 3,
            Status::Unreadable => 4,
        }
    }

    /// The more serious of two.
    pub fn merge(&self, other: Status) -> (r: Status)
        ensures
            r == self.worse(other),
    {
        if self.rank() >= other.rank() {
            *self
        } else {
            other
        }
    }

    /// True for anything that is more than a remark.
    pub fn is_anomaly(&self) -> (r: bool)
        ensures
            r <==> self.level() >= Status::Warn.level(),
    {
        self.rank() >= 2
    }
}

} // verus!
