//! Severities and severity filters.
//!
//! Log events carry a [`Level`]; configuration speaks of [`LevelFilter`]s,
//! which add an `Off` value below every level. Both sides order their values
//! by *verbosity*: a message passes a filter when its level's verbosity does
//! not exceed the filter's.

use vstd::prelude::*;

verus! {

/// Severity of a single log event, from the most severe (`Error`) down to the
/// most verbose (`Trace`).
#[derive(Copy, Clone, Debug, PartialEq, Eq, Structural)]
pub enum Level {
    /// Designates very serious errors.
    Error,
    /// Designates hazardous situations.
    Warn,
    /// Designates useful information.
    Info,
    /// Designates lower priority information.
    Debug,
    /// Designates very low priority, often extremely verbose, information.
    Trace,
}

/// A severity threshold: either `Off` (nothing passes) or the name of the
/// most verbose [`Level`] that still passes.
#[derive(Copy, Clone, Debug, PartialEq, Eq, Structural)]
pub enum LevelFilter {
    /// Lets nothing through.
    Off,
    /// Lets only `Error` through.
    Error,
    /// Lets `Error` and `Warn` through.
    Warn,
    /// Lets `Error`, `Warn` and `Info` through.
    Info,
    /// Lets everything but `Trace` through.
    Debug,
    /// Lets everything through.
    Trace,
}

impl Level {
    /// Verbosity rank of this level: `Error` is 1, `Trace` is 5.
    pub open spec fn verbosity(self) -> int {
        match self {
            Level::Error => 1,
            Level::Warn => 2,
            Level::Info => 3,
            Level::Debug => 4,
            Level::Trace => 5,
        }
    }

    /// The numeric value the host's logging scale gives this level.
    ///
    /// The host has no `Trace` of its own; it is mapped to 5, below the
    /// host's lowest built-in level (10).
    pub open spec fn host_value(self) -> int {
        match self {
            Level::Error => 40,
            Level::Warn => 30,
            Level::Info => 20,
            Level::Debug => 10,
            Level::Trace => 5,
        }
    }

    /// Verbosity rank as a machine integer.
    pub fn verbosity_rank(self) -> (n: u8)
        ensures
            n == self.verbosity(),
    {
        match self {
            Level::Error => 1,
            Level::Warn => 2,
            Level::Info => 3,
            Level::Debug => 4,
            Level::Trace => 5,
        }
    }

    /// Whether a message of this level passes the threshold `f`.
    pub fn passes(self, f: LevelFilter) -> (r: bool)
        ensures
            r == (self.verbosity() <= f.verbosity()),
    {
        self.verbosity_rank() <= f.verbosity_rank()
    }

    /// The filter that lets exactly this level and everything more severe
    /// through.
    pub open spec fn as_filter(self) -> LevelFilter {
        match self {
            Level::Error => LevelFilter::Error,
            Level::Warn => LevelFilter::Warn,
            Level::Info => LevelFilter::Info,
            Level::Debug => LevelFilter::Debug,
            Level::Trace => LevelFilter::Trace,
        }
    }

    /// The filter that lets exactly this level and everything more severe
    /// through.
    pub fn to_level_filter(self) -> (f: LevelFilter)
        ensures
            f == self.as_filter(),
            f.verbosity() == self.verbosity(),
    {
        match self {
            Level::Error => LevelFilter::Error,
            Level::Warn => LevelFilter::Warn,
            Level::Info => LevelFilter::Info,
            Level::Debug => LevelFilter::Debug,
            Level::Trace => LevelFilter::Trace,
        }
    }
}

impl LevelFilter {
    /// Verbosity rank of this filter: `Off` is 0, `Trace` is 5.
    pub open spec fn verbosity(self) -> int {
        match self {
            LevelFilter::Off => 0,
            LevelFilter::Error => 1,
            LevelFilter::Warn => 2,
            LevelFilter::Info => 3,
            LevelFilter::Debug => 4,
            LevelFilter::Trace => 5,
        }
    }

    /// Verbosity rank as a machine integer.
    pub fn verbosity_rank(self) -> (n: u8)
        ensures
            n == self.verbosity(),
    {
        match self {
            LevelFilter::Off => 0,
            LevelFilter::Error => 1,
            LevelFilter::Warn => 2,
            LevelFilter::Info => 3,
            LevelFilter::Debug => 4,
            LevelFilter::Trace => 5,
        }
    }

    /// The more permissive (more verbose) of the two filters.
    pub fn most_verbose(self, other: LevelFilter) -> (r: LevelFilter)
        ensures
            r == (if self.verbosity() >= other.verbosity() {
                self
            } else {
                other
            }),
    {
        if self.verbosity_rank() >= other.verbosity_rank() {
            self
        } else {
            other
        }
    }
}

/// Maps a level to the host logging subsystem's numeric severity scale.
pub fn map_level(level: Level) -> (n: usize)
    ensures
        n == level.host_value(),
{
    match level {
        Level::Error => 40,
        Level::Warn => 30,
        Level::Info => 20,
        Level::Debug => 10,
        Level::Trace => 5,
    }
}

} // verus!
