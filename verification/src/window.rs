//! The window calculator: the span of time that one pass looks at.

use vstd::prelude::*;
use crate::error::SyncError;

verus! {

/// One week, in microseconds.
pub const WEEK_MICROS: i64 = 604_800_000_000;

/// A moment in time, counted in microseconds from the Unix epoch.
#[derive(Clone, Copy, Debug, PartialEq, Eq, Structural)]
pub struct Timestamp {
    pub micros: i64,
}

/// A span of time; both of its ends belong to it.
#[derive(Clone, Copy, Debug, PartialEq, Eq, Structural)]
pub struct Window {
    pub start: Timestamp,
    pub end: Timestamp,
}

impl Window {
    /// The moment `at` lies in the window.
    pub open spec fn contains(self, at: Timestamp) -> bool {
        self.start.micros <= at.micros <= self.end.micros
    }

    /// Whether the moment `at` lies in the window.
    pub fn holds(&self, at: Timestamp) -> (inside: bool)
        ensures
            inside == self.contains(at),
    {
        self.start.micros <= at.micros && at.micros <= self.end.micros
    }
}

/// The window of a pass whose catalog reports `latest` as the moment of its
/// most recent release: the week that ends at that moment. There is no window
/// where the catalog holds no release, nor where the week would begin before
/// the earliest moment that a timestamp can express.
pub open spec fn window_of(latest: Option<Timestamp>) -> Result<Window, SyncError> {
    match latest {
        None => Err(SyncError::NoData),
        Some(end) => if end.micros - WEEK_MICROS < i64::MIN {
            Err(SyncError::MalformedWindow)
        } else {
            Ok(Window { start: Timestamp { micros: (end.micros - WEEK_MICROS) as i64 }, end })
        },
    }
}

/// Computes the window of a pass from the moment of the catalog's most recent
/// release.
pub fn window_ending_at(latest: Option<Timestamp>) -> (window: Result<Window, SyncError>)
    ensures
        window == window_of(latest),
{
    match latest {
        None => Err(SyncError::NoData),
        Some(end) => match end.micros.checked_sub(WEEK_MICROS) {
            Some(start) => Ok(Window { start: Timestamp { micros: start }, end }),
            None => Err(SyncError::MalformedWindow),
        },
    }
}

/// Every window that is computed spans exactly one week and ends at the
/// moment it was computed from.
pub proof fn lemma_window_spans_one_week(latest: Option<Timestamp>)
    ensures
        match window_of(latest) {
            Ok(window) => latest == Some(window.end) && window.end.micros - window.start.micros
                == WEEK_MICROS,
            Err(error) => (error == SyncError::NoData <==> latest is None) && (error
                == SyncError::MalformedWindow <==> latest is Some),
        },
{
}

} // verus!
