//! One probe attempt and its outcome.

use vstd::prelude::*;
use std::time::Instant;
use crate::round_trip_statistics::{Latencies, RoundTripStatistics};

verus! {

/// `std::time::Instant`: a moment on the monotonic clock. Nothing is read
/// from it here; an event carries it along.
#[verifier::external_type_specification]
#[verifier::external_body]
pub struct ExInstant(Instant);

/// The outcome of one probe of `host`, taken at `timestamp`.
#[derive(Debug)]
pub struct Event {
    pub timestamp: Instant,
    pub host: String,
    pub success: bool,
    pub round_trip_statistics: Option<RoundTripStatistics>,
}

/// The values of an `Event`.
pub struct EventView {
    pub timestamp: Instant,
    pub host: Seq<char>,
    pub success: bool,
    pub round_trip_statistics: Option<Latencies>,
}

impl EventView {
    /// A failed probe reports no statistics. A successful one may lack them
    /// too: its output need not have held a summary line.
    pub open spec fn well_formed(self) -> bool {
        !self.success ==> self.round_trip_statistics is None
    }
}

impl View for Event {
    type V = EventView;

    open spec fn view(&self) -> EventView {
        EventView {
            timestamp: self.timestamp,
            host: self.host@,
            success: self.success,
            round_trip_statistics: match self.round_trip_statistics {
                Some(statistics) => Some(statistics@),
                None => None,
            },
        }
    }
}

impl Clone for Event {
    fn clone(&self) -> (copy: Self)
        ensures
            copy@ == self@,
    {
        Event {
            timestamp: self.timestamp,
            host: self.host.clone(),
            success: self.success,
            round_trip_statistics: match &self.round_trip_statistics {
                Some(statistics) => Some(statistics.clone()),
                None => None,
            },
        }
    }
}

impl Event {
    /// The event of a probe that succeeded, with the statistics read from its
    /// output, if any were.
    pub fn succeeded(
        timestamp: Instant,
        host: String,
        round_trip_statistics: Option<RoundTripStatistics>,
    ) -> (event: Event)
        ensures
            event@.well_formed(),
            event == (Event { timestamp, host, success: true, round_trip_statistics }),
    {
        Event { timestamp, host, success: true, round_trip_statistics }
    }

    /// The event of a probe that failed. It holds no statistics.
    pub fn failed(timestamp: Instant, host: String) -> (event: Event)
        ensures
            event@.well_formed(),
            event == (Event { timestamp, host, success: false, round_trip_statistics: None }),
    {
        Event { timestamp, host, success: false, round_trip_statistics: None }
    }
}

} // verus!
