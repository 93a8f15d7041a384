//! Probe statistics for the `ping` command: reading the round-trip summary
//! that the command prints, and aggregating the outcomes of repeated probes.
//!
//! * `ping`: the arguments of one probe.
//! * `round_trip_statistics`: the four round-trip times of a probe, read
//!   from the summary line of its output.
//! * `event`, `events`: the outcomes of repeated probes and what they add up to.
//! * `measurement`, `decimal`, `digits`: the numbers themselves, held as exact
//!   decimals, and the proofs about their text.
//! * `pattern`: the search for the summary line, which the `regex` crate does.

pub mod decimal;
pub mod digits;
pub mod event;
pub mod events;
pub mod measurement;
pub mod pattern;
pub mod ping;
pub mod round_trip_statistics;
