//! The outcomes of repeated probes, in the order in which they were made, and
//! the figures that summarise them.

use vstd::prelude::*;
use crate::event::{Event, EventView};
use crate::round_trip_statistics::{Latencies, RoundTripStatistics};

verus! {

/// The share of the attempts that succeeded.
#[derive(Clone, Copy, Debug, PartialEq, Eq, Structural)]
pub enum SuccessRate {
    /// Nothing was attempted, so there is no rate.
    NotANumber,
    /// `successes` out of `attempts`, of which there is at least one.
    Fraction { successes: usize, attempts: usize },
}

/// The probes that succeeded, in their order.
pub open spec fn successes(events: Seq<EventView>) -> Seq<EventView> {
    events.filter(|event: EventView| event.success)
}

/// The probes that failed, in their order.
pub open spec fn failures(events: Seq<EventView>) -> Seq<EventView> {
    events.filter(|event: EventView| !event.success)
}

/// The rate of success among `events`: the number of successes out of the
/// number of events, and not a number where there is no event.
pub open spec fn success_rate_of(events: Seq<EventView>) -> SuccessRate {
    if events.len() == 0 {
        SuccessRate::NotANumber
    } else {
        SuccessRate::Fraction {
            successes: successes(events).len() as usize,
            attempts: events.len() as usize,
        }
    }
}

/// Whether an event is a success that reports statistics.
pub open spec fn reports(event: EventView) -> bool {
    event.success && event.round_trip_statistics is Some
}

/// The statistics of the successes that report them, in the order of the events.
pub open spec fn reported(events: Seq<EventView>) -> Seq<Latencies> {
    events.filter(|event: EventView| reports(event)).map_values(
        |event: EventView| event.round_trip_statistics->0,
    )
}

/// The values of a list of statistics.
pub open spec fn latencies(statistics: Seq<RoundTripStatistics>) -> Seq<Latencies> {
    statistics.map_values(|one: RoundTripStatistics| one@)
}

/// The events of repeated probes, oldest first.
#[derive(Debug)]
pub struct Events {
    pub vec: Vec<Event>,
}

impl View for Events {
    type V = Seq<EventView>;

    open spec fn view(&self) -> Seq<EventView> {
        self.vec@.map_values(|event: Event| event@)
    }
}

impl Clone for Events {
    fn clone(&self) -> (copy: Self)
        ensures
            copy@ == self@,
    {
        let mut copy = Events::new();
        let mut i: usize = 0;
        while i < self.vec.len()
            invariant
                i <= self.vec@.len(),
                copy@ == self@.take(i as int),
            decreases self.vec@.len() - i,
        {
            copy.append(self.vec[i].clone());
            i = i + 1;
        }
        copy
    }
}

impl Events {
    /// No events yet.
    pub fn new() -> (events: Self)
        ensures
            events@ == Seq::<EventView>::empty(),
    {
        Events { vec: Vec::new() }
    }

    /// Add `event` behind the events that are there.
    pub fn append(&mut self, event: Event)
        ensures
            final(self)@ == old(self)@.push(event@),
            final(self).vec@ == old(self).vec@.push(event),
    {
        self.vec.push(event);
    }

    /// How many probes were made.
    pub fn attempt_count(&self) -> (count: usize)
        ensures
            count == self@.len(),
    {
        self.vec.len()
    }

    /// How many probes succeeded.
    pub fn success_count(&self) -> (count: usize)
        ensures
            count == successes(self@).len(),
    {
        let mut count: usize = 0;
        let mut i: usize = 0;
        while i < self.vec.len()
            invariant
                i <= self.vec@.len(),
                count == successes(self@.take(i as int)).len(),
                count <= i,
            decreases self.vec@.len() - i,
        {
            proof {
                let event = self.vec@[i as int]@;
                self@.take(i as int).lemma_filter_push(event, |event: EventView| event.success);
                assert(self@.take(i + 1) =~= self@.take(i as int).push(event));
            }
            if self.vec[i].success {
                count = count + 1;
            }
            i = i + 1;
        }
        assert(self@.take(i as int) =~= self@);
        count
    }

    /// How many probes failed.
    pub fn failure_count(&self) -> (count: usize)
        ensures
            count == failures(self@).len(),
    {
        let mut count: usize = 0;
        let mut i: usize = 0;
        while i < self.vec.len()
            invariant
                i <= self.vec@.len(),
                count == failures(self@.take(i as int)).len(),
                count <= i,
            decreases self.vec@.len() - i,
        {
            proof {
                let event = self.vec@[i as int]@;
                self@.take(i as int).lemma_filter_push(event, |event: EventView| !event.success);
                assert(self@.take(i + 1) =~= self@.take(i as int).push(event));
            }
            if !self.vec[i].success {
                count = count + 1;
            }
            i = i + 1;
        }
        assert(self@.take(i as int) =~= self@);
        count
    }

    /// The share of the probes that succeeded; not a number while no probe
    /// was made.
    pub fn success_rate(&self) -> (rate: SuccessRate)
        ensures
            rate == success_rate_of(self@),
    {
        let attempts = self.attempt_count();
        if attempts == 0 {
            SuccessRate::NotANumber
        } else {
            SuccessRate::Fraction { successes: self.success_count(), attempts }
        }
    }

    /// The statistics of every success that reports them, oldest first.
    /// Failures are left out, and so are successes without statistics.
    pub fn success_round_trip_statistics(&self) -> (statistics: Vec<RoundTripStatistics>)
        ensures
            latencies(statistics@) == reported(self@),
    {
        let mut statistics: Vec<RoundTripStatistics> = Vec::new();
        let mut i: usize = 0;
        while i < self.vec.len()
            invariant
                i <= self.vec@.len(),
                latencies(statistics@) == reported(self@.take(i as int)),
            decreases self.vec@.len() - i,
        {
            let event = &self.vec[i];
            let ghost before = self@.take(i as int);
            proof {
                before.lemma_filter_push(event@, |event: EventView| reports(event));
                assert(self@.take(i + 1) =~= before.push(event@));
            }
            if event.success {
                match &event.round_trip_statistics {
                    Some(one) => {
                        let copy = one.clone();
                        proof {
                            before.filter(
                                |event: EventView| reports(event),
                            ).lemma_push_map_commute(
                                |event: EventView| event.round_trip_statistics->0,
                                event@,
                            );
                            statistics@.lemma_push_map_commute(
                                |one: RoundTripStatistics| one@,
                                copy,
                            );
                        }
                        statistics.push(copy);
                    },
                    None => {},
                }
            }
            i = i + 1;
        }
        assert(self@.take(i as int) =~= self@);
        statistics
    }
}

/// Every attempt is a success or a failure, and not both: the two counts
/// add up to the number of attempts.
pub proof fn lemma_counts_add_up(events: Seq<EventView>)
    ensures
        successes(events).len() + failures(events).len() == events.len(),
    decreases events.len(),
{
    if events.len() == 0 {
    } else {
        let front = events.drop_last();
        lemma_counts_add_up(front);
        assert(events =~= front.push(events.last()));
        front.lemma_filter_push(events.last(), |event: EventView| event.success);
        front.lemma_filter_push(events.last(), |event: EventView| !event.success);
    }
}

/// A failed probe holds no statistics, so among well-formed events the
/// statistics that are reported are all the statistics that there are.
pub proof fn lemma_reported_is_all(events: Seq<EventView>)
    requires
        forall|i: int| 0 <= i < events.len() ==> (#[trigger] events[i]).well_formed(),
    ensures
        events.filter(|event: EventView| reports(event)) == events.filter(
            |event: EventView| event.round_trip_statistics is Some,
        ),
        reported(events) == events.filter(
            |event: EventView| event.round_trip_statistics is Some,
        ).map_values(|event: EventView| event.round_trip_statistics->0),
    decreases events.len(),
{
    let reporting = |event: EventView| reports(event);
    let holding = |event: EventView| event.round_trip_statistics is Some;
    if events.len() == 0 {
        events.lemma_filter_len(reporting);
        events.lemma_filter_len(holding);
        assert(events.filter(reporting) =~= events.filter(holding));
    } else {
        let front = events.drop_last();
        let last = events.last();
        assert forall|i: int| 0 <= i < front.len() implies (#[trigger] front[i]).well_formed() by {
            assert(front[i] == events[i]);
        }
        lemma_reported_is_all(front);
        assert(events =~= front.push(last));
        assert(events[events.len() - 1].well_formed());
        front.lemma_filter_push(last, reporting);
        front.lemma_filter_push(last, holding);
    }
}

} // verus!
