use ping_command::event::Event;
use ping_command::events::{Events, SuccessRate};
use ping_command::measurement::Measurement;
use ping_command::round_trip_statistics::RoundTripStatistics;
use std::time::Instant;

fn statistics(
    min: &str,
    average: &str,
    max: &str,
    standard_deviation: &str,
) -> RoundTripStatistics {
    RoundTripStatistics {
        min: Measurement::from_text(min),
        max: Measurement::from_text(max),
        average: Measurement::from_text(average),
        standard_deviation: Measurement::from_text(standard_deviation),
    }
}

fn rate(events: &Events) -> f64 {
    match events.success_rate() {
        SuccessRate::NotANumber => f64::NAN,
        SuccessRate::Fraction { successes, attempts } => successes as f64 / attempts as f64,
    }
}

#[test]
fn test_new_is_empty() {
    let events = Events::new();
    assert_eq!(events.attempt_count(), 0);
    assert_eq!(events.success_count(), 0);
    assert_eq!(events.failure_count(), 0);
    assert!(events.success_round_trip_statistics().is_empty());
}

#[test]
fn test_success_rate_of_nothing_is_not_a_number() {
    let events = Events::new();
    assert_eq!(events.success_rate(), SuccessRate::NotANumber);
    assert!(rate(&events).is_nan());
}

#[test]
fn test_two_successes_and_a_failure() {
    let mut events = Events::new();
    events.append(Event::succeeded(
        Instant::now(),
        "localhost".to_string(),
        Some(statistics("12.445", "26.791", "61.365", "20.049")),
    ));
    events.append(Event::succeeded(
        Instant::now(),
        "localhost".to_string(),
        Some(statistics("1.1", "2.2", "3.3", "0.4")),
    ));
    events.append(Event::failed(Instant::now(), "localhost".to_string()));
    assert_eq!(events.attempt_count(), 3);
    assert_eq!(events.success_count(), 2);
    assert_eq!(events.failure_count(), 1);
    assert_eq!(events.success_rate(), SuccessRate::Fraction { successes: 2, attempts: 3 });
    assert!((rate(&events) - 0.6667).abs() < 0.0001);
    let found = events.success_round_trip_statistics();
    assert_eq!(found.len(), 2);
    assert_eq!(found[0].min.to_text(), "12.445");
    assert_eq!(found[0].average.to_text(), "26.791");
    assert_eq!(found[0].max.to_text(), "61.365");
    assert_eq!(found[0].standard_deviation.to_text(), "20.049");
    assert_eq!(found[1].min.to_text(), "1.1");
    assert_eq!(found[1].average.to_text(), "2.2");
    assert_eq!(found[1].max.to_text(), "3.3");
    assert_eq!(found[1].standard_deviation.to_text(), "0.4");
}

#[test]
fn test_counts_add_up_after_every_append() {
    let mut events = Events::new();
    let outcomes = [true, false, false, true, true, false, true];
    let mut successes = 0;
    for (i, success) in outcomes.iter().enumerate() {
        let event = if *success {
            Event::succeeded(Instant::now(), format!("host{}", i), None)
        } else {
            Event::failed(Instant::now(), format!("host{}", i))
        };
        events.append(event);
        if *success {
            successes += 1;
        }
        assert_eq!(events.attempt_count(), i + 1);
        assert_eq!(events.success_count(), successes);
        assert_eq!(events.failure_count(), i + 1 - successes);
        assert_eq!(events.attempt_count(), events.success_count() + events.failure_count());
        assert_eq!(
            events.success_rate(),
            SuccessRate::Fraction { successes, attempts: i + 1 }
        );
    }
}

#[test]
fn test_success_rate_exact_values() {
    let mut events = Events::new();
    events.append(Event::failed(Instant::now(), "a".to_string()));
    assert_eq!(rate(&events), 0.0);
    events.append(Event::succeeded(Instant::now(), "a".to_string(), None));
    assert_eq!(rate(&events), 0.5);
    events.append(Event::succeeded(Instant::now(), "a".to_string(), None));
    events.append(Event::succeeded(Instant::now(), "a".to_string(), None));
    assert_eq!(rate(&events), 0.75);
}

#[test]
fn test_all_successes_rate_is_one() {
    let mut events = Events::new();
    events.append(Event::succeeded(Instant::now(), "a".to_string(), None));
    assert_eq!(events.success_rate(), SuccessRate::Fraction { successes: 1, attempts: 1 });
    assert_eq!(rate(&events), 1.0);
}

#[test]
fn test_statistics_skip_failures_and_successes_without_statistics() {
    let mut events = Events::new();
    events.append(Event::succeeded(Instant::now(), "a".to_string(), None));
    events.append(Event::succeeded(
        Instant::now(),
        "b".to_string(),
        Some(statistics("1", "1", "1", "0")),
    ));
    events.append(Event::failed(Instant::now(), "c".to_string()));
    events.append(Event::succeeded(Instant::now(), "d".to_string(), None));
    events.append(Event::succeeded(
        Instant::now(),
        "e".to_string(),
        Some(statistics("2", "2", "2", "0")),
    ));
    events.append(Event::succeeded(
        Instant::now(),
        "f".to_string(),
        Some(statistics("3", "3", "3", "0")),
    ));
    let found = events.success_round_trip_statistics();
    let order: Vec<String> = found.iter().map(|one| one.min.to_text()).collect();
    assert_eq!(order, ["1", "2", "3"]);
    assert_eq!(events.success_count(), 5);
    assert_eq!(events.failure_count(), 1);
}

#[test]
fn test_statistics_of_a_failure_are_left_out() {
    let mut events = Events::new();
    events.vec.push(Event {
        timestamp: Instant::now(),
        host: "a".to_string(),
        success: false,
        round_trip_statistics: Some(statistics("1", "1", "1", "0")),
    });
    assert!(events.success_round_trip_statistics().is_empty());
    assert_eq!(events.failure_count(), 1);
}

#[test]
fn test_statistics_that_are_not_numbers_are_kept() {
    let mut events = Events::new();
    events.append(Event::succeeded(
        Instant::now(),
        "a".to_string(),
        Some(statistics("1.2.3", "1", "1", "0")),
    ));
    let found = events.success_round_trip_statistics();
    assert_eq!(found.len(), 1);
    assert!(!found[0].min.is_number());
    assert_eq!(found[0].average.to_text(), "1");
}

#[test]
fn test_event_constructors() {
    let now = Instant::now();
    let event = Event::succeeded(now, "localhost".to_string(), None);
    assert!(event.success);
    assert_eq!(event.host, "localhost");
    assert_eq!(event.timestamp, now);
    assert!(event.round_trip_statistics.is_none());
    let event = Event::failed(now, "localhost".to_string());
    assert!(!event.success);
    assert_eq!(event.host, "localhost");
    assert!(event.round_trip_statistics.is_none());
}

#[test]
fn test_events_clone() {
    let mut events = Events::new();
    events.append(Event::succeeded(
        Instant::now(),
        "a".to_string(),
        Some(statistics("1", "2", "3", "4")),
    ));
    let copy = events.clone();
    events.append(Event::failed(Instant::now(), "b".to_string()));
    assert_eq!(copy.attempt_count(), 1);
    assert_eq!(events.attempt_count(), 2);
    assert_eq!(copy.success_round_trip_statistics()[0].max.to_text(), "3");
}
