use ping_command::measurement::Measurement;
use ping_command::round_trip_statistics::{ParseError, RoundTripStatistics, SUMMARY_PATTERN};
use std::str::FromStr;

fn measurement(value: f64) -> Measurement {
    Measurement::from_text(&format!("{}", value))
}

fn value(measurement: &Measurement) -> f64 {
    measurement.to_text().parse::<f64>().unwrap_or(f64::NAN)
}

fn groups(texts: &[&str]) -> Option<Vec<Option<String>>> {
    Some(texts.iter().map(|text| Some(text.to_string())).collect())
}

#[test]
fn test_display() {
    let x = RoundTripStatistics {
        min: measurement(12.445),
        max: measurement(61.365),
        average: measurement(26.791),
        standard_deviation: measurement(20.049),
    };
    let actual = x.to_string();
    let expect = "min: 12.445\nmax: 61.365\naverage: 26.791\nstandard deviation: 20.049";
    assert_eq!(actual, expect);
}

#[test]
fn test_present() {
    let str = "round-trip min/avg/max/stddev = 12.445/26.791/61.365/20.049 ms";
    let result = RoundTripStatistics::from_str(&str);
    assert!(result.is_ok());
    let x = result.unwrap();
    assert_eq!(value(&x.min), 12.445);
    assert_eq!(value(&x.max), 61.365);
    assert_eq!(value(&x.average), 26.791);
    assert_eq!(value(&x.standard_deviation), 20.049);
}

#[test]
fn test_absent() {
    let str = "hello world";
    let result = RoundTripStatistics::from_str(&str);
    assert!(result.is_err());
}

#[test]
fn test_absent_is_the_parse_error() {
    assert_eq!(RoundTripStatistics::parse("hello world").unwrap_err(), ParseError);
    assert_eq!(RoundTripStatistics::parse("").unwrap_err(), ParseError);
}

#[test]
fn test_average_is_the_second_number() {
    let x = RoundTripStatistics::parse("round-trip min/avg/max/stddev = 1/2/3/4 ms").unwrap();
    assert_eq!(x.min.to_text(), "1");
    assert_eq!(x.average.to_text(), "2");
    assert_eq!(x.max.to_text(), "3");
    assert_eq!(x.standard_deviation.to_text(), "4");
}

#[test]
fn test_line_anywhere_in_the_output() {
    let output = "PING localhost (127.0.0.1): 56 data bytes\n\
                  64 bytes from 127.0.0.1: icmp_seq=0 ttl=64 time=0.047 ms\n\
                  \n\
                  --- localhost ping statistics ---\n\
                  1 packets transmitted, 1 packets received, 0.0% packet loss\n\
                  round-trip min/avg/max/stddev = 0.047/0.048/0.049/0.001 ms\n";
    let x = RoundTripStatistics::parse(output).unwrap();
    assert_eq!(value(&x.min), 0.047);
    assert_eq!(value(&x.average), 0.048);
    assert_eq!(value(&x.max), 0.049);
    assert_eq!(value(&x.standard_deviation), 0.001);
}

#[test]
fn test_line_must_start_a_line() {
    let text = "see: round-trip min/avg/max/stddev = 1/2/3/4 ms";
    assert!(RoundTripStatistics::parse(text).is_err());
    let text = "see:\nround-trip min/avg/max/stddev = 1/2/3/4 ms and more";
    assert!(RoundTripStatistics::parse(text).is_ok());
}

#[test]
fn test_line_is_case_sensitive() {
    assert!(RoundTripStatistics::parse("Round-Trip min/avg/max/stddev = 1/2/3/4 ms").is_err());
    assert!(RoundTripStatistics::parse("round-trip min/avg/max/stddev = 1/2/3/4 MS").is_err());
}

#[test]
fn test_line_needs_four_numbers() {
    assert!(RoundTripStatistics::parse("round-trip min/avg/max/stddev = 1/2/3 ms").is_err());
    assert!(RoundTripStatistics::parse("round-trip min/avg/max/stddev = 1/2//4 ms").is_err());
    assert!(RoundTripStatistics::parse("round-trip min/avg/max/stddev = -1/2/3/4 ms").is_err());
}

#[test]
fn test_first_line_wins() {
    let text = "round-trip min/avg/max/stddev = 1/2/3/4 ms\n\
                round-trip min/avg/max/stddev = 5/6/7/8 ms\n";
    let x = RoundTripStatistics::parse(text).unwrap();
    assert_eq!(x.min.to_text(), "1");
    assert_eq!(x.standard_deviation.to_text(), "4");
}

#[test]
fn test_number_with_two_points_is_no_summary_line() {
    let s = "round-trip min/avg/max/stddev = 1.2.3/2/3/4 ms";
    assert_eq!(RoundTripStatistics::from_str(s).unwrap_err(), ParseError);
    assert_eq!(RoundTripStatistics::parse(s).unwrap_err(), ParseError);
    let s = "round-trip min/avg/max/stddev = 1/2/3/4.5.6 ms";
    assert_eq!(RoundTripStatistics::parse(s).unwrap_err(), ParseError);
}

#[test]
fn test_number_needs_digits_on_both_sides_of_the_point() {
    for number in [".", "..", "3.", ".4", "1..2"] {
        let line = format!("round-trip min/avg/max/stddev = {}/2/3/4 ms", number);
        assert!(RoundTripStatistics::parse(&line).is_err(), "{}", line);
        let line = format!("round-trip min/avg/max/stddev = 1/2/{}/4 ms", number);
        assert!(RoundTripStatistics::parse(&line).is_err(), "{}", line);
        let line = format!("round-trip min/avg/max/stddev = 1/2/3/{} ms", number);
        assert!(RoundTripStatistics::parse(&line).is_err(), "{}", line);
    }
}

#[test]
fn test_number_with_one_point_is_read() {
    let x = RoundTripStatistics::parse("round-trip min/avg/max/stddev = 0.5/10/007.250/3.0 ms")
        .unwrap();
    assert_eq!(value(&x.min), 0.5);
    assert_eq!(value(&x.average), 10.0);
    assert_eq!(value(&x.max), 7.25);
    assert_eq!(value(&x.standard_deviation), 3.0);
    assert_eq!(x.max.to_text(), "7.250");
}

#[test]
fn test_unreadable_number_is_not_a_number() {
    let found = groups(&["whole", "1.2.3", "2", "..", "4."]);
    let x = RoundTripStatistics::from_captures(&found).unwrap();
    assert!(!x.min.is_number());
    assert!(value(&x.min).is_nan());
    assert_eq!(value(&x.average), 2.0);
    assert!(!x.max.is_number());
    assert_eq!(value(&x.standard_deviation), 4.0);
}

#[test]
fn test_digits_of_other_scripts_are_not_a_number() {
    let text = "round-trip min/avg/max/stddev = \u{0663}/2/3.\u{ff11}/4 ms";
    let x = RoundTripStatistics::parse(text).unwrap();
    assert!(!x.min.is_number());
    assert!(value(&x.min).is_nan());
    assert_eq!(x.average.to_text(), "2");
    assert!(!x.max.is_number());
    assert_eq!(x.standard_deviation.to_text(), "4");
}

#[test]
fn test_same_text_same_result() {
    let text = "x\nround-trip min/avg/max/stddev = 1.5/\u{0663}/3/4 ms\n";
    let x = RoundTripStatistics::parse(text).unwrap();
    let y = RoundTripStatistics::from_str(text).unwrap();
    assert_eq!(x.to_string(), y.to_string());
    assert_eq!(x.to_string(), "min: 1.500\nmax: 3.000\naverage: NaN\nstandard deviation: 4.000");
    assert!(RoundTripStatistics::parse("x").is_err());
    assert!(RoundTripStatistics::parse("x").is_err());
}

#[test]
fn test_from_search_refused_pattern_is_an_error() {
    let refused = regex::Regex::new("(").unwrap_err();
    assert_eq!(RoundTripStatistics::from_search(&Err(refused)).unwrap_err(), ParseError);
}

#[test]
fn test_from_search_reads_what_was_found() {
    assert_eq!(RoundTripStatistics::from_search(&Ok(None)).unwrap_err(), ParseError);
    let found = groups(&["whole", "1", "2", "3", "4"]);
    let x = RoundTripStatistics::from_search(&Ok(found)).unwrap();
    assert_eq!(x.min.to_text(), "1");
    assert_eq!(x.average.to_text(), "2");
    assert_eq!(x.max.to_text(), "3");
    assert_eq!(x.standard_deviation.to_text(), "4");
}

#[test]
fn test_from_str_is_parse() {
    let line = "round-trip min/avg/max/stddev = 0.5/1.25/2/0.75 ms";
    let x = RoundTripStatistics::from_str(line).unwrap();
    let y = RoundTripStatistics::parse(line).unwrap();
    assert_eq!(x.to_string(), y.to_string());
    assert_eq!(x.average.to_text(), "1.25");
    assert_eq!(RoundTripStatistics::from_str("no summary").unwrap_err(), ParseError);
}

#[test]
fn test_from_captures_none_is_an_error() {
    assert_eq!(RoundTripStatistics::from_captures(&None).unwrap_err(), ParseError);
}

#[test]
fn test_from_captures_maps_by_place() {
    let found = groups(&["whole", "12.445", "26.791", "61.365", "20.049"]);
    let x = RoundTripStatistics::from_captures(&found).unwrap();
    assert_eq!(value(&x.min), 12.445);
    assert_eq!(value(&x.average), 26.791);
    assert_eq!(value(&x.max), 61.365);
    assert_eq!(value(&x.standard_deviation), 20.049);
}

#[test]
fn test_from_captures_missing_groups() {
    let found = Some(vec![Some("whole".to_string()), Some("1".to_string()), None]);
    let x = RoundTripStatistics::from_captures(&found).unwrap();
    assert_eq!(x.min.to_text(), "1");
    assert!(!x.average.is_number());
    assert!(!x.max.is_number());
    assert!(!x.standard_deviation.is_number());
}

#[test]
fn test_from_captures_reads_decimals_only() {
    let found = groups(&["whole", "1e3", "-2", "inf", " 4"]);
    let x = RoundTripStatistics::from_captures(&found).unwrap();
    assert!(!x.min.is_number());
    assert!(!x.average.is_number());
    assert!(!x.max.is_number());
    assert!(!x.standard_deviation.is_number());
}

#[test]
fn test_to_string_rounds_to_three_places() {
    let x = RoundTripStatistics {
        min: Measurement::from_text("0.0004"),
        max: Measurement::from_text("9.9996"),
        average: Measurement::from_text("5"),
        standard_deviation: Measurement::NotANumber,
    };
    let expect = "min: 0.000\nmax: 10.000\naverage: 5.000\nstandard deviation: NaN";
    assert_eq!(x.to_string(), expect);
}

#[test]
fn test_written_numbers_read_back() {
    let line = "round-trip min/avg/max/stddev = 12.4454/26.7915/61.36/20 ms";
    let x = RoundTripStatistics::parse(line).unwrap();
    let line = format!(
        "round-trip min/avg/max/stddev = {}/{}/{}/{} ms",
        x.min.to_rounded_text(),
        x.average.to_rounded_text(),
        x.max.to_rounded_text(),
        x.standard_deviation.to_rounded_text(),
    );
    assert_eq!(line, "round-trip min/avg/max/stddev = 12.445/26.792/61.360/20.000 ms");
    let y = RoundTripStatistics::parse(&line).unwrap();
    let tolerance = 0.0005 + 1e-9;
    assert!((value(&y.min) - value(&x.min)).abs() <= tolerance);
    assert!((value(&y.average) - value(&x.average)).abs() <= tolerance);
    assert!((value(&y.max) - value(&x.max)).abs() <= tolerance);
    assert!((value(&y.standard_deviation) - value(&x.standard_deviation)).abs() <= tolerance);
    assert_eq!(y.to_string(), x.to_string());
}

#[test]
fn test_clone_keeps_the_values() {
    let x = RoundTripStatistics::parse("round-trip min/avg/max/stddev = 1.5/2/x3/4 ms");
    assert!(x.is_err());
    let x = RoundTripStatistics::parse("round-trip min/avg/max/stddev = 1.5/2/3.0/0.4 ms").unwrap();
    let y = x.clone();
    assert_eq!(y.min.to_text(), "1.5");
    assert_eq!(y.average.to_text(), "2");
    assert_eq!(y.max.to_text(), "3.0");
    assert_eq!(y.standard_deviation.to_text(), "0.4");
}

#[test]
fn test_pattern_names_its_groups() {
    let found = regex::Regex::new(SUMMARY_PATTERN)
        .unwrap()
        .captures("round-trip min/avg/max/stddev = 1/2/3/4 ms")
        .unwrap();
    assert_eq!(&found["min"], "1");
    assert_eq!(&found["average"], "2");
    assert_eq!(&found["max"], "3");
    assert_eq!(&found["standard_deviation"], "4");
    assert_eq!(found.len(), 5);
}
