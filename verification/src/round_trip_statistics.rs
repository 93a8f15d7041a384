//! The round-trip statistics that one probe reports, and the reading of the
//! summary line that holds them.

use vstd::prelude::*;
use vstd::string::StringExecFns;
use crate::decimal::{
    is_decimal, lemma_rounded_is_near, lemma_text_reads_back, measurement_of, measurement_text,
    Quantity,
};
use crate::measurement::Measurement;
use crate::pattern::{captures, regex_accepts, regex_captures};

verus! {

/// The summary line of a probe, as a regular expression: at the start of a
/// line, four numbers in the order minimum, average, maximum, standard
/// deviation. A number is one or more digits, and may go on with a point and
/// one or more digits. The four are the capture groups 1 to 4.
pub const SUMMARY_PATTERN: &'static str =
    r"(?ms)^round-trip min/avg/max/stddev = (?<min>\d+(?:\.\d+)?)/(?<average>\d+(?:\.\d+)?)/(?<max>\d+(?:\.\d+)?)/(?<standard_deviation>\d+(?:\.\d+)?) ms";

/// The round-trip times of one probe, all in the same unit.
///
/// No order among the four is enforced: they are what the probe reported.
#[derive(Debug)]
pub struct RoundTripStatistics {
    pub min: Measurement,
    pub max: Measurement,
    pub average: Measurement,
    pub standard_deviation: Measurement,
}

/// The values of a `RoundTripStatistics`; `None` stands for not a number.
pub struct Latencies {
    pub min: Option<Quantity>,
    pub max: Option<Quantity>,
    pub average: Option<Quantity>,
    pub standard_deviation: Option<Quantity>,
}

impl View for RoundTripStatistics {
    type V = Latencies;

    open spec fn view(&self) -> Latencies {
        Latencies {
            min: self.min@,
            max: self.max@,
            average: self.average@,
            standard_deviation: self.standard_deviation@,
        }
    }
}

impl Clone for RoundTripStatistics {
    fn clone(&self) -> (copy: Self)
        ensures
            copy@ == self@,
    {
        RoundTripStatistics {
            min: self.min.clone(),
            max: self.max.clone(),
            average: self.average.clone(),
            standard_deviation: self.standard_deviation.clone(),
        }
    }
}

/// The text held no summary line.
#[derive(Debug, PartialEq, Eq, Structural)]
pub struct ParseError;

/// The measurement in capture group `index`: what its text measures, and not
/// a number where the group is missing or took no part in the match.
pub open spec fn group_measurement(groups: Seq<Option<Seq<char>>>, index: int) -> Option<Quantity> {
    if 0 <= index < groups.len() {
        match groups[index] {
            Some(text) => measurement_of(text),
            None => None,
        }
    } else {
        None
    }
}

/// The statistics in the capture groups of a summary line: the first number
/// is the minimum, the second the average, the third the maximum and the
/// fourth the standard deviation.
pub open spec fn statistics_of(groups: Seq<Option<Seq<char>>>) -> Latencies {
    Latencies {
        min: group_measurement(groups, 1),
        average: group_measurement(groups, 2),
        max: group_measurement(groups, 3),
        standard_deviation: group_measurement(groups, 4),
    }
}

/// What a search for the summary line comes to: the statistics of the line
/// that was found, and a parse error where none was.
pub open spec fn outcome_of(found: Option<Seq<Option<Seq<char>>>>) -> Result<
    Latencies,
    ParseError,
> {
    match found {
        Some(groups) => Ok(statistics_of(groups)),
        None => Err(ParseError),
    }
}

/// The values of a parse result.
pub open spec fn outcome_view(parsed: Result<RoundTripStatistics, ParseError>) -> Result<
    Latencies,
    ParseError,
> {
    match parsed {
        Ok(statistics) => Ok(statistics@),
        Err(error) => Err(error),
    }
}

/// The text of a record of statistics, with three decimal places each.
pub open spec fn statistics_text(statistics: Latencies) -> Seq<char> {
    "min: "@ + measurement_text(statistics.min) + "\nmax: "@ + measurement_text(statistics.max)
        + "\naverage: "@ + measurement_text(statistics.average) + "\nstandard deviation: "@
        + measurement_text(statistics.standard_deviation)
}

/// Read the measurement in capture group `index`.
fn read_group(groups: &Vec<Option<String>>, index: usize) -> (measurement: Measurement)
    ensures
        measurement@ == group_measurement(groups.deep_view(), index as int),
{
    if index < groups.len() {
        match &groups[index] {
            Some(text) => Measurement::from_text(text.as_str()),
            None => Measurement::NotANumber,
        }
    } else {
        Measurement::NotANumber
    }
}

impl RoundTripStatistics {
    /// Turn the capture groups of a search for the summary line into statistics.
    ///
    /// A search that found nothing is a parse error. Of a line that was
    /// found, each captured text that is not a decimal number gives a
    /// measurement that is not a number; the result is still `Ok`.
    pub fn from_captures(found: &Option<Vec<Option<String>>>) -> (parsed: Result<
        RoundTripStatistics,
        ParseError,
    >)
        ensures
            outcome_view(parsed) == outcome_of(found.deep_view()),
    {
        match found {
            Some(groups) => Ok(
                RoundTripStatistics {
                    min: read_group(groups, 1),
                    average: read_group(groups, 2),
                    max: read_group(groups, 3),
                    standard_deviation: read_group(groups, 4),
                },
            ),
            None => Err(ParseError),
        }
    }

    /// Turn the answer of a search for the summary line into statistics.
    ///
    /// A search that could not be made, because the pattern was refused, is
    /// a parse error. One that was made is read as `from_captures` says.
    pub fn from_search(
        found: &Result<Option<Vec<Option<String>>>, regex::Error>,
    ) -> (parsed: Result<RoundTripStatistics, ParseError>)
        ensures
            outcome_view(parsed) == match found {
                Ok(captured) => outcome_of(captured.deep_view()),
                Err(_) => Err(ParseError),
            },
    {
        match found {
            Ok(captured) => Self::from_captures(captured),
            Err(_) => Err(ParseError),
        }
    }

    /// Find the summary line in the output of a probe and read its statistics.
    ///
    /// The line may stand anywhere in `text`, at the start of a line. Where
    /// the search finds one, the result is `Ok` with the statistics of the
    /// first; where it finds none, the result is a parse error, never a
    /// record of zeros. The answer of the search is turned into statistics as
    /// `from_search` says: only if the `regex` crate refused the pattern
    /// would a text with a summary line give a parse error.
    pub fn parse(text: &str) -> (parsed: Result<RoundTripStatistics, ParseError>)
        ensures
            regex_accepts(SUMMARY_PATTERN@) ==> outcome_view(parsed) == outcome_of(
                regex_captures(SUMMARY_PATTERN@, text@),
            ),
            parsed is Ok ==> outcome_view(parsed) == outcome_of(
                regex_captures(SUMMARY_PATTERN@, text@),
            ),
            regex_captures(SUMMARY_PATTERN@, text@) is None ==> parsed is Err,
    {
        Self::from_search(&captures(SUMMARY_PATTERN, text))
    }

    /// The record as text, one line for each value, each with three decimal
    /// places.
    pub fn to_string(&self) -> (text: String)
        ensures
            text@ == statistics_text(self@),
    {
        let mut text = String::new();
        text.append("min: ");
        text.append(self.min.to_rounded_text().as_str());
        text.append("\nmax: ");
        text.append(self.max.to_rounded_text().as_str());
        text.append("\naverage: ");
        text.append(self.average.to_rounded_text().as_str());
        text.append("\nstandard deviation: ");
        text.append(self.standard_deviation.to_rounded_text().as_str());
        text
    }
}

impl Latencies {
    /// Each value rounded to three decimal places.
    pub open spec fn rounded(self) -> Latencies {
        Latencies {
            min: rounded_measurement(self.min),
            max: rounded_measurement(self.max),
            average: rounded_measurement(self.average),
            standard_deviation: rounded_measurement(self.standard_deviation),
        }
    }

    /// All four values are numbers.
    pub open spec fn all_numbers(self) -> bool {
        &&& self.min is Some
        &&& self.max is Some
        &&& self.average is Some
        &&& self.standard_deviation is Some
    }

    /// All values are numbers, in both records, and each value of `other`
    /// lies within half a thousandth of the same value of `self`.
    pub open spec fn near(self, other: Latencies) -> bool {
        &&& self.all_numbers()
        &&& other.all_numbers()
        &&& self.min->0.within_half_thousandth(other.min->0)
        &&& self.max->0.within_half_thousandth(other.max->0)
        &&& self.average->0.within_half_thousandth(other.average->0)
        &&& self.standard_deviation->0.within_half_thousandth(other.standard_deviation->0)
    }
}

/// A measurement rounded to three decimal places; what is not a number stays so.
pub open spec fn rounded_measurement(measurement: Option<Quantity>) -> Option<Quantity> {
    match measurement {
        Some(quantity) => Some(quantity.rounded()),
        None => None,
    }
}

/// The capture groups of a summary line: the whole line, and the four
/// numbers in the order in which the line holds them.
pub open spec fn summary_groups(
    whole: Seq<char>,
    first: Seq<char>,
    second: Seq<char>,
    third: Seq<char>,
    fourth: Seq<char>,
) -> Seq<Option<Seq<char>>> {
    seq![Some(whole), Some(first), Some(second), Some(third), Some(fourth)]
}

/// The four numbers of a summary line go to the fields by their place in
/// the line: the first is the minimum, the second the average, the third the
/// maximum, the fourth the standard deviation. Each field holds what its text
/// measures.
pub proof fn lemma_fields_by_place(
    whole: Seq<char>,
    first: Seq<char>,
    second: Seq<char>,
    third: Seq<char>,
    fourth: Seq<char>,
)
    ensures
        outcome_of(Some(summary_groups(whole, first, second, third, fourth))) == Ok::<
            Latencies,
            ParseError,
        >(
            Latencies {
                min: measurement_of(first),
                average: measurement_of(second),
                max: measurement_of(third),
                standard_deviation: measurement_of(fourth),
            },
        ),
{
}

/// A captured text that is no decimal number makes its field not a number,
/// and leaves the result `Ok`.
pub proof fn lemma_unreadable_capture(groups: Seq<Option<Seq<char>>>, index: int)
    requires
        0 <= index < groups.len(),
        groups[index] matches Some(text) ==> !is_decimal(text),
    ensures
        outcome_of(Some(groups)) is Ok,
        group_measurement(groups, index) is None,
{
}

/// Writing a record of numbers with three decimal places and reading the
/// written numbers back, as the capture groups of a summary line, gives the
/// record rounded to three decimal places: each value within half a
/// thousandth of the one that was written.
pub proof fn lemma_written_numbers_read_back(statistics: Latencies, whole: Seq<char>)
    requires
        statistics.all_numbers(),
    ensures
        outcome_of(
            Some(
                summary_groups(
                    whole,
                    measurement_text(statistics.min),
                    measurement_text(statistics.average),
                    measurement_text(statistics.max),
                    measurement_text(statistics.standard_deviation),
                ),
            ),
        ) == Ok::<Latencies, ParseError>(statistics.rounded()),
        statistics.near(statistics.rounded()),
{
    lemma_text_reads_back(statistics.min->0.rounded());
    lemma_text_reads_back(statistics.max->0.rounded());
    lemma_text_reads_back(statistics.average->0.rounded());
    lemma_text_reads_back(statistics.standard_deviation->0.rounded());
    lemma_rounded_is_near(statistics.min->0);
    lemma_rounded_is_near(statistics.max->0);
    lemma_rounded_is_near(statistics.average->0);
    lemma_rounded_is_near(statistics.standard_deviation->0);
}

impl std::str::FromStr for RoundTripStatistics {
    type Err = ParseError;

    /// The same as `RoundTripStatistics::parse`.
    fn from_str(text: &str) -> (parsed: Result<Self, Self::Err>)
        ensures
            regex_accepts(SUMMARY_PATTERN@) ==> outcome_view(parsed) == outcome_of(
                regex_captures(SUMMARY_PATTERN@, text@),
            ),
            parsed is Ok ==> outcome_view(parsed) == outcome_of(
                regex_captures(SUMMARY_PATTERN@, text@),
            ),
            regex_captures(SUMMARY_PATTERN@, text@) is None ==> parsed is Err,
    {
        RoundTripStatistics::parse(text)
    }
}

} // verus!
