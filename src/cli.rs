//! The settings of one run: where the repository is, how the output is
//! rendered, which commits are considered, and the date bounds given as
//! `YYYY-MM-DD`.
use vstd::prelude::*;

use crate::filter::CommitTime;
use vstd::string::StringSliceAdditionalSpecFns;

verus! {

/// How results are rendered.
#[derive(Clone, Copy, Debug, PartialEq, Eq, PartialOrd, Ord, Structural)]
pub enum OutputFormat {
    /// Comma-separated values with a header row.
    Csv,
    /// A pretty-printed JSON document.
    Json,
    /// A single HTML page that draws the JSON document with D3.
    D3Graphics,
}

impl OutputFormat {
    /// Every format, in the order they are offered.
    pub fn value_variants() -> (r: Vec<OutputFormat>)
        ensures
            r@ == seq![OutputFormat::Csv, OutputFormat::Json, OutputFormat::D3Graphics],
    {
        let r = vec![OutputFormat::Csv, OutputFormat::Json, OutputFormat::D3Graphics];
        assert(r@ =~= seq![OutputFormat::Csv, OutputFormat::Json, OutputFormat::D3Graphics]);
        r
    }

    /// The name under which the format is chosen.
    pub fn name(&self) -> (r: &'static str)
        ensures
            r@ == (match *self {
                OutputFormat::Csv => "csv"@,
                OutputFormat::Json => "json"@,
                OutputFormat::D3Graphics => "D3html"@,
            }),
    {
        match self {
            OutputFormat::Csv => "csv",
            OutputFormat::Json => "json",
            OutputFormat::D3Graphics => "D3html",
        }
    }

    /// A one-line description of the format.
    pub fn help(&self) -> (r: &'static str)
        ensures
            r@ == (match *self {
                OutputFormat::Csv => "Character separated value, ',' is delimiter, 1st line is item name"@,
                OutputFormat::Json => "JSON pretty printed output"@,
                OutputFormat::D3Graphics => "Render to D3 graphics as single html page"@,
            }),
    {
        match self {
            OutputFormat::Csv => "Character separated value, ',' is delimiter, 1st line is item name",
            OutputFormat::Json => "JSON pretty printed output",
            OutputFormat::D3Graphics => "Render to D3 graphics as single html page",
        }
    }
}

/// Settings shared by every command.
#[derive(Clone, Debug)]
pub struct CommonArgs {
    /// The directory of the repository's working tree.
    pub project_dir: String,
    pub format: OutputFormat,
    /// Where the output goes; standard output when absent.
    pub output: Option<String>,
}

impl CommonArgs {
    /// Settings for the repository at `project_dir`, rendered as CSV on
    /// standard output.
    pub fn new(project_dir: String) -> (r: CommonArgs)
        ensures
            r.project_dir@ == project_dir@,
            r.format == OutputFormat::Csv,
            r.output is None,
    {
        CommonArgs { project_dir, format: OutputFormat::Csv, output: None }
    }
}

/// Which commits a history command considers.
#[derive(Clone, Debug)]
pub struct GitArgs {
    /// Keep only commits strictly later than this.
    pub after: Option<CommitTime>,
    /// Keep only commits strictly earlier than this.
    pub before: Option<CommitTime>,
    /// Revision specifiers; the current head when empty.
    pub commit: Vec<String>,
    /// Keep only commits whose message holds this text.
    pub commit_msg_grep: Option<String>,
}

impl GitArgs {
    /// Every commit reachable from the current head.
    pub fn new() -> (r: GitArgs)
        ensures
            r.after is None,
            r.before is None,
            r.commit@.len() == 0,
            r.commit_msg_grep is None,
    {
        GitArgs { after: None, before: None, commit: Vec::new(), commit_msg_grep: None }
    }
}

/// Why a date bound was refused.
#[derive(Clone, Copy, Debug, PartialEq, Eq, Structural)]
pub enum DateError {
    /// The text is not four digits, `-`, two digits, `-`, two digits.
    Malformed,
    /// The digits name no day of the calendar.
    NoSuchDate,
}

pub open spec fn is_digit(b: u8) -> bool {
    0x30 <= b <= 0x39
}

pub open spec fn digit_value(b: u8) -> int {
    b - 0x30
}

/// The fields of a `YYYY-MM-DD` text, as bytes; `None` for any other text.
pub open spec fn iso_date_fields(s: Seq<u8>) -> Option<(int, int, int)> {
    if s.len() == 10 && is_digit(s[0]) && is_digit(s[1]) && is_digit(s[2]) && is_digit(s[3])
        && s[4] == 0x2d && is_digit(s[5]) && is_digit(s[6]) && s[7] == 0x2d && is_digit(s[8])
        && is_digit(s[9]) {
        Some(
            (
                digit_value(s[0]) * 1000 + digit_value(s[1]) * 100 + digit_value(s[2]) * 10
                    + digit_value(s[3]),
                digit_value(s[5]) * 10 + digit_value(s[6]),
                digit_value(s[8]) * 10 + digit_value(s[9]),
            ),
        )
    } else {
        None
    }
}

pub open spec fn is_leap_year(y: int) -> bool {
    y % 4 == 0 && (y % 100 != 0 || y % 400 == 0)
}

pub open spec fn days_in_month(y: int, m: int) -> int {
    if m == 2 {
        if is_leap_year(y) {
            29
        } else {
            28
        }
    } else if m == 4 || m == 6 || m == 9 || m == 11 {
        30
    } else {
        31
    }
}

/// A day of the calendar in the years that dates may take.
pub open spec fn valid_date(y: int, m: int, d: int) -> bool {
    -9999 <= y <= 9999 && 1 <= m <= 12 && 1 <= d <= days_in_month(y, m)
}

/// The number of days from 1970-01-01 to the given day of the proleptic
/// Gregorian calendar.
pub open spec fn days_from_civil(y: int, m: int, d: int) -> int {
    let yy = if m <= 2 {
        y - 1
    } else {
        y
    };
    let era = yy / 400;
    let yoe = yy - era * 400;
    let mp = (m + 9) % 12;
    let doy = (153 * mp + 2) / 5 + d - 1;
    let doe = yoe * 365 + yoe / 4 - yoe / 100 + doy;
    era * 146097 + doe - 719468
}

/// Relies on `time::Month::try_from`, `time::Date::from_calendar_date`,
/// `Date::midnight`, `assume_utc` and `unix_timestamp`: a day of the
/// calendar in the supported years gives the Unix time of its midnight in
/// UTC, anything else no value.
#[verifier::external_body]
fn utc_midnight_timestamp(year: i32, month: u8, day: u8) -> (r: Option<i64>)
    ensures
        r == (if valid_date(year as int, month as int, day as int) {
            Some((days_from_civil(year as int, month as int, day as int) * 86400) as i64)
        } else {
            None
        }),
{
    let month = time::Month::try_from(month).ok()?;
    let date = time::Date::from_calendar_date(year, month, day).ok()?;
    Some(date.midnight().assume_utc().unix_timestamp())
}

/// The start of the given `YYYY-MM-DD` day in UTC, as a commit time with
/// offset zero.
pub fn parse_iso_date_and_convert_to_git_time(arg: &str) -> (r: Result<CommitTime, DateError>)
    ensures
        r == (match iso_date_fields(arg.spec_bytes()) {
            None => Err(DateError::Malformed),
            Some((y, m, d)) => if valid_date(y, m, d) {
                Ok(CommitTime { seconds: (days_from_civil(y, m, d) * 86400) as i64, offset_minutes: 0 })
            } else {
                Err(DateError::NoSuchDate)
            },
        }),
{
    let s = arg.as_bytes();
    if s.len() != 10 {
        return Err(DateError::Malformed);
    }
    let mut i: usize = 0;
    while i < 10
        invariant
            s@ == arg.spec_bytes(),
            s@.len() == 10,
            i <= 10,
            forall|k: int| 0 <= k < i && k != 4 && k != 7 ==> is_digit(#[trigger] s@[k]),
        decreases 10 - i,
    {
        if i != 4 && i != 7 && !(0x30 <= s[i] && s[i] <= 0x39) {
            return Err(DateError::Malformed);
        }
        i = i + 1;
    }
    if s[4] != 0x2d || s[7] != 0x2d {
        return Err(DateError::Malformed);
    }
    let year: i32 = (s[0] - 0x30) as i32 * 1000 + (s[1] - 0x30) as i32 * 100 + (s[2] - 0x30) as i32
        * 10 + (s[3] - 0x30) as i32;
    let month: u8 = (s[5] - 0x30) * 10 + (s[6] - 0x30);
    let day: u8 = (s[8] - 0x30) * 10 + (s[9] - 0x30);
    match utc_midnight_timestamp(year, month, day) {
        Some(seconds) => Ok(CommitTime { seconds, offset_minutes: 0 }),
        None => Err(DateError::NoSuchDate),
    }
}

} // verus!
