//! Files that other systems wrote while a run was taken. They lie below a
//! base directory, by date, as `<year>/<month>/<day>/hhmm_ss.mss.png`, and
//! belong to a run when their name falls between its start and its stop.

use crate::odb::Json;
use crate::text::{decimal, decimal_string};
use regex::Regex;
use vstd::prelude::*;

verus! {

/// `jiff::Timestamp`, an instant that the `jiff` crate accepts.
#[verifier::external_type_specification]
#[verifier::external_body]
pub struct ExInstant(jiff::Timestamp);

/// `jiff::Error`, what `jiff` says of a value that it refuses.
#[verifier::external_type_specification]
#[verifier::external_body]
pub struct ExInstantError(jiff::Error);

/// `jiff::civil::Date`, a day of the calendar.
#[verifier::external_type_specification]
#[verifier::external_body]
pub struct ExDay(jiff::civil::Date);

/// `regex::Regex`, a compiled pattern.
#[verifier::external_type_specification]
#[verifier::external_body]
pub struct ExRegex(Regex);

/// `regex::Error`, what `regex` says of a pattern that it refuses.
#[verifier::external_type_specification]
#[verifier::external_body]
pub struct ExRegexError(regex::Error);

/// The seconds since the Unix epoch at which an instant lies.
pub uninterp spec fn instant_second(instant: jiff::Timestamp) -> i64;

/// The number of a day of the calendar: the days from the day of the Unix
/// epoch to it.
pub uninterp spec fn day_number(day: jiff::civil::Date) -> int;

/// The year, the month and the day of the month of a day of the calendar.
pub uninterp spec fn day_parts(day: jiff::civil::Date) -> (i16, u8, u8);

/// The value of a hexadecimal digit, of either case.
pub open spec fn hex_digit(c: char) -> Option<nat> {
    let code = c as u32;
    if 48 <= code <= 57 {
        Some((code - 48) as nat)
    } else if 97 <= code <= 102 {
        Some((code - 87) as nat)
    } else if 65 <= code <= 70 {
        Some((code - 55) as nat)
    } else {
        None
    }
}

/// The number that hexadecimal digits write, or none where one of them is no
/// such digit.
pub open spec fn hex_number(digits: Seq<char>) -> Option<nat>
    decreases digits.len(),
{
    if digits.len() == 0 {
        Some(0)
    } else {
        match (hex_number(digits.drop_last()), hex_digit(digits.last())) {
            (Some(before), Some(digit)) => Some(16 * before + digit),
            _ => None,
        }
    }
}

/// The number that a text writes in base sixteen: a sign or none, then one
/// hexadecimal digit or more and nothing else. There is none where the text
/// has another form or the number does not fit.
pub open spec fn hexadecimal(text: Seq<char>) -> Option<i64> {
    if text.len() == 0 {
        None
    } else {
        let negative = text[0] == '-';
        let digits = if text[0] == '-' || text[0] == '+' {
            text.skip(1)
        } else {
            text
        };
        if digits.len() == 0 {
            None
        } else {
            match hex_number(digits) {
                Some(number) => if negative {
                    if number <= 0x8000_0000_0000_0000 {
                        Some((-(number as int)) as i64)
                    } else {
                        None
                    }
                } else {
                    if number <= 0x7fff_ffff_ffff_ffff {
                        Some(number as i64)
                    } else {
                        None
                    }
                },
                None => None,
            }
        }
    }
}

/// Whether `Regex::new` accepts a pattern.
pub uninterp spec fn is_pattern(pattern: Seq<char>) -> bool;

/// The pattern that a `Regex` was compiled from.
pub uninterp spec fn pattern_of(regex: Regex) -> Seq<char>;

/// Whether a pattern has a match somewhere in a text.
pub uninterp spec fn pattern_matches(pattern: Seq<char>, text: Seq<char>) -> bool;

/// The first second that `jiff` takes for an instant.
pub const FIRST_SECOND: i64 = -377705023201;

/// The last second that `jiff` takes for an instant.
pub const LAST_SECOND: i64 = 253402207200;

/// `jiff::Timestamp::from_second`: it gives the instant at that second where
/// the second lies between [`FIRST_SECOND`] and [`LAST_SECOND`], and refuses
/// every other second.
#[verifier::external_body]
fn instant_at(second: i64) -> (instant: Result<jiff::Timestamp, jiff::Error>)
    ensures
        match instant {
            Ok(instant) => FIRST_SECOND <= second <= LAST_SECOND && instant_second(instant)
                == second,
            Err(_) => !(FIRST_SECOND <= second <= LAST_SECOND),
        },
{
    jiff::Timestamp::from_second(second)
}

/// `i64::from_str_radix` in base sixteen: it reads an optional sign followed
/// by digits of either case and nothing else, and refuses a text without
/// digits and a number that does not fit.
#[verifier::external_body]
fn parse_hexadecimal(text: &str) -> (number: Option<i64>)
    ensures
        number == hexadecimal(text@),
{
    i64::from_str_radix(text, 16).ok()
}

/// `<` on `jiff::civil::Date`: the days are ordered as they follow one another
/// in the calendar.
#[verifier::external_body]
fn is_earlier(a: jiff::civil::Date, b: jiff::civil::Date) -> (earlier: bool)
    ensures
        earlier == (day_number(a) < day_number(b)),
{
    a < b
}

/// `jiff::civil::Date::tomorrow`: the day that follows, which only the last
/// day of the calendar lacks.
#[verifier::external_body]
fn day_after(day: jiff::civil::Date) -> (next: Result<jiff::civil::Date, jiff::Error>)
    ensures
        match next {
            Ok(next) => day_number(next) == day_number(day) + 1,
            Err(_) => forall|other: jiff::civil::Date| day_number(other) <= day_number(day),
        },
{
    day.tomorrow()
}

/// `jiff::civil::Date::year`, `month` and `day`.
#[verifier::external_body]
fn parts_of(day: jiff::civil::Date) -> (parts: (i16, u8, u8))
    ensures
        parts == day_parts(day),
{
    (day.year(), day.month() as u8, day.day() as u8)
}

/// `Regex::new`: a compiled pattern where the pattern is one.
#[verifier::external_body]
fn compile(pattern: &str) -> (compiled: Result<Regex, regex::Error>)
    ensures
        match compiled {
            Ok(regex) => is_pattern(pattern@) && pattern_of(regex) == pattern@,
            Err(_) => !is_pattern(pattern@),
        },
{
    Regex::new(pattern)
}

/// `Regex::is_match`: whether the pattern that the regex was compiled from
/// has a match somewhere in the text.
#[verifier::external_body]
fn is_match(regex: &Regex, text: &str) -> (found: bool)
    ensures
        found == pattern_matches(pattern_of(*regex), text@),
{
    regex.is_match(text)
}

/// Whether `a` comes before `b` in the order of strings: at the first place
/// where they differ `a` has the character with the smaller code point, or
/// `a` ends there and `b` does not.
pub open spec fn comes_first(a: Seq<char>, b: Seq<char>) -> bool
    decreases a.len(),
{
    if b.len() == 0 {
        false
    } else if a.len() == 0 {
        true
    } else if a[0] != b[0] {
        (a[0] as u32) < (b[0] as u32)
    } else {
        comes_first(a.drop_first(), b.drop_first())
    }
}

/// Whether `a` comes before `b` in the order of strings, which is the order
/// in which the standard library puts them.
pub fn str_lt(a: &str, b: &str) -> (less: bool)
    ensures
        less == comes_first(a@, b@),
{
    broadcast use vstd::string::group_string_axioms;

    let length = a.unicode_len();
    let mut others = b.chars();
    let mut at: usize = 0;
    assert(a@.skip(0) =~= a@ && b@.skip(0) =~= b@);
    for c in chars: a.chars()
        invariant
            at == chars.index(),
            chars.seq() == a@,
            length == a@.len(),
            at <= b@.len(),
            vstd::std_specs::iter::IteratorSpec::remaining(&others) == b@.skip(at as int),
            comes_first(a@, b@) == comes_first(a@.skip(at as int), b@.skip(at as int)),
    {
        let ghost rest_a = a@.skip(at as int);
        let ghost rest_b = b@.skip(at as int);
        assert(rest_a[0] == c);
        let other = others.next();
        match other {
            Some(d) => {
                assert(rest_b[0] == d);
                if c != d {
                    return (c as u32) < (d as u32);
                }
                assert(rest_a.drop_first() =~= a@.skip(at + 1));
                assert(rest_b.drop_first() =~= b@.skip(at + 1));
            },
            None => {
                assert(rest_b.len() == 0);
                return false;
            },
        }
        at += 1;
    }
    let more = others.next();
    assert(a@.skip(at as int).len() == 0);
    more.is_some()
}

/// The order of strings is transitive.
pub proof fn lemma_comes_first_transitive(a: Seq<char>, b: Seq<char>, c: Seq<char>)
    requires
        comes_first(a, b),
        comes_first(b, c),
    ensures
        comes_first(a, c),
    decreases a.len(),
{
    if a.len() > 0 && a[0] == b[0] && b[0] == c[0] {
        lemma_comes_first_transitive(a.drop_first(), b.drop_first(), c.drop_first());
    }
}

/// Of two different strings one comes before the other.
pub proof fn lemma_comes_first_total(a: Seq<char>, b: Seq<char>)
    requires
        a != b,
    ensures
        comes_first(a, b) || comes_first(b, a),
    decreases a.len(),
{
    if a.len() > 0 && b.len() > 0 && a[0] == b[0] {
        assert(a.drop_first() != b.drop_first()) by {
            if a.drop_first() == b.drop_first() {
                assert(a =~= seq![a[0]] + a.drop_first());
                assert(b =~= seq![b[0]] + b.drop_first());
            }
        }
        lemma_comes_first_total(a.drop_first(), b.drop_first());
    } else if a.len() == 0 && b.len() == 0 {
        assert(a =~= b);
    } else if a.len() > 0 && b.len() > 0 {
        lemma_code_points_differ(a[0], b[0]);
    }
}

/// Different characters have different code points.
proof fn lemma_code_points_differ(c: char, d: char)
    requires
        c != d,
    ensures
        c as u32 != d as u32,
{
}

/// No string comes before itself, and of two strings at most one comes before
/// the other.
pub proof fn lemma_comes_first_asymmetric(a: Seq<char>, b: Seq<char>)
    ensures
        !(comes_first(a, b) && comes_first(b, a)),
    decreases a.len(),
{
    if a.len() > 0 && b.len() > 0 && a[0] == b[0] {
        lemma_comes_first_asymmetric(a.drop_first(), b.drop_first());
    }
}

/// Why the time limits of a run could not be read from its final ODB.
#[derive(Clone, Copy, Debug, PartialEq, Eq, Structural)]
pub enum TimeLimitError {
    /// The ODB holds no start time that is a string with the prefix `0x`.
    StartMissing,
    /// What follows the prefix of the start time is no hexadecimal number.
    StartMalformed,
    /// The start time lies outside the instants that can be told.
    StartOutOfRange,
    /// The ODB holds no stop time that is a string with the prefix `0x`.
    StopMissing,
    /// What follows the prefix of the stop time is no hexadecimal number.
    StopMalformed,
    /// The stop time lies outside the instants that can be told.
    StopOutOfRange,
}

/// What can be wrong with one of the two times.
#[derive(Clone, Copy, Debug, PartialEq, Eq, Structural)]
pub enum TimeFault {
    Missing,
    Malformed,
    OutOfRange,
}

impl TimeLimitError {
    /// What the failure says of itself.
    pub open spec fn spec_message(self) -> Seq<char> {
        match self {
            TimeLimitError::StartMissing => "failed to get binary start time"@,
            TimeLimitError::StartMalformed => "failed to parse start time as i64"@,
            TimeLimitError::StartOutOfRange => "failed to create start timestamp"@,
            TimeLimitError::StopMissing => "failed to get binary stop time"@,
            TimeLimitError::StopMalformed => "failed to parse stop time as i64"@,
            TimeLimitError::StopOutOfRange => "failed to create stop timestamp"@,
        }
    }

    /// What the failure says of itself.
    pub fn message(&self) -> (message: String)
        ensures
            message@ == self.spec_message(),
    {
        match self {
            TimeLimitError::StartMissing => String::from_str("failed to get binary start time"),
            TimeLimitError::StartMalformed => String::from_str("failed to parse start time as i64"),
            TimeLimitError::StartOutOfRange => String::from_str("failed to create start timestamp"),
            TimeLimitError::StopMissing => String::from_str("failed to get binary stop time"),
            TimeLimitError::StopMalformed => String::from_str("failed to parse stop time as i64"),
            TimeLimitError::StopOutOfRange => String::from_str("failed to create stop timestamp"),
        }
    }
}

/// The hexadecimal digits of a time of the run: what follows the prefix `0x`
/// in the string that the ODB holds under `name` in its run information.
pub open spec fn binary_digits(odb: Json, name: Seq<char>) -> Option<Seq<char>> {
    match odb.spec_lookup(seq!["Runinfo"@, name]) {
        Some(value) => match value.spec_text() {
            Some(text) => if text.len() >= 2 && text[0] == '0' && text[1] == 'x' {
                Some(text.skip(2))
            } else {
                None
            },
            None => None,
        },
        None => None,
    }
}

/// The second at which a time of the run lies, or what is wrong with it.
pub open spec fn binary_second(odb: Json, name: Seq<char>) -> Result<i64, TimeFault> {
    match binary_digits(odb, name) {
        Some(digits) => match hexadecimal(digits) {
            Some(second) => if FIRST_SECOND <= second <= LAST_SECOND {
                Ok(second)
            } else {
                Err(TimeFault::OutOfRange)
            },
            None => Err(TimeFault::Malformed),
        },
        None => Err(TimeFault::Missing),
    }
}

/// The seconds at which a run started and stopped, or the first thing that is
/// wrong: the start is read before the stop.
pub open spec fn time_limits(odb: Json) -> Result<(i64, i64), TimeLimitError> {
    match binary_second(odb, "Start time binary"@) {
        Ok(start) => match binary_second(odb, "Stop time binary"@) {
            Ok(stop) => Ok((start, stop)),
            Err(TimeFault::Missing) => Err(TimeLimitError::StopMissing),
            Err(TimeFault::Malformed) => Err(TimeLimitError::StopMalformed),
            Err(TimeFault::OutOfRange) => Err(TimeLimitError::StopOutOfRange),
        },
        Err(TimeFault::Missing) => Err(TimeLimitError::StartMissing),
        Err(TimeFault::Malformed) => Err(TimeLimitError::StartMalformed),
        Err(TimeFault::OutOfRange) => Err(TimeLimitError::StartOutOfRange),
    }
}

/// Reads one of the two times of a run from its final ODB.
fn binary_time(odb: &Json, name: &str) -> (instant: Result<jiff::Timestamp, TimeFault>)
    ensures
        match instant {
            Ok(instant) => binary_second(*odb, name@) == Ok::<i64, TimeFault>(
                instant_second(instant),
            ),
            Err(fault) => binary_second(*odb, name@) == Err::<i64, TimeFault>(fault),
        },
{
    let path: [&str; 2] = ["Runinfo", name];
    assert(crate::odb::names_of(path@) =~= seq!["Runinfo"@, name@]);
    let text = match odb.lookup(path.as_slice()) {
        Some(value) => match value.as_str() {
            Some(text) => text,
            None => {
                return Err(TimeFault::Missing);
            },
        },
        None => {
            return Err(TimeFault::Missing);
        },
    };
    let length = text.unicode_len();
    if length < 2 || text.get_char(0) != '0' || text.get_char(1) != 'x' {
        return Err(TimeFault::Missing);
    }
    let digits = text.substring_char(2, length);
    assert(digits@ =~= text@.skip(2));
    match parse_hexadecimal(digits) {
        Some(second) => match instant_at(second) {
            Ok(instant) => Ok(instant),
            Err(_) => Err(TimeFault::OutOfRange),
        },
        None => Err(TimeFault::Malformed),
    }
}

/// Reads the instants at which a run started and stopped from its final ODB.
pub fn run_time_limits(odb: &Json) -> (limits: Result<
    (jiff::Timestamp, jiff::Timestamp),
    TimeLimitError,
>)
    ensures
        match limits {
            Ok((start, stop)) => time_limits(*odb) == Ok::<(i64, i64), TimeLimitError>(
                (instant_second(start), instant_second(stop)),
            ),
            Err(error) => time_limits(*odb) == Err::<(i64, i64), TimeLimitError>(error),
        },
{
    let start = match binary_time(odb, "Start time binary") {
        Ok(start) => start,
        Err(TimeFault::Missing) => {
            return Err(TimeLimitError::StartMissing);
        },
        Err(TimeFault::Malformed) => {
            return Err(TimeLimitError::StartMalformed);
        },
        Err(TimeFault::OutOfRange) => {
            return Err(TimeLimitError::StartOutOfRange);
        },
    };
    match binary_time(odb, "Stop time binary") {
        Ok(stop) => Ok((start, stop)),
        Err(TimeFault::Missing) => Err(TimeLimitError::StopMissing),
        Err(TimeFault::Malformed) => Err(TimeLimitError::StopMalformed),
        Err(TimeFault::OutOfRange) => Err(TimeLimitError::StopOutOfRange),
    }
}

/// A number below a hundred in two digits, a larger one in all its digits.
pub open spec fn two_digits(number: nat) -> Seq<char> {
    if number < 10 {
        "0"@ + decimal(number)
    } else {
        decimal(number)
    }
}

/// Writes a number in at least two digits.
pub fn two_digit_string(number: u8) -> (text: String)
    ensures
        text@ == two_digits(number as nat),
{
    if number < 10 {
        let mut text = String::from_str("0");
        text.append(decimal_string(number as u64).as_str());
        text
    } else {
        decimal_string(number as u64)
    }
}

/// The numeral of a year: a minus sign before the years below zero.
pub open spec fn year_numeral(year: int) -> Seq<char> {
    if year < 0 {
        "-"@ + decimal((-year) as nat)
    } else {
        decimal(year as nat)
    }
}

/// The directories, from the base directory downwards, in which the files of
/// one day lie: the year, the month and the day, the last two in two digits.
pub open spec fn day_folder_names(year: i16, month: u8, day: u8) -> Seq<Seq<char>> {
    seq![year_numeral(year as int), two_digits(month as nat), two_digits(day as nat)]
}

/// The directories, from the base directory downwards, in which the files of
/// one day lie.
pub fn day_folder(year: i16, month: u8, day: u8) -> (names: Vec<String>)
    ensures
        names.deep_view() == day_folder_names(year, month, day),
{
    let year_text = if year < 0 {
        let mut text = String::from_str("-");
        text.append(decimal_string((-(year as i64)) as u64).as_str());
        text
    } else {
        decimal_string(year as u64)
    };
    let mut names: Vec<String> = Vec::new();
    names.push(year_text);
    names.push(two_digit_string(month));
    names.push(two_digit_string(day));
    assert(names.deep_view() =~= day_folder_names(year, month, day));
    names
}

/// The name that a file written at a time of day would bear with the given
/// thousandths of a second: `hhmm_ss.mss.png`.
pub open spec fn entry_name(hour: u8, minute: u8, second: u8, thousandths: Seq<char>) -> Seq<char> {
    two_digits(hour as nat) + two_digits(minute as nat) + "_"@ + two_digits(second as nat) + "."@
        + thousandths + ".png"@
}

/// Writes the name of the form `hhmm_ss.mss.png`.
fn entry_name_string(hour: u8, minute: u8, second: u8, thousandths: &str) -> (name: String)
    ensures
        name@ == entry_name(hour, minute, second, thousandths@),
{
    let mut name = two_digit_string(hour);
    name.append(two_digit_string(minute).as_str());
    name.append("_");
    name.append(two_digit_string(second).as_str());
    name.append(".");
    name.append(thousandths);
    name.append(".png");
    name
}

/// The name below which no file of a run that started at this time of day
/// lies: files of the first day belong to the run if they come after it.
pub fn first_possible_entry(hour: u8, minute: u8, second: u8) -> (name: String)
    ensures
        name@ == entry_name(hour, minute, second, "000"@),
{
    entry_name_string(hour, minute, second, "000")
}

/// The name above which no file of a run that stopped at this time of day
/// lies: files of the last day belong to the run if they come before it.
pub fn last_possible_entry(hour: u8, minute: u8, second: u8) -> (name: String)
    ensures
        name@ == entry_name(hour, minute, second, "999"@),
{
    entry_name_string(hour, minute, second, "999")
}

/// The pattern of the names of the files: two digits each for the hour and
/// the minute, an underscore, two digits for the second, a dot, three digits
/// for the thousandths, and the ending `.png`.
pub open spec fn file_pattern() -> Seq<char> {
    "^\\d{2}\\d{2}_\\d{2}\\.\\d{3}\\.png$"@
}

/// The compiled pattern of the file names.
pub struct FilePattern {
    regex: Regex,
}

impl FilePattern {
    /// The pattern is the one of the file names.
    #[verifier::type_invariant]
    spec fn well_formed(&self) -> bool {
        pattern_of(self.regex) == file_pattern()
    }

    /// Compiles the pattern of the file names. There is none where the
    /// `regex` crate refuses the pattern.
    pub fn new() -> (pattern: Option<FilePattern>)
        ensures
            pattern is Some <==> is_pattern(file_pattern()),
    {
        match compile("^\\d{2}\\d{2}_\\d{2}\\.\\d{3}\\.png$") {
            Ok(regex) => Some(FilePattern { regex }),
            Err(_) => None,
        }
    }

    /// Whether a file name has the form of the pattern.
    pub fn matches(&self, name: &str) -> (found: bool)
        ensures
            found == pattern_matches(file_pattern(), name@),
    {
        proof {
            use_type_invariant(self);
        }
        is_match(&self.regex, name)
    }
}

/// Whether a file of one day belongs to the run: its name has the form of the
/// pattern, comes after `after` if the day is the first of the run, and comes
/// before `before` if the day is the last.
pub open spec fn is_wanted(
    name: Seq<char>,
    after: Option<Seq<char>>,
    before: Option<Seq<char>>,
) -> bool {
    &&& pattern_matches(file_pattern(), name)
    &&& after matches Some(bound) ==> comes_first(bound, name)
    &&& before matches Some(bound) ==> comes_first(name, bound)
}

/// The files among `names` that belong to the run, in the order of `names`.
pub open spec fn wanted_among(
    names: Seq<Seq<char>>,
    after: Option<Seq<char>>,
    before: Option<Seq<char>>,
) -> Seq<Seq<char>>
    decreases names.len(),
{
    if names.len() == 0 {
        Seq::empty()
    } else {
        let rest = wanted_among(names.drop_last(), after, before);
        if is_wanted(names.last(), after, before) {
            rest.push(names.last())
        } else {
            rest
        }
    }
}

/// Whether no name comes before one that stands earlier.
pub open spec fn is_sorted(names: Seq<Seq<char>>) -> bool {
    forall|i: int, j: int|
        0 <= i < j < names.len() ==> !comes_first(#[trigger] names[j], #[trigger] names[i])
}

/// The place at which `name` goes into names that are in order: before the
/// first of them that it comes before, behind them all where there is none.
pub open spec fn place_of(sorted: Seq<Seq<char>>, name: Seq<char>) -> int
    decreases sorted.len(),
{
    if sorted.len() == 0 {
        0
    } else if comes_first(name, sorted[0]) {
        0
    } else {
        1 + place_of(sorted.drop_first(), name)
    }
}

/// The names in the order of strings, equal names side by side.
pub open spec fn in_order(names: Seq<Seq<char>>) -> Seq<Seq<char>>
    decreases names.len(),
{
    if names.len() == 0 {
        Seq::empty()
    } else {
        let before = in_order(names.drop_last());
        before.insert(place_of(before, names.last()), names.last())
    }
}

/// [`place_of`] is the one place before which nothing comes after the name
/// and at which something does, if anything stands there.
pub proof fn lemma_place_of(sorted: Seq<Seq<char>>, name: Seq<char>, at: int)
    requires
        0 <= at <= sorted.len(),
        forall|k: int| 0 <= k < at ==> !comes_first(name, #[trigger] sorted[k]),
        at < sorted.len() ==> comes_first(name, sorted[at]),
    ensures
        place_of(sorted, name) == at,
    decreases sorted.len(),
{
    if sorted.len() > 0 && at > 0 {
        let rest = sorted.drop_first();
        assert(!comes_first(name, sorted[0]));
        assert forall|k: int| 0 <= k < at - 1 implies !comes_first(name, #[trigger] rest[k]) by {
            assert(rest[k] == sorted[k + 1]);
        }
        lemma_place_of(rest, name, at - 1);
    }
}

/// The place of a name lies within the names, nothing before it comes after
/// the name, and what stands at it does.
pub proof fn lemma_place_of_bounds(sorted: Seq<Seq<char>>, name: Seq<char>)
    ensures
        0 <= place_of(sorted, name) <= sorted.len(),
        forall|k: int| 0 <= k < place_of(sorted, name) ==> !comes_first(name, #[trigger] sorted[k]),
        place_of(sorted, name) < sorted.len() ==> comes_first(
            name,
            sorted[place_of(sorted, name)],
        ),
    decreases sorted.len(),
{
    if sorted.len() > 0 && !comes_first(name, sorted[0]) {
        let rest = sorted.drop_first();
        lemma_place_of_bounds(rest, name);
        assert forall|k: int| 0 <= k < place_of(sorted, name) implies !comes_first(
            name,
            #[trigger] sorted[k],
        ) by {
            if k > 0 {
                assert(sorted[k] == rest[k - 1]);
            }
        }
    }
}

/// A name put at its place keeps the names in order.
pub proof fn lemma_insert_keeps_order(sorted: Seq<Seq<char>>, name: Seq<char>)
    requires
        is_sorted(sorted),
    ensures
        is_sorted(sorted.insert(place_of(sorted, name), name)),
{
    lemma_place_of_bounds(sorted, name);
    let at = place_of(sorted, name);
    let after = sorted.insert(at, name);
    assert forall|a: int, b: int| 0 <= a < b < after.len() implies !comes_first(
        #[trigger] after[b],
        #[trigger] after[a],
    ) by {
        if b < at {
            assert(after[a] == sorted[a] && after[b] == sorted[b]);
        } else if b == at {
            assert(after[a] == sorted[a]);
        } else if a < at {
            assert(after[a] == sorted[a] && after[b] == sorted[b - 1]);
        } else if a == at {
            assert(after[b] == sorted[b - 1]);
            lemma_comes_first_asymmetric(name, sorted[at]);
            if b - 1 > at && comes_first(sorted[b - 1], name) {
                lemma_comes_first_transitive(sorted[b - 1], name, sorted[at]);
            }
        } else {
            assert(after[a] == sorted[a - 1] && after[b] == sorted[b - 1]);
        }
    }
}

/// [`in_order`] puts the names in order and neither adds nor loses one.
pub proof fn lemma_in_order(names: Seq<Seq<char>>)
    ensures
        is_sorted(in_order(names)),
        in_order(names).to_multiset() == names.to_multiset(),
        in_order(names).len() == names.len(),
    decreases names.len(),
{
    if names.len() == 0 {
        assert(names =~= Seq::<Seq<char>>::empty());
    } else {
        let rest = names.drop_last();
        let before = in_order(rest);
        lemma_in_order(rest);
        lemma_place_of_bounds(before, names.last());
        lemma_insert_keeps_order(before, names.last());
        assert(rest.push(names.last()) =~= names);
        vstd::seq_lib::to_multiset_insert(before, place_of(before, names.last()), names.last());
        vstd::seq_lib::to_multiset_build(rest, names.last());
        assert(in_order(names).to_multiset() =~= names.to_multiset());
    }
}

/// What an optional string slice says.
pub open spec fn bound_view(bound: Option<&str>) -> Option<Seq<char>> {
    match bound {
        Some(text) => Some(text@),
        None => None,
    }
}

/// The files of one day that belong to the run, in the order of their names.
pub open spec fn selection(
    names: Seq<Seq<char>>,
    after: Option<Seq<char>>,
    before: Option<Seq<char>>,
) -> Seq<Seq<char>> {
    in_order(wanted_among(names, after, before))
}

/// Picks the files of one day that belong to the run and puts them in the
/// order of their names, which is the order of the times at which they were
/// written.
///
/// `names` are the names of the files in the day's directory. `after` is the
/// bound of the run's first day, `before` that of its last day; a day in
/// between has neither.
pub fn select_entries(
    pattern: &FilePattern,
    names: &Vec<String>,
    after: Option<&str>,
    before: Option<&str>,
) -> (selected: Vec<String>)
    ensures
        selected.deep_view() == selection(names.deep_view(), bound_view(after), bound_view(before)),
{
    let ghost all = names.deep_view();
    let ghost lower = bound_view(after);
    let ghost upper = bound_view(before);
    let mut selected: Vec<String> = Vec::new();
    let mut i: usize = 0;
    assert(all.take(0) =~= Seq::<Seq<char>>::empty());
    assert(selected.deep_view() =~= Seq::<Seq<char>>::empty());
    while i < names.len()
        invariant
            i <= names.len(),
            all == names.deep_view(),
            lower == bound_view(after),
            upper == bound_view(before),
            selected.deep_view() == selection(all.take(i as int), lower, upper),
        decreases names.len() - i,
    {
        let name = names[i].as_str();
        proof {
            let next = all.take(i + 1);
            assert(next.drop_last() =~= all.take(i as int));
            assert(next.last() == name@);
        }
        let above = match after {
            Some(bound) => str_lt(bound, name),
            None => true,
        };
        let below = match before {
            Some(bound) => str_lt(name, bound),
            None => true,
        };
        if above && below && pattern.matches(name) {
            let mut at: usize = 0;
            while at < selected.len() && !str_lt(name, selected[at].as_str())
                invariant
                    at <= selected.len(),
                    forall|k: int| 0 <= k < at ==> !comes_first(name@, #[trigger] selected@[k]@),
                decreases selected.len() - at,
            {
                at += 1;
            }
            let ghost sorted = selected.deep_view();
            proof {
                assert forall|k: int| 0 <= k < at implies !comes_first(name@, #[trigger] sorted[k]) by {
                    assert(sorted[k] == selected@[k]@);
                }
                assert(at < selected.len() ==> sorted[at as int] == selected@[at as int]@);
                lemma_place_of(sorted, name@, at as int);
                let wanted = wanted_among(all.take(i as int), lower, upper);
                assert(wanted.push(name@).drop_last() =~= wanted);
            }
            selected.insert(at, names[i].clone());
            assert(selected.deep_view() =~= sorted.insert(at as int, name@));
        }
        i += 1;
    }
    assert(all.take(i as int) =~= all);
    selected
}

/// Whether `days` are the days of a run that started on `start` and stopped
/// on `stop`: every day from the first to the last, each once and in the
/// order of the calendar, and no day where the stop lies before the start.
pub open spec fn are_run_days(
    days: Seq<jiff::civil::Date>,
    start: jiff::civil::Date,
    stop: jiff::civil::Date,
) -> bool {
    &&& days.len() == if day_number(stop) < day_number(start) {
        0
    } else {
        day_number(stop) - day_number(start) + 1
    }
    &&& forall|i: int|
        0 <= i < days.len() ==> day_number(#[trigger] days[i]) == day_number(start) + i
}

/// Lists the days of a run, from the day on which it started to the day on
/// which it stopped.
pub fn run_days(start: jiff::civil::Date, stop: jiff::civil::Date) -> (days: Vec<
    jiff::civil::Date,
>)
    ensures
        are_run_days(days@, start, stop),
{
    let mut days: Vec<jiff::civil::Date> = Vec::new();
    if is_earlier(stop, start) {
        return days;
    }
    let mut day = start;
    loop
        invariant_except_break
            day_number(start) <= day_number(day) <= day_number(stop),
            days@.len() == day_number(day) - day_number(start),
            forall|i: int|
                0 <= i < days@.len() ==> day_number(#[trigger] days@[i]) == day_number(start) + i,
        ensures
            are_run_days(days@, start, stop),
        decreases day_number(stop) - day_number(day),
    {
        days.push(day);
        if !is_earlier(day, stop) {
            break;
        }
        match day_after(day) {
            Ok(next) => {
                day = next;
            },
            Err(_) => {
                assert(day_number(stop) <= day_number(day));
                break;
            },
        }
    }
    days
}

/// The directories, from the base directory downwards, in which the files of
/// a day of the calendar lie.
pub fn day_folder_of(day: jiff::civil::Date) -> (names: Vec<String>)
    ensures
        names.deep_view() == day_folder_names(day_parts(day).0, day_parts(day).1, day_parts(day).2),
{
    let parts = parts_of(day);
    day_folder(parts.0, parts.1, parts.2)
}

/// The listing of a day of the calendar with the files `names`.
pub fn day_listing(day: jiff::civil::Date, names: Vec<String>) -> (listing: DayListing)
    ensures
        listing@ == (DayListingView {
            year: day_parts(day).0,
            month: day_parts(day).1,
            day: day_parts(day).2,
            names: names.deep_view(),
        }),
{
    let parts = parts_of(day);
    DayListing { year: parts.0, month: parts.1, day: parts.2, names }
}

/// A time of day, to the second.
#[derive(Clone, Copy, Debug, PartialEq, Eq, Structural)]
pub struct TimeOfDay {
    pub hour: u8,
    pub minute: u8,
    pub second: u8,
}

/// The files found in the directory of one day.
#[derive(Debug)]
pub struct DayListing {
    pub year: i16,
    pub month: u8,
    pub day: u8,
    /// The names of the files in the directory, in any order.
    pub names: Vec<String>,
}

/// What a [`DayListing`] says.
pub ghost struct DayListingView {
    pub year: i16,
    pub month: u8,
    pub day: u8,
    pub names: Seq<Seq<char>>,
}

impl View for DayListing {
    type V = DayListingView;

    open spec fn view(&self) -> DayListingView {
        DayListingView {
            year: self.year,
            month: self.month,
            day: self.day,
            names: self.names.deep_view(),
        }
    }
}

/// The views of the listings, in their order.
pub open spec fn listing_views(days: Seq<DayListing>) -> Seq<DayListingView> {
    days.map_values(|day: DayListing| day@)
}

/// The bound of the day at `index` towards the start of the run: only the
/// first day has one.
pub open spec fn lower_bound(index: int, start: TimeOfDay) -> Option<Seq<char>> {
    if index == 0 {
        Some(entry_name(start.hour, start.minute, start.second, "000"@))
    } else {
        None
    }
}

/// The bound of the day at `index` among `count` days towards the stop of the
/// run: only the last day has one.
pub open spec fn upper_bound(index: int, count: int, stop: TimeOfDay) -> Option<Seq<char>> {
    if index == count - 1 {
        Some(entry_name(stop.hour, stop.minute, stop.second, "999"@))
    } else {
        None
    }
}

/// The paths of the files of one day that belong to the run, each as the
/// names from the base directory downwards, in the order of the files' names.
pub open spec fn day_paths(
    day: DayListingView,
    after: Option<Seq<char>>,
    before: Option<Seq<char>>,
) -> Seq<Seq<Seq<char>>> {
    selection(day.names, after, before).map_values(
        |name: Seq<char>| day_folder_names(day.year, day.month, day.day).push(name),
    )
}

/// The paths of the files of the first `upto` days that belong to the run,
/// day by day.
pub open spec fn resource_paths(
    days: Seq<DayListingView>,
    start: TimeOfDay,
    stop: TimeOfDay,
    upto: int,
) -> Seq<Seq<Seq<char>>>
    decreases upto,
{
    if upto <= 0 {
        Seq::empty()
    } else {
        resource_paths(days, start, stop, upto - 1) + day_paths(
            days[upto - 1],
            lower_bound(upto - 1, start),
            upper_bound(upto - 1, days.len() as int, stop),
        )
    }
}

/// Finds the files that belong to a run among the files of its days.
///
/// `days` lists, for each day from the day on which the run started to the
/// day on which it stopped, the files in the directory of that day. A file
/// belongs to the run when its name has the form `hhmm_ss.mss.png`, comes
/// after the start on the first day and before the stop on the last day. The
/// paths are given by the names from the base directory downwards, and stand
/// in the order of time.
pub fn find_external_resources(
    pattern: &FilePattern,
    days: &Vec<DayListing>,
    start: TimeOfDay,
    stop: TimeOfDay,
) -> (paths: Vec<Vec<String>>)
    ensures
        paths.deep_view() == resource_paths(
            listing_views(days@),
            start,
            stop,
            days@.len() as int,
        ),
{
    let ghost views = listing_views(days@);
    let first_name = first_possible_entry(start.hour, start.minute, start.second);
    let last_name = last_possible_entry(stop.hour, stop.minute, stop.second);
    let mut paths: Vec<Vec<String>> = Vec::new();
    let mut d: usize = 0;
    assert(paths.deep_view() =~= resource_paths(views, start, stop, 0));
    while d < days.len()
        invariant
            d <= days.len(),
            views == listing_views(days@),
            first_name@ == entry_name(start.hour, start.minute, start.second, "000"@),
            last_name@ == entry_name(stop.hour, stop.minute, stop.second, "999"@),
            paths.deep_view() == resource_paths(views, start, stop, d as int),
        decreases days.len() - d,
    {
        let day = &days[d];
        let after = if d == 0 {
            Some(first_name.as_str())
        } else {
            None
        };
        let before = if d == days.len() - 1 {
            Some(last_name.as_str())
        } else {
            None
        };
        assert(bound_view(after) == lower_bound(d as int, start));
        assert(bound_view(before) == upper_bound(d as int, views.len() as int, stop));
        let selected = select_entries(pattern, &day.names, after, before);
        let ghost wanted = day_paths(views[d as int], bound_view(after), bound_view(before));
        let ghost before_day = paths.deep_view();
        let mut k: usize = 0;
        assert(before_day + wanted.take(0) =~= before_day);
        while k < selected.len()
            invariant
                k <= selected.len(),
                d < days.len(),
                day == days@[d as int],
                views == listing_views(days@),
                selected.deep_view() == selection(
                    views[d as int].names,
                    bound_view(after),
                    bound_view(before),
                ),
                wanted == day_paths(views[d as int], bound_view(after), bound_view(before)),
                paths.deep_view() == before_day + wanted.take(k as int),
            decreases selected.len() - k,
        {
            let ghost so_far = paths.deep_view();
            let mut path = day_folder(day.year, day.month, day.day);
            let ghost folder = path.deep_view();
            path.push(selected[k].clone());
            assert(path.deep_view() =~= folder.push(selected@[k as int]@));
            assert(selected.deep_view()[k as int] == selected@[k as int]@);
            assert(path.deep_view() == wanted[k as int]);
            paths.push(path);
            assert(paths.deep_view() =~= so_far.push(wanted[k as int]));
            assert(wanted.take(k + 1) =~= wanted.take(k as int).push(wanted[k as int]));
            assert(paths.deep_view() =~= before_day + wanted.take(k + 1));
            k += 1;
        }
        assert(wanted.take(k as int) =~= wanted);
        d += 1;
    }
    paths
}

} // verus!
