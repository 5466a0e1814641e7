//! When an experiment ends.
use vstd::prelude::*;

use crate::config::Schedule;
use crate::error::Error;
use crate::text;
use crate::time::{Duration, Timestamp, EARLIEST, LATEST, LONGEST, NANOS};

verus! {

/// The instant at which an experiment ends.
#[derive(Debug, Clone, Copy, PartialEq, Eq, Structural)]
pub struct Deadline(pub Timestamp);

impl Deadline {
    /// The instant itself.
    pub fn at(&self) -> (r: Timestamp)
        ensures
            r == self.0,
    {
        self.0
    }

    /// Whether the deadline is over: from its instant on.
    pub fn is_expired(&self, now: Timestamp) -> (r: bool)
        ensures
            r == (now.nanos >= self.0.nanos),
    {
        now.nanos >= self.0.nanos
    }

    /// How long there is until the deadline, empty once it is over.
    pub fn remaining(&self, now: Timestamp) -> (r: Duration)
        requires
            self.0.valid(),
            now.valid(),
        ensures
            r.valid(),
            r.total() == Timestamp::span(now, self.0),
    {
        Timestamp::until(now, self.0)
    }
}

/// A deadline is over exactly when nothing remains until it.
pub proof fn law_expired_iff_nothing_remains(deadline: Deadline, now: Timestamp)
    ensures
        (now.nanos >= deadline.0.nanos) <==> Timestamp::span(now, deadline.0) == 0,
{
}

/// Once over, a deadline stays over, and no later look leaves more time.
pub proof fn law_time_only_runs_out(deadline: Deadline, now: Timestamp, later: Timestamp)
    requires
        now.nanos <= later.nanos,
    ensures
        now.nanos >= deadline.0.nanos ==> later.nanos >= deadline.0.nanos,
        Timestamp::span(later, deadline.0) <= Timestamp::span(now, deadline.0),
{
}

// ---------------------------------------------------------------------------
// Clock times
// ---------------------------------------------------------------------------

/// Before or after noon, as a clock time ends in `am` or `pm`.
pub enum Half {
    Am,
    Pm,
    Unsaid,
}

/// The half of the day that a clock time in lower case names.
pub open spec fn half_of(s: Seq<char>) -> Half {
    if text::finishes_with(s, "am"@) {
        Half::Am
    } else if text::finishes_with(s, "pm"@) {
        Half::Pm
    } else {
        Half::Unsaid
    }
}

/// A clock time in lower case without its half of the day.
pub open spec fn clock_body(s: Seq<char>) -> Seq<char> {
    text::trimmed(
        match half_of(s) {
            Half::Am => text::without_trailing_white(s.take(s.len() - "am"@.len())),
            Half::Pm => text::without_trailing_white(s.take(s.len() - "pm"@.len())),
            Half::Unsaid => s,
        },
    )
}

/// The hour of the day.
pub open spec fn hour_of(h: nat, half: Half) -> Option<nat> {
    match half {
        Half::Am => if h == 12 {
            Some(0)
        } else if h <= 11 {
            Some(h)
        } else {
            None
        },
        Half::Pm => if h == 12 {
            Some(12)
        } else if h <= 11 {
            Some(h + 12)
        } else {
            None
        },
        Half::Unsaid => if h < 24 {
            Some(h)
        } else {
            None
        },
    }
}

/// The hour and minute that a clock time in lower case means.
pub open spec fn clock_of(s: Seq<char>) -> Option<(nat, nat)> {
    let body = clock_body(s);
    let colon = text::find_char(body, ':');
    let hours = text::read_bounded(body.take(colon), u32::MAX as nat);
    let minutes = if colon < body.len() {
        text::read_bounded(body.skip(colon + 1), u32::MAX as nat)
    } else {
        Some(0)
    };
    match (hours, minutes) {
        (Some(h), Some(m)) => if m >= 60 {
            None
        } else {
            match hour_of(h, half_of(s)) {
                Some(hour) => Some((hour, m)),
                None => None,
            }
        },
        _ => None,
    }
}

/// Every clock time lies within a day.
pub proof fn law_clock_is_within_a_day(s: Seq<char>)
    ensures
        clock_of(s) matches Some((h, m)) ==> h < 24 && m < 60,
{
}

/// Reads a clock time in lower case: `9am`, `12 pm`, `14:30`, `9`.
pub fn parse_clock(lower: &str) -> (r: Option<(u32, u32)>)
    ensures
        match r {
            Some((h, m)) => clock_of(lower@) == Some((h as nat, m as nat)) && h < 24 && m < 60,
            None => clock_of(lower@) is None,
        },
{
    let mut noon: u32 = 24;
    let ghost half = half_of(lower@);
    let body = match text::strip_suffix(lower, "am") {
        Some(rest) => {
            noon = 0;
            text::trim_end(rest.as_str())
        },
        None => match text::strip_suffix(lower, "pm") {
            Some(rest) => {
                noon = 12;
                text::trim_end(rest.as_str())
            },
            None => text::owned(lower),
        },
    };
    let body = text::trim(body.as_str());
    assert(body@ == clock_body(lower@));
    proof {
        text::lemma_find_bounds(body@, ':');
    }
    assert(half is Am <==> noon == 0);
    assert(half is Pm <==> noon == 12);
    assert(half is Unsaid <==> noon == 24);
    let (h, m): (u64, u64) = match text::split_once(body.as_str(), ':') {
        Some((hs, ms)) => {
            let h = match text::parse_unsigned(hs.as_str(), u32::MAX as u64) {
                Some(h) => h,
                None => {
                    return None;
                },
            };
            let m = match text::parse_unsigned(ms.as_str(), u32::MAX as u64) {
                Some(m) => m,
                None => {
                    return None;
                },
            };
            (h, m)
        },
        None => {
            assert(body@.take(body@.len() as int) == body@);
            match text::parse_unsigned(body.as_str(), u32::MAX as u64) {
                Some(h) => (h, 0u64),
                None => {
                    return None;
                },
            }
        },
    };
    if m >= 60 {
        return None;
    }
    if noon == 24 {
        if h >= 24 {
            return None;
        }
        Some((h as u32, m as u32))
    } else if h == 12 {
        Some((noon, m as u32))
    } else if h <= 11 {
        Some((h as u32 + noon, m as u32))
    } else {
        None
    }
}

/// Reads a clock time, whatever the case of its letters.
pub fn parse_time(s: &str) -> (r: Option<(u32, u32)>)
    ensures
        match r {
            Some((h, m)) => clock_of(text::lowered(text::trimmed(s@))) == Some(
                (h as nat, m as nat),
            ) && h < 24 && m < 60,
            None => clock_of(text::lowered(text::trimmed(s@))) is None,
        },
{
    parse_clock(text::lowercase(text::trim(s).as_str()).as_str())
}

// ---------------------------------------------------------------------------
// Phrases
// ---------------------------------------------------------------------------

/// A phrase for a deadline in local time.
#[derive(Debug, Clone, Copy, PartialEq, Eq, Structural)]
pub enum Phrase {
    /// A time of this day.
    Today(u32, u32),
    /// A time of the next day.
    Tomorrow(u32, u32),
    /// A time of this day, or of the next day once it is past.
    Next(u32, u32),
}

impl Phrase {
    /// The time of the day.
    pub open spec fn clock(self) -> (u32, u32) {
        match self {
            Phrase::Today(h, m) => (h, m),
            Phrase::Tomorrow(h, m) => (h, m),
            Phrase::Next(h, m) => (h, m),
        }
    }
}

/// A clock time, read whatever the case of its letters.
pub open spec fn time_of(s: Seq<char>) -> Option<(nat, nat)> {
    clock_of(text::lowered(text::trimmed(s)))
}

/// What the words of a phrase in lower case mean.
pub open spec fn phrase_of(words: Seq<Seq<char>>) -> Option<Phrase> {
    if words.len() == 1 && words[0] == "tomorrow"@ {
        Some(Phrase::Tomorrow(0, 0))
    } else if words.len() == 1 && words[0] == "today"@ {
        Some(Phrase::Today(0, 0))
    } else if words.len() == 2 && words[0] == "tomorrow"@ {
        match time_of(words[1]) {
            Some((h, m)) => Some(Phrase::Tomorrow(h as u32, m as u32)),
            None => None,
        }
    } else if words.len() == 2 && words[0] == "today"@ {
        match time_of(words[1]) {
            Some((h, m)) => Some(Phrase::Today(h as u32, m as u32)),
            None => None,
        }
    } else if words.len() == 1 {
        match time_of(words[0]) {
            Some((h, m)) => Some(Phrase::Next(h as u32, m as u32)),
            None => None,
        }
    } else {
        None
    }
}

/// Reads a phrase in lower case.
pub fn parse_phrase(lower: &str) -> (r: Option<Phrase>)
    ensures
        r == phrase_of(text::words_of(lower@)),
        r matches Some(p) ==> p.clock().0 < 24 && p.clock().1 < 60,
{
    let words = text::words(lower);
    let ghost w = text::words_of(lower@);
    proof {
        if w.len() > 0 {
            assert(text::texts(words@)[0] == words@[0]@);
        }
        if w.len() > 1 {
            assert(text::texts(words@)[1] == words@[1]@);
        }
    }
    if words.len() == 1 {
        if text::same(words[0].as_str(), "tomorrow") {
            return Some(Phrase::Tomorrow(0, 0));
        }
        if text::same(words[0].as_str(), "today") {
            return Some(Phrase::Today(0, 0));
        }
        return match parse_time(words[0].as_str()) {
            Some((h, m)) => Some(Phrase::Next(h, m)),
            None => None,
        };
    }
    if words.len() == 2 {
        if text::same(words[0].as_str(), "tomorrow") {
            return match parse_time(words[1].as_str()) {
                Some((h, m)) => Some(Phrase::Tomorrow(h, m)),
                None => None,
            };
        }
        if text::same(words[0].as_str(), "today") {
            return match parse_time(words[1].as_str()) {
                Some((h, m)) => Some(Phrase::Today(h, m)),
                None => None,
            };
        }
    }
    None
}

/// The first day of the calendar, counted from January 1 of year 1 as day 1.
pub const FIRST_DAY: i32 = -95_746_129;

/// The last day of the calendar.
pub const LAST_DAY: i32 = 95_745_399;

/// The first day of the Unix epoch.
pub const EPOCH_DAY: i32 = 719_163;

/// The present: an instant, and the day it falls on in local time.
#[derive(Debug, Clone, Copy, PartialEq, Eq, Structural)]
pub struct LocalNow {
    pub instant: Timestamp,
    pub day: i32,
}

impl LocalNow {
    /// The calendar knows the present and the day after it.
    pub open spec fn valid(self) -> bool {
        self.instant.valid() && FIRST_DAY <= self.day < LAST_DAY
    }
}

/// The seconds from the Unix epoch to a time of a day, were it told in UTC.
pub open spec fn wall_seconds(day: int, h: int, m: int) -> int {
    (day - EPOCH_DAY) * 86_400 + h * 3600 + m * 60
}

/// Finds the instant of a local time with `Local::from_local_datetime` and
/// `LocalResult::single`, over `NaiveDate::from_num_days_from_ce_opt` and
/// `NaiveTime::from_hms_opt`: the seconds from the Unix epoch, where the time
/// zone of the machine has the time exactly once. Which instant that is depends
/// on the time zone; it is less than a day from where UTC would put it.
#[verifier::external_body]
fn local_seconds(day: i32, h: u32, m: u32) -> (r: Option<i64>)
    requires
        FIRST_DAY <= day <= LAST_DAY,
        h < 24,
        m < 60,
    ensures
        r matches Some(at) ==> -86_400 < wall_seconds(day as int, h as int, m as int) - at < 86_400
            && EARLIEST <= at * NANOS <= LATEST,
{
    let date = chrono::NaiveDate::from_num_days_from_ce_opt(day)?;
    let time = chrono::NaiveTime::from_hms_opt(h, m, 0)?;
    let local = chrono::TimeZone::from_local_datetime(&chrono::Local, &date.and_time(time));
    local.single().map(|at| at.timestamp())
}

/// The instant of a local time, given what the time zone says of it: the
/// seconds from the Unix epoch, where the time is there exactly once.
pub fn local_instant(found: Option<i64>) -> (r: Option<Timestamp>)
    ensures
        match found {
            Some(at) => r matches Some(t) && t.nanos == at * NANOS,
            None => r is None,
        },
{
    match found {
        Some(at) => Some(Timestamp::from_unix(at, 0)),
        None => None,
    }
}

/// The instant of a local time, where there is exactly one. The time zone
/// decides whether there is, and which; it is a full second.
pub fn make_local(day: i32, h: u32, m: u32) -> (r: Option<Timestamp>)
    requires
        FIRST_DAY <= day <= LAST_DAY,
        h < 24,
        m < 60,
    ensures
        plausible(r, day as int, (h, m)),
{
    local_instant(local_seconds(day, h, m))
}

/// The instant a phrase means, given the instants of its time today and
/// tomorrow.
pub open spec fn settled(
    phrase: Phrase,
    today: Option<Timestamp>,
    tomorrow: Option<Timestamp>,
    now: Timestamp,
) -> Option<Timestamp> {
    match phrase {
        Phrase::Today(_, _) => today,
        Phrase::Tomorrow(_, _) => tomorrow,
        Phrase::Next(_, _) => match today {
            None => None,
            Some(t) => if t.nanos <= now.nanos {
                tomorrow
            } else {
                today
            },
        },
    }
}

/// The instant a phrase means.
pub fn settle(
    phrase: Phrase,
    today: Option<Timestamp>,
    tomorrow: Option<Timestamp>,
    now: Timestamp,
) -> (r: Option<Timestamp>)
    ensures
        r == settled(phrase, today, tomorrow, now),
{
    match phrase {
        Phrase::Today(_, _) => today,
        Phrase::Tomorrow(_, _) => tomorrow,
        Phrase::Next(_, _) => match today {
            None => None,
            Some(t) => {
                if t.nanos <= now.nanos {
                    tomorrow
                } else {
                    today
                }
            },
        },
    }
}

/// An instant that a local time can have, whatever the time zone: a full second
/// less than a day from where UTC would put the time.
pub open spec fn plausible(t: Option<Timestamp>, day: int, clock: (u32, u32)) -> bool {
    t matches Some(t) ==> {
        &&& t.valid()
        &&& t.nanos as int % NANOS as int == 0
        &&& -86_400 * NANOS < wall_seconds(day, clock.0 as int, clock.1 as int) * NANOS - t.nanos
            < 86_400 * NANOS
    }
}

/// The instant that a phrase in local time means. The time zone decides which
/// instants its time has today and tomorrow.
pub fn parse_natural(s: &str, now: LocalNow) -> (r: Option<Timestamp>)
    requires
        now.valid(),
    ensures
        match phrase_of(text::words_of(text::lowered(s@))) {
            None => r is None,
            Some(p) => exists|today: Option<Timestamp>, tomorrow: Option<Timestamp>|
                {
                    &&& plausible(today, now.day as int, p.clock())
                    &&& plausible(tomorrow, now.day + 1, p.clock())
                    &&& r == #[trigger] settled(p, today, tomorrow, now.instant)
                },
        },
        r matches Some(t) ==> t.valid(),
{
    let lower = text::lowercase(s);
    let phrase = match parse_phrase(lower.as_str()) {
        Some(p) => p,
        None => {
            return None;
        },
    };
    let (h, m) = match phrase {
        Phrase::Today(h, m) => (h, m),
        Phrase::Tomorrow(h, m) => (h, m),
        Phrase::Next(h, m) => (h, m),
    };
    let today = match phrase {
        Phrase::Tomorrow(_, _) => None,
        _ => make_local(now.day, h, m),
    };
    let tomorrow = match phrase {
        Phrase::Today(_, _) => None,
        _ => make_local(now.day + 1, h, m),
    };
    assert(plausible(today, now.day as int, phrase.clock()));
    assert(plausible(tomorrow, now.day + 1, phrase.clock()));
    settle(phrase, today, tomorrow, now.instant)
}

// ---------------------------------------------------------------------------
// Deadlines
// ---------------------------------------------------------------------------

/// The nanoseconds of the first span that 64 bits of seconds cannot hold.
pub const BRIM: u128 = 18_446_744_073_709_551_616_000_000_000;

/// The nanoseconds of a unit, told by how its name begins.
pub open spec fn unit_nanos(unit: Seq<char>) -> nat {
    if unit.len() == 0 {
        0
    } else if unit[0] == 'y' {
        31_557_600_000_000_000
    } else if unit == "M"@ || text::begins_with(unit, "mo"@) {
        2_630_016_000_000_000
    } else if unit[0] == 'w' {
        604_800_000_000_000
    } else if unit[0] == 'd' {
        86_400_000_000_000
    } else if unit[0] == 'h' {
        3_600_000_000_000
    } else if text::begins_with(unit, "ms"@) || text::begins_with(unit, "mil"@) {
        1_000_000
    } else if unit[0] == 'm' {
        60_000_000_000
    } else if unit[0] == 's' {
        1_000_000_000
    } else if unit[0] == 'u' || unit[0] == '\u{b5}' {
        1_000
    } else if unit[0] == 'n' {
        1
    } else {
        0
    }
}

/// How the reading of a text as a span goes.
#[derive(Debug, Clone, Copy, PartialEq, Eq, Structural)]
pub enum Course {
    /// On, with less than [`BRIM`] so far.
    Below,
    /// Up to [`BRIM`] exactly, by a part of no more than a second.
    Brimming,
    /// To its end, with no span: the text is none, or one too long.
    Ended,
}

/// Where a reading goes that has come to `before` and takes `more` nanoseconds,
/// told in full seconds or not.
pub open spec fn course_of(before: nat, more: nat, full: bool) -> Course {
    if before + more < BRIM {
        Course::Below
    } else if before + more == BRIM && more <= NANOS && !full {
        Course::Brimming
    } else {
        Course::Ended
    }
}

/// A text read as numbers with units, so far.
pub struct Tally {
    /// The nanoseconds that the complete numbers with units mean.
    pub nanos: nat,
    /// The number that the text ends in, without its decimals.
    pub number: nat,
    /// The decimals of that number, as a number.
    pub part: nat,
    /// Ten to the power of how many decimals there are, if there is a decimal
    /// point.
    pub scale: Option<nat>,
    /// The unit that the text ends in.
    pub unit: Seq<char>,
    pub course: Course,
}

impl Tally {
    /// The tally with the number and the unit that the text ends in complete.
    pub open spec fn complete(self) -> Tally {
        let each = unit_nanos(self.unit);
        let whole = self.number * each;
        let scale = match self.scale {
            Some(d) => d,
            None => 1,
        };
        let rest = self.part * each / scale;
        let first = course_of(self.nanos, whole, each >= NANOS);
        Tally {
            nanos: self.nanos + whole + rest,
            number: 0,
            part: 0,
            scale: None,
            unit: Seq::empty(),
            course: if first != Course::Below {
                first
            } else if self.part * each % scale != 0 {
                Course::Ended
            } else {
                course_of(self.nanos + whole, rest, each > 60 * NANOS)
            },
        }
    }

    /// The tally with a digit more.
    pub open spec fn with_digit(self, d: nat) -> Tally {
        match self.scale {
            None => if self.number * 10 + d > u64::MAX {
                Tally { course: Course::Ended, ..self }
            } else {
                Tally { number: self.number * 10 + d, ..self }
            },
            Some(scale) => if scale * 10 > u64::MAX {
                Tally { course: Course::Ended, ..self }
            } else {
                Tally { part: self.part * 10 + d, scale: Some(scale * 10), ..self }
            },
        }
    }

    /// The tally with a decimal point more.
    pub open spec fn with_point(self) -> Tally {
        match self.scale {
            None => Tally { scale: Some(1), ..self },
            Some(_) => Tally { course: Course::Ended, ..self },
        }
    }

    /// The tally with a character more.
    pub open spec fn with_char(self, c: char) -> Tally {
        if self.course != Course::Below {
            self
        } else if is_unit_char(c) {
            Tally { unit: self.unit.push(c), ..self }
        } else if text::is_digit(c) {
            let d = (c as nat - '0' as nat) as nat;
            if self.unit.len() == 0 {
                self.with_digit(d)
            } else if self.complete().course != Course::Below {
                self.complete()
            } else {
                self.complete().with_digit(d)
            }
        } else if self.unit.len() == 0 && text::is_white(c) {
            self
        } else if self.unit.len() == 0 && c == '.' {
            self.with_point()
        } else if text::is_white(c) {
            self.complete()
        } else {
            Tally { course: Course::Ended, ..self }
        }
    }
}

/// A letter that a unit may hold.
pub open spec fn is_unit_char(c: char) -> bool {
    text::is_letter(c) || c == '\u{b5}'
}

/// The tally of a text.
pub open spec fn tally(s: Seq<char>) -> Tally
    decreases s.len(),
{
    if s.len() == 0 {
        Tally {
            nanos: 0,
            number: 0,
            part: 0,
            scale: None,
            unit: Seq::empty(),
            course: Course::Below,
        }
    } else {
        tally(s.drop_last()).with_char(s.last())
    }
}

/// Whether a text, read as a span, never comes to [`BRIM`] exactly by a part of
/// no more than a second.
pub open spec fn countable(s: Seq<char>) -> bool {
    let t = tally(s);
    let course = if t.course == Course::Below {
        t.complete().course
    } else {
        t.course
    };
    course != Course::Brimming
}

/// What [`Tally`] is counted with.
struct Count {
    nanos: u128,
    number: u64,
    part: u64,
    scale: Option<u64>,
    unit: String,
    course: Course,
}

fn course_from(before: u128, more: u128, full: bool) -> (r: Course)
    requires
        before < BRIM,
        more <= u64::MAX * 31_557_600_000_000_000,
    ensures
        r == course_of(before as nat, more as nat, full),
{
    if before + more < BRIM {
        Course::Below
    } else if before + more == BRIM && more <= NANOS as u128 && !full {
        Course::Brimming
    } else {
        Course::Ended
    }
}

fn times(n: u64, each: u64) -> (r: u128)
    requires
        each <= 31_557_600_000_000_000,
    ensures
        r == n * each,
        r <= u64::MAX * 31_557_600_000_000_000,
{
    assert(n * each <= u64::MAX * 31_557_600_000_000_000) by (nonlinear_arith)
        requires
            n <= u64::MAX,
            each <= 31_557_600_000_000_000,
    ;
    assert(n as u128 * each as u128 == n * each);
    n as u128 * each as u128
}

fn nanos_of(unit: &str) -> (r: u64)
    ensures
        r == unit_nanos(unit@),
        r <= 31_557_600_000_000_000,
{
    let v = text::chars_of(unit);
    if v.len() == 0 {
        return 0;
    }
    let c = v[0];
    if c == 'y' {
        31_557_600_000_000_000
    } else if text::same(unit, "M") || text::starts_with(unit, "mo") {
        2_630_016_000_000_000
    } else if c == 'w' {
        604_800_000_000_000
    } else if c == 'd' {
        86_400_000_000_000
    } else if c == 'h' {
        3_600_000_000_000
    } else if text::starts_with(unit, "ms") || text::starts_with(unit, "mil") {
        1_000_000
    } else if c == 'm' {
        60_000_000_000
    } else if c == 's' {
        1_000_000_000
    } else if c == 'u' || c == '\u{b5}' {
        1_000
    } else if c == 'n' {
        1
    } else {
        0
    }
}

impl Count {
    spec fn counts(self, t: Tally) -> bool {
        &&& self.course == t.course
        &&& t.course == Course::Below ==> {
            &&& self.nanos == t.nanos
            &&& self.number == t.number
            &&& self.part == t.part
            &&& match self.scale {
                Some(d) => t.scale == Some(d as nat) && 0 < d && self.part < d,
                None => t.scale is None && t.part == 0,
            }
            &&& self.unit@ == t.unit
            &&& t.nanos < BRIM
        }
    }

    fn complete(&mut self, Ghost(t): Ghost<Tally>)
        requires
            old(self).counts(t),
            t.course == Course::Below,
        ensures
            final(self).counts(t.complete()),
    {
        let each = nanos_of(self.unit.as_str());
        let whole = times(self.number, each);
        let scale: u64 = match self.scale {
            Some(d) => d,
            None => 1,
        };
        let parts = times(self.part, each);
        let rest: u128 = parts / scale as u128;
        assert(rest <= parts) by (nonlinear_arith)
            requires
                rest == parts / scale as u128,
                scale > 0,
        ;
        let first = course_from(self.nanos, whole, each >= NANOS as u64);
        if first != Course::Below {
            self.course = first;
        } else if parts % scale as u128 != 0 {
            self.course = Course::Ended;
        } else {
            self.course = course_from(self.nanos + whole, rest, each > 60 * NANOS as u64);
            if self.course == Course::Below {
                self.nanos = self.nanos + whole + rest;
            }
        }
        self.number = 0;
        self.part = 0;
        self.scale = None;
        self.unit = String::new();
        assert(self.unit@ =~= Seq::empty());
    }

    fn take_digit(&mut self, d: u64, Ghost(t): Ghost<Tally>)
        requires
            old(self).counts(t),
            t.course == Course::Below,
            d < 10,
        ensures
            final(self).counts(t.with_digit(d as nat)),
    {
        match self.scale {
            None => {
                let n: u128 = self.number as u128 * 10 + d as u128;
                if n > u64::MAX as u128 {
                    self.course = Course::Ended;
                } else {
                    self.number = n as u64;
                }
            },
            Some(scale) => {
                if scale as u128 * 10 > u64::MAX as u128 {
                    self.course = Course::Ended;
                } else {
                    self.part = self.part * 10 + d;
                    self.scale = Some(scale * 10);
                }
            },
        }
    }

    fn take(&mut self, c: char, Ghost(t): Ghost<Tally>)
        requires
            old(self).counts(t),
        ensures
            final(self).counts(t.with_char(c)),
    {
        if self.course != Course::Below {
            return;
        }
        let bare = text::chars_of(self.unit.as_str()).len() == 0;
        if text::char_is_letter(c) || c == '\u{b5}' {
            self.unit.push(c);
        } else if text::char_is_digit(c) {
            let d = (c as u32 - 48) as u64;
            if bare {
                self.take_digit(d, Ghost(t));
            } else {
                self.complete(Ghost(t));
                if self.course == Course::Below {
                    self.take_digit(d, Ghost(t.complete()));
                }
            }
        } else if bare && text::char_is_white(c) {
        } else if bare && c == '.' {
            if self.scale.is_some() {
                self.course = Course::Ended;
            } else {
                self.scale = Some(1);
            }
        } else if text::char_is_white(c) {
            self.complete(Ghost(t));
        } else {
            self.course = Course::Ended;
        }
    }
}

/// Tells whether a text, read as a span, never comes to [`BRIM`] exactly by a
/// part of no more than a second.
pub fn is_countable(s: &str) -> (r: bool)
    ensures
        r == countable(s@),
{
    let v = text::chars_of(s);
    let mut count = Count {
        nanos: 0,
        number: 0,
        part: 0,
        scale: None,
        unit: String::new(),
        course: Course::Below,
    };
    let mut i: usize = 0;
    assert(v@.take(0) == Seq::<char>::empty());
    assert(count.unit@ =~= Seq::empty());
    while i < v.len()
        invariant
            i <= v.len(),
            v@ == s@,
            count.counts(tally(v@.take(i as int))),
        decreases v.len() - i,
    {
        let ghost next = v@.take(i as int + 1);
        assert(next.drop_last() == v@.take(i as int));
        assert(next.last() == v@[i as int]);
        count.take(v[i], Ghost(tally(v@.take(i as int))));
        i += 1;
    }
    assert(v@.take(v@.len() as int) == v@);
    if count.course == Course::Below {
        count.complete(Ghost(tally(v@)));
    }
    count.course != Course::Brimming
}

/// The span that a text is in words, in seconds and nanoseconds, if it is one.
pub uninterp spec fn spoken_span(s: Seq<char>) -> Option<(u64, u32)>;

/// Reads a span with `humantime::parse_duration`. Whether the text is a span,
/// and which, are functions of the text alone. The reader panics where the
/// seconds are as many as 64 bits hold and the parts below a second come to one
/// second exactly; such texts are left out.
#[verifier::external_body]
fn read_span(s: &str) -> (r: Option<(u64, u32)>)
    requires
        countable(s@),
    ensures
        r == spoken_span(s@),
        r matches Some(d) ==> d.1 < NANOS,
{
    humantime::parse_duration(s).ok().map(|d| (d.as_secs(), d.subsec_nanos()))
}

/// The instant that an RFC 3339 text is, in seconds and nanoseconds from the
/// Unix epoch, if it is one.
pub uninterp spec fn rfc3339_instant(s: Seq<char>) -> Option<(i64, u32)>;

/// Reads an instant with `chrono::DateTime::parse_from_rfc3339`. Whether the
/// text is an instant, and which, are functions of the text alone. Years have
/// four digits and offsets are less than a day; in a leap second the
/// nanoseconds go beyond a second.
#[verifier::external_body]
fn read_rfc3339(s: &str) -> (r: Option<(i64, u32)>)
    ensures
        r == rfc3339_instant(s@),
        r matches Some(t) ==> -62_167_305_600 <= t.0 <= 253_402_387_199 && t.1 < 2 * NANOS,
{
    let at = chrono::DateTime::parse_from_rfc3339(s).ok()?;
    Some((at.timestamp(), at.timestamp_subsec_nanos()))
}

/// The span of seconds and nanoseconds in nanoseconds.
pub open spec fn span_total(d: (u64, u32)) -> nat {
    (d.0 * NANOS + d.1) as nat
}

/// What a span that cannot be added to an instant is told as.
pub const OUT_OF_RANGE: &'static str = "Source duration value is out of range for the target type";

/// The message for a text that is no deadline.
pub open spec fn unrecognized(s: Seq<char>) -> Seq<char> {
    "unrecognized deadline "@ + text::quoted(s)
        + "; expected a duration (\"4h\"), an RFC3339 timestamp, or a phrase like \"tomorrow 9am\""@
}

fn schedule_error<T>(m: String) -> (r: Result<T, Error>)
    ensures
        r matches Err(Error::Schedule(t)) && t@ == m@,
{
    Err(Error::Schedule(m))
}

/// The instant that a deadline text means, given how it reads as a span, as an
/// absolute instant and as a phrase; the first reading that there is counts.
pub fn settle_deadline(
    s: &str,
    span: Option<(u64, u32)>,
    absolute: Option<(i64, u32)>,
    natural: Option<Timestamp>,
    now: Timestamp,
) -> (r: Result<Timestamp, Error>)
    requires
        now.valid(),
        span matches Some(d) ==> span_total(d) <= LONGEST ==> now.nanos + span_total(d) <= LATEST,
    ensures
        match (span, absolute, natural) {
            (Some(d), _, _) => if span_total(d) > LONGEST {
                r matches Err(Error::Schedule(m)) && m@ == "duration out of range: "@
                    + OUT_OF_RANGE@
            } else {
                r matches Ok(t) && t.nanos == now.nanos + span_total(d)
            },
            (None, Some(a), _) => r matches Ok(t) && t.nanos == a.0 * NANOS + a.1,
            (None, None, Some(t)) => r == Ok::<Timestamp, Error>(t),
            (None, None, None) => r matches Err(Error::Schedule(m)) && m@ == unrecognized(s@),
        },
{
    if let Some((secs, nanos)) = span {
        let d = Duration { secs, nanos };
        if d.as_nanos() > LONGEST {
            let mut m = text::owned("duration out of range: ");
            m.push_str(OUT_OF_RANGE);
            return schedule_error(m);
        }
        return Ok(now.later(&d));
    }
    if let Some((secs, nanos)) = absolute {
        return Ok(Timestamp::from_unix(secs, nanos));
    }
    if let Some(t) = natural {
        return Ok(t);
    }
    let mut m = text::owned("unrecognized deadline ");
    m.push_str(text::quote(s).as_str());
    m.push_str(
        "; expected a duration (\"4h\"), an RFC3339 timestamp, or a phrase like \"tomorrow 9am\"",
    );
    schedule_error(m)
}

/// What a deadline text can come to in local time.
pub open spec fn deadline_outcome(s: Seq<char>, now: LocalNow, r: Result<Timestamp, Error>) -> bool {
    let t = text::trimmed(s);
    if t.len() == 0 {
        r matches Err(Error::Schedule(m)) && m@ == "empty deadline string"@
    } else if spoken_span(t) is Some {
        if span_total(spoken_span(t).unwrap()) > LONGEST {
            r matches Err(Error::Schedule(m)) && m@ == "duration out of range: "@ + OUT_OF_RANGE@
        } else {
            r matches Ok(at) && at.nanos == now.instant.nanos + span_total(spoken_span(t).unwrap())
        }
    } else if rfc3339_instant(t) is Some {
        r matches Ok(at) && at.nanos == rfc3339_instant(t).unwrap().0 * NANOS + rfc3339_instant(
            t,
        ).unwrap().1
    } else {
        match phrase_of(text::words_of(text::lowered(t))) {
            None => r matches Err(Error::Schedule(m)) && m@ == unrecognized(t),
            Some(p) => exists|today: Option<Timestamp>, tomorrow: Option<Timestamp>|
                {
                    &&& plausible(today, now.day as int, p.clock())
                    &&& plausible(tomorrow, now.day + 1, p.clock())
                    &&& match #[trigger] settled(p, today, tomorrow, now.instant) {
                        Some(at) => r == Ok::<Timestamp, Error>(at),
                        None => r matches Err(Error::Schedule(m)) && m@ == unrecognized(t),
                    }
                },
        }
    }
}

/// Whether the span that a deadline text is can be read and added to the
/// present.
pub open spec fn deadline_fits(s: Seq<char>, now: Timestamp) -> bool {
    let t = text::trimmed(s);
    t.len() > 0 ==> {
        &&& countable(t)
        &&& spoken_span(t) matches Some(d) ==> span_total(d) <= LONGEST ==> now.nanos + span_total(
            d,
        ) <= LATEST
    }
}

/// The instant that a deadline text means: a span from now, `4h`; an RFC 3339
/// instant; or a phrase in local time, `tomorrow 9am`.
pub fn parse_deadline_expr(s: &str, now_local: LocalNow) -> (r: Result<Timestamp, Error>)
    requires
        now_local.valid(),
        deadline_fits(s@, now_local.instant),
    ensures
        deadline_outcome(s@, now_local, r),
        r matches Ok(at) ==> at.valid(),
{
    let t = text::trim(s);
    if text::chars_of(t.as_str()).len() == 0 {
        return schedule_error(text::owned("empty deadline string"));
    }
    let span = read_span(t.as_str());
    if span.is_some() {
        return settle_deadline(t.as_str(), span, None, None, now_local.instant);
    }
    let absolute = read_rfc3339(t.as_str());
    if absolute.is_some() {
        return settle_deadline(t.as_str(), None, absolute, None, now_local.instant);
    }
    let natural = parse_natural(t.as_str(), now_local);
    settle_deadline(t.as_str(), None, None, natural, now_local.instant)
}

/// The instant that a deadline text means, or nothing where the text is a span
/// that cannot be read or cannot be added to the present.
pub fn try_parse_deadline_expr(s: &str, now_local: LocalNow) -> (r: Option<
    Result<Timestamp, Error>,
>)
    requires
        now_local.valid(),
    ensures
        match r {
            Some(d) => deadline_fits(s@, now_local.instant) && deadline_outcome(s@, now_local, d)
                && (d matches Ok(at) ==> at.valid()),
            None => !deadline_fits(s@, now_local.instant),
        },
{
    let t = text::trim(s);
    if text::chars_of(t.as_str()).len() > 0 {
        if !is_countable(t.as_str()) {
            return None;
        }
        if let Some((secs, nanos)) = read_span(t.as_str()) {
            let total = Duration { secs, nanos }.as_nanos();
            if total <= LONGEST && now_local.instant.nanos + total as i128 > LATEST {
                return None;
            }
        }
    }
    Some(parse_deadline_expr(s, now_local))
}

/// What the deadline of a schedule can come to.
pub open spec fn schedule_outcome(
    sched: Schedule,
    now_utc: Timestamp,
    now_local: LocalNow,
    r: Result<Deadline, Error>,
) -> bool {
    match (sched.total_budget, sched.deadline) {
        (Some(d), _) => if d.total() > LONGEST {
            r matches Err(Error::Schedule(m)) && m@ == "invalid total_budget: "@ + OUT_OF_RANGE@
        } else {
            r matches Ok(at) && at.0.nanos == now_utc.nanos + d.total()
        },
        (None, None) => r matches Err(Error::Schedule(m)) && m@ == "no deadline configured"@,
        (None, Some(s)) => deadline_outcome(
            s@,
            now_local,
            match r {
                Ok(d) => Ok(d.0),
                Err(e) => Err(e),
            },
        ),
    }
}

/// Whether the span of a schedule can be added to the present.
pub open spec fn schedule_fits(sched: Schedule, now_utc: Timestamp, now_local: LocalNow) -> bool {
    match (sched.total_budget, sched.deadline) {
        (Some(d), _) => d.total() <= LONGEST ==> now_utc.nanos + d.total() <= LATEST,
        (None, Some(s)) => deadline_fits(s@, now_local.instant),
        (None, None) => true,
    }
}

/// The deadline of a schedule: its budget from now on, or what its deadline
/// text means.
pub fn compute_deadline(sched: &Schedule, now_utc: Timestamp, now_local: LocalNow) -> (r: Result<
    Deadline,
    Error,
>)
    requires
        now_utc.valid(),
        now_local.valid(),
        schedule_fits(*sched, now_utc, now_local),
    ensures
        schedule_outcome(*sched, now_utc, now_local, r),
        r matches Ok(at) ==> at.0.valid(),
{
    if let Some(d) = sched.total_budget {
        if d.as_nanos() > LONGEST {
            let mut m = text::owned("invalid total_budget: ");
            m.push_str(OUT_OF_RANGE);
            return schedule_error(m);
        }
        return Ok(Deadline(now_utc.later(&d)));
    }
    match &sched.deadline {
        None => schedule_error(text::owned("no deadline configured")),
        Some(s) => match parse_deadline_expr(s.as_str(), now_local) {
            Ok(at) => Ok(Deadline(at)),
            Err(e) => Err(e),
        },
    }
}

/// The deadline of a schedule, or nothing where its span cannot be read or
/// cannot be added to the present.
pub fn try_compute_deadline(sched: &Schedule, now_utc: Timestamp, now_local: LocalNow) -> (r:
    Option<Result<Deadline, Error>>)
    requires
        now_utc.valid(),
        now_local.valid(),
    ensures
        match r {
            Some(d) => schedule_fits(*sched, now_utc, now_local) && schedule_outcome(
                *sched,
                now_utc,
                now_local,
                d,
            ) && (d matches Ok(at) ==> at.0.valid()),
            None => !schedule_fits(*sched, now_utc, now_local),
        },
{
    match (sched.total_budget, &sched.deadline) {
        (Some(d), _) => {
            let total = d.as_nanos();
            if total <= LONGEST && now_utc.nanos + total as i128 > LATEST {
                return None;
            }
            Some(compute_deadline(sched, now_utc, now_local))
        },
        (None, None) => Some(compute_deadline(sched, now_utc, now_local)),
        (None, Some(s)) => match try_parse_deadline_expr(s.as_str(), now_local) {
            None => None,
            Some(Ok(at)) => Some(Ok(Deadline(at))),
            Some(Err(e)) => Some(Err(e)),
        },
    }
}

/// A bare clock time that is still ahead today means today, and one that is
/// past means tomorrow.
pub proof fn law_bare_time_rolls_over(
    h: u32,
    m: u32,
    today: Timestamp,
    tomorrow: Option<Timestamp>,
    now: Timestamp,
)
    ensures
        settled(Phrase::Next(h, m), Some(today), tomorrow, now) == if now.nanos < today.nanos {
            Some(today)
        } else {
            tomorrow
        },
{
}

/// A clock time means what it says. An hour from one to twelve and minutes, with
/// `am` behind them, are that minute of the first half of the day, which begins
/// at twelve; with `pm`, the same minute of the second half. White space before
/// the half makes no difference, and the minutes do not depend on it.
pub proof fn law_clock_keeps_hour_and_minute(
    hh: Seq<char>,
    mm: Seq<char>,
    gap: Seq<char>,
    h: nat,
    m: nat,
)
    requires
        hh.len() > 0 && text::all_digits(hh) && text::digits_value(hh) == h,
        mm.len() > 0 && text::all_digits(mm) && text::digits_value(mm) == m,
        forall|k: int| 0 <= k < gap.len() ==> text::is_white(#[trigger] gap[k]),
        1 <= h <= 12,
        m < 60,
    ensures
        clock_of(hh + ":"@ + mm + gap + "am"@) matches Some((x, y)) && x * 60 + y == (h % 12) * 60
            + m && y == m,
        clock_of(hh + ":"@ + mm + gap + "pm"@) matches Some((x, y)) && x * 60 + y == (h % 12) * 60
            + m + 720 && y == m,
{
    lemma_words_of_time();
    let body = hh + ":"@ + mm;
    lemma_clock_body(hh, mm, gap, "am"@);
    lemma_clock_body(hh, mm, gap, "pm"@);
    lemma_clock_parts(hh, mm);
    let s = hh + ":"@ + mm + gap + "pm"@;
    assert(s.skip(s.len() - 2) == "pm"@);
    assert(s.last() == 'm' && s[s.len() - 2] == 'p');
    if text::finishes_with(s, "am"@) {
        assert(s.skip(s.len() - 2)[0] == "am"@[0]);
    }
    let t = hh + ":"@ + mm + gap + "am"@;
    assert(t.skip(t.len() - 2) == "am"@);
}

/// An hour alone, with a half behind it, is that full hour; an hour and minutes
/// without a half are a time of the day of twenty-four hours.
pub proof fn law_clock_without_minutes_or_half(
    hh: Seq<char>,
    mm: Seq<char>,
    gap: Seq<char>,
    h: nat,
    m: nat,
)
    requires
        hh.len() > 0 && text::all_digits(hh) && text::digits_value(hh) == h,
        mm.len() > 0 && text::all_digits(mm) && text::digits_value(mm) == m,
        forall|k: int| 0 <= k < gap.len() ==> text::is_white(#[trigger] gap[k]),
        h <= u32::MAX,
        m <= u32::MAX,
    ensures
        clock_of(hh + gap + "am"@) == (if h <= 12 {
            Some(((h % 12) as nat, 0nat))
        } else {
            None
        }),
        clock_of(hh + gap + "pm"@) == (if h <= 12 {
            Some((((h % 12) + 12) as nat, 0nat))
        } else {
            None
        }),
        clock_of(hh) == (if h < 24 {
            Some((h, 0nat))
        } else {
            None
        }),
        clock_of(hh + ":"@ + mm) == (if h < 24 && m < 60 {
            Some((h, m))
        } else {
            None
        }),
{
    lemma_words_of_time();
    lemma_clock_parts(hh, mm);
    lemma_hour_body(hh, gap, "am"@);
    lemma_hour_body(hh, gap, "pm"@);
    let s = hh + gap + "pm"@;
    assert(s.skip(s.len() - 2) == "pm"@);
    if text::finishes_with(s, "am"@) {
        assert(s.skip(s.len() - 2)[0] == "am"@[0]);
    }
    let t = hh + gap + "am"@;
    assert(t.skip(t.len() - 2) == "am"@);
    lemma_digits_have_no_half(hh, hh.last());
    let u = hh + ":"@ + mm;
    assert(u.last() == mm.last());
    lemma_digits_have_no_half(u, mm.last());
    lemma_digit_ends(hh);
    lemma_digit_ends(mm);
    assert(u[0] == hh[0]);
    text::lemma_trimmed_whole(hh);
    text::lemma_trimmed_whole(u);
    text::lemma_find_first(hh, Seq::empty(), ':');
    assert(hh + Seq::<char>::empty() == hh);
    assert(hh.take(hh.len() as int) == hh);
}

proof fn lemma_words_of_time()
    ensures
        "am"@.len() == 2 && "am"@[0] == 'a' && "am"@[1] == 'm',
        "pm"@.len() == 2 && "pm"@[0] == 'p' && "pm"@[1] == 'm',
        ":"@.len() == 1 && ":"@[0] == ':',
{
    reveal_strlit("am");
    reveal_strlit("pm");
    reveal_strlit(":");
}

proof fn lemma_digit_ends(s: Seq<char>)
    requires
        s.len() > 0,
        text::all_digits(s),
    ensures
        !text::is_white(s[0]),
        !text::is_white(s.last()),
        s[0] != ':' && s[0] != '+',
        !s.contains(':'),
{
    assert(text::is_digit(s[0]));
    assert(text::is_digit(s[s.len() - 1]));
    if s.contains(':') {
        let k = choose|k: int| 0 <= k < s.len() && s[k] == ':';
        assert(text::is_digit(s[k]));
    }
}

proof fn lemma_digits_have_no_half(s: Seq<char>, last: char)
    requires
        s.len() > 0,
        s.last() == last,
        text::is_digit(last),
    ensures
        half_of(s) == Half::Unsaid,
{
    lemma_words_of_time();
    if text::finishes_with(s, "am"@) {
        assert(s.skip(s.len() - 2)[1] == s.last());
    }
    if text::finishes_with(s, "pm"@) {
        assert(s.skip(s.len() - 2)[1] == s.last());
    }
}

proof fn lemma_clock_parts(hh: Seq<char>, mm: Seq<char>)
    requires
        hh.len() > 0 && text::all_digits(hh),
        mm.len() > 0 && text::all_digits(mm),
    ensures
        text::find_char(hh + ":"@ + mm, ':') == hh.len(),
        (hh + ":"@ + mm).take(hh.len() as int) == hh,
        (hh + ":"@ + mm).skip(hh.len() as int + 1) == mm,
        text::read_nat(hh) == Some(text::digits_value(hh)),
        text::read_nat(mm) == Some(text::digits_value(mm)),
        text::is_digit(hh.last()) && text::is_digit(mm.last()),
{
    lemma_words_of_time();
    lemma_digit_ends(hh);
    lemma_digit_ends(mm);
    assert(hh + ":"@ + mm == hh + (":"@ + mm));
    text::lemma_find_first(hh, ":"@ + mm, ':');
    assert((hh + ":"@ + mm).take(hh.len() as int) == hh);
    assert((hh + ":"@ + mm).skip(hh.len() as int + 1) == mm);
    text::lemma_plain_digits(hh);
    text::lemma_plain_digits(mm);
    assert(text::is_digit(hh[hh.len() - 1]));
    assert(text::is_digit(mm[mm.len() - 1]));
}

proof fn lemma_body(body: Seq<char>, gap: Seq<char>, half: Seq<char>)
    requires
        body.len() > 0,
        !text::is_white(body[0]) && !text::is_white(body.last()),
        forall|k: int| 0 <= k < gap.len() ==> text::is_white(#[trigger] gap[k]),
        half.len() == 2,
    ensures
        text::trimmed(text::without_trailing_white((body + gap + half).take((body + gap + half).len() - 2)))
            == body,
    decreases gap.len(),
{
    let s = body + gap + half;
    assert(s.take(s.len() - 2) == body + gap);
    lemma_gap_goes(body, gap);
    text::lemma_trimmed_whole(body);
}

proof fn lemma_gap_goes(body: Seq<char>, gap: Seq<char>)
    requires
        body.len() > 0,
        !text::is_white(body.last()),
        forall|k: int| 0 <= k < gap.len() ==> text::is_white(#[trigger] gap[k]),
    ensures
        text::without_trailing_white(body + gap) == body,
    decreases gap.len(),
{
    let s = body + gap;
    if gap.len() > 0 {
        assert(s.last() == gap[gap.len() - 1]);
        assert(s.drop_last() == body + gap.drop_last());
        assert forall|k: int| 0 <= k < gap.drop_last().len() implies text::is_white(
            #[trigger] gap.drop_last()[k],
        ) by {
            assert(gap.drop_last()[k] == gap[k]);
        }
        lemma_gap_goes(body, gap.drop_last());
    } else {
        assert(s == body);
    }
}

proof fn lemma_clock_body(hh: Seq<char>, mm: Seq<char>, gap: Seq<char>, half: Seq<char>)
    requires
        hh.len() > 0 && text::all_digits(hh),
        mm.len() > 0 && text::all_digits(mm),
        forall|k: int| 0 <= k < gap.len() ==> text::is_white(#[trigger] gap[k]),
        half.len() == 2,
    ensures
        ({
            let s = hh + ":"@ + mm + gap + half;
            text::trimmed(text::without_trailing_white(s.take(s.len() - 2))) == hh + ":"@ + mm
        }),
{
    lemma_words_of_time();
    let body = hh + ":"@ + mm;
    lemma_digit_ends(hh);
    lemma_digit_ends(mm);
    assert(body[0] == hh[0]);
    assert(body.last() == mm.last());
    lemma_body(body, gap, half);
}

proof fn lemma_hour_body(hh: Seq<char>, gap: Seq<char>, half: Seq<char>)
    requires
        hh.len() > 0 && text::all_digits(hh),
        forall|k: int| 0 <= k < gap.len() ==> text::is_white(#[trigger] gap[k]),
        half.len() == 2,
    ensures
        ({
            let s = hh + gap + half;
            text::trimmed(text::without_trailing_white(s.take(s.len() - 2))) == hh
        }),
{
    lemma_digit_ends(hh);
    lemma_body(hh, gap, half);
}

/// A deadline phrase means the day that it names: `today` and `tomorrow` that
/// day's midnight or the time told behind them, a bare time the next such time.
pub proof fn law_phrase_names_its_day(word: Seq<char>, h: nat, m: nat)
    requires
        time_of(word) == Some((h, m)),
        word != "today"@ && word != "tomorrow"@,
    ensures
        phrase_of(seq!["today"@]) == Some(Phrase::Today(0, 0)),
        phrase_of(seq!["tomorrow"@]) == Some(Phrase::Tomorrow(0, 0)),
        phrase_of(seq!["today"@, word]) == Some(Phrase::Today(h as u32, m as u32)),
        phrase_of(seq!["tomorrow"@, word]) == Some(Phrase::Tomorrow(h as u32, m as u32)),
        phrase_of(seq![word]) == Some(Phrase::Next(h as u32, m as u32)),
        phrase_of(Seq::empty()) is None,
{
    reveal_strlit("today");
    reveal_strlit("tomorrow");
    assert("today"@.len() != "tomorrow"@.len());
}

/// More than two words, and a first word of two that names no day, are no
/// phrase; nor is a time that cannot be read.
pub proof fn law_other_phrases_are_refused(words: Seq<Seq<char>>)
    ensures
        words.len() > 2 ==> phrase_of(words) is None,
        words.len() == 2 && words[0] != "today"@ && words[0] != "tomorrow"@ ==> phrase_of(words)
            is None,
        words.len() == 2 && time_of(words[1]) is None ==> phrase_of(words) is None,
        words.len() == 1 && words[0] != "today"@ && words[0] != "tomorrow"@ && time_of(words[0])
            is None ==> phrase_of(words) is None,
{
}

/// A day holds twenty-four hours of sixty minutes of sixty seconds.
pub proof fn law_wall_clock_counts_seconds(day: int, h: int, m: int)
    ensures
        wall_seconds(day + 1, h, m) == wall_seconds(day, h, m) + 24 * 60 * 60,
        wall_seconds(day, h + 1, m) == wall_seconds(day, h, m) + 60 * 60,
        wall_seconds(day, h, m + 1) == wall_seconds(day, h, m) + 60,
        wall_seconds(day, 24, 0) == wall_seconds(day + 1, 0, 0),
        wall_seconds(719_163, 0, 0) == 0,
{
}

/// A phrase comes to the time that it means: today's for `today`, tomorrow's for
/// `tomorrow`; a bare time comes to today's where that is still to come.
pub proof fn law_phrase_comes_to_its_time(
    h: u32,
    m: u32,
    today: Timestamp,
    tomorrow: Timestamp,
    now: Timestamp,
)
    ensures
        settled(Phrase::Today(h, m), Some(today), Some(tomorrow), now) == Some(today),
        settled(Phrase::Tomorrow(h, m), Some(today), Some(tomorrow), now) == Some(tomorrow),
        now.nanos < today.nanos ==> settled(Phrase::Next(h, m), Some(today), Some(tomorrow), now)
            == Some(today),
        now.nanos >= today.nanos ==> settled(Phrase::Next(h, m), Some(today), Some(tomorrow), now)
            == Some(tomorrow),
        Phrase::Today(h, m).clock() == (h, m),
        Phrase::Tomorrow(h, m).clock() == (h, m),
        Phrase::Next(h, m).clock() == (h, m),
{
}

/// A deadline that is a span lies that span after now; one that is a timestamp
/// is that instant; an empty one is refused. White space round it makes no
/// difference.
pub proof fn law_deadline_means_what_it_says(
    before: Seq<char>,
    s: Seq<char>,
    after: Seq<char>,
    now: LocalNow,
    r: Result<Timestamp, Error>,
)
    requires
        forall|k: int| 0 <= k < before.len() ==> text::is_white(#[trigger] before[k]),
        forall|k: int| 0 <= k < after.len() ==> text::is_white(#[trigger] after[k]),
        s.len() > 0 && !text::is_white(s[0]) && !text::is_white(s.last()),
        deadline_outcome(before + s + after, now, r),
    ensures
        spoken_span(s) matches Some(d) ==> d.0 * 1_000_000_000 + d.1
            <= 9_223_372_036_854_775_807_000_000 ==> (r matches Ok(at) && at.nanos
            == now.instant.nanos + d.0 * 1_000_000_000 + d.1),
        spoken_span(s) matches Some(d) ==> d.0 * 1_000_000_000 + d.1
            > 9_223_372_036_854_775_807_000_000 ==> r is Err,
        spoken_span(s) is None ==> (rfc3339_instant(s) matches Some(t) ==> (r matches Ok(at)
            && at.nanos == t.0 * 1_000_000_000 + t.1)),
{
    text::law_trim_ignores_white_around(before, s, after);
}

/// The budget of a schedule, where there is one, is counted from now; without a
/// budget and without a deadline there is no schedule.
pub proof fn law_budget_is_counted_from_now(
    sched: Schedule,
    now_utc: Timestamp,
    now_local: LocalNow,
    r: Result<Deadline, Error>,
)
    requires
        schedule_outcome(sched, now_utc, now_local, r),
    ensures
        sched.total_budget matches Some(d) ==> d.total() <= 9_223_372_036_854_775_807_000_000 ==> (
        r matches Ok(at) && at.0.nanos == now_utc.nanos + d.secs * 1_000_000_000 + d.nanos),
        sched.total_budget is None && sched.deadline is None ==> r is Err,
{
}

/// A deadline that is neither a span, nor a timestamp, nor a phrase is refused
/// by name. One that is a phrase lies at the clock time that it tells, less than
/// a day from where UTC would put it: today for `today`, tomorrow for
/// `tomorrow`, and on one of the two days for a bare time, never in the past.
pub proof fn law_phrase_deadline_is_on_its_day(
    s: Seq<char>,
    now: LocalNow,
    r: Result<Timestamp, Error>,
)
    requires
        s.len() > 0 && !text::is_white(s[0]) && !text::is_white(s.last()),
        spoken_span(s) is None,
        rfc3339_instant(s) is None,
        deadline_outcome(s, now, r),
    ensures
        ({
            let p = phrase_of(text::words_of(text::lowered(s)));
            let close = |at: Timestamp, day: int, h: u32, m: u32|
                -86_400_000_000_000 < wall_seconds(day, h as int, m as int) * 1_000_000_000
                    - at.nanos < 86_400_000_000_000;
            &&& p is None ==> (r matches Err(Error::Schedule(m)) && text::begins_with(
                m@,
                "unrecognized deadline "@ + text::quoted(s),
            ))
            &&& p matches Some(Phrase::Today(h, m)) ==> (r matches Ok(at) ==> close(
                at,
                now.day as int,
                h,
                m,
            ))
            &&& p matches Some(Phrase::Tomorrow(h, m)) ==> (r matches Ok(at) ==> close(
                at,
                now.day + 1,
                h,
                m,
            ))
            &&& p matches Some(Phrase::Next(h, m)) ==> (r matches Ok(at) ==> (at.nanos
                > now.instant.nanos && close(at, now.day as int, h, m)) || close(
                at,
                now.day + 1,
                h,
                m,
            ))
        }),
{
    text::lemma_trimmed_whole(s);
    match phrase_of(text::words_of(text::lowered(s))) {
        None => {
            let head = "unrecognized deadline "@ + text::quoted(s);
            let end =
                "; expected a duration (\"4h\"), an RFC3339 timestamp, or a phrase like \"tomorrow 9am\""@;
            text::lemma_starts(head, end);
        },
        Some(p) => {
            let (today, tomorrow) = choose|today: Option<Timestamp>, tomorrow: Option<Timestamp>|
                {
                    &&& plausible(today, now.day as int, p.clock())
                    &&& plausible(tomorrow, now.day + 1, p.clock())
                    &&& match #[trigger] settled(p, today, tomorrow, now.instant) {
                        Some(at) => r == Ok::<Timestamp, Error>(at),
                        None => r matches Err(Error::Schedule(m)) && m@ == unrecognized(s),
                    }
                };
            assert(p.clock() == (match p {
                Phrase::Today(h, m) => (h, m),
                Phrase::Tomorrow(h, m) => (h, m),
                Phrase::Next(h, m) => (h, m),
            }));
        },
    }
}

} // verus!
