//! The remaining time, split into days, hours, minutes, seconds and tenths,
//! and written as one frame of the event stream.

use crate::moment::{in_reach, span, Moment};
use vstd::arithmetic::div_mod::{
    lemma_fundamental_div_mod, lemma_fundamental_div_mod_converse, lemma_mod_breakdown,
    lemma_mod_mod,
};
use vstd::prelude::*;
use vstd::string::StringExecFns;

verus! {

/// Nanoseconds in a tenth of a second.
pub const NANOS_PER_TENTH: i64 = 100_000_000;

/// Nanoseconds in a second.
pub const NANOS_PER_SECOND: i64 = 1_000_000_000;

/// Nanoseconds in a minute.
pub const NANOS_PER_MINUTE: i64 = 60_000_000_000;

/// Nanoseconds in an hour.
pub const NANOS_PER_HOUR: i64 = 3_600_000_000_000;

/// Nanoseconds in a day.
pub const NANOS_PER_DAY: i64 = 86_400_000_000_000;

/// How a counter is written, in the notation of C's `printf`: the days as
/// they are, then hours, minutes and seconds filled with a zero to two places,
/// then the tenths.
pub const COUNTER_FORMAT: &'static str = "event: %d days %02d:%02d:%02d,%d";

/// The five numbers of a countdown, as mathematical integers.
pub struct Parts {
    pub days: int,
    pub hours: int,
    pub minutes: int,
    pub seconds: int,
    pub tenths: int,
}

/// The five numbers of a countdown.
#[derive(Clone, Copy, Debug, PartialEq, Eq, Structural)]
pub struct Countdown {
    pub days: i64,
    pub hours: i64,
    pub minutes: i64,
    pub seconds: i64,
    pub tenths: i64,
}

impl View for Countdown {
    type V = Parts;

    open spec fn view(&self) -> Parts {
        Parts {
            days: self.days as int,
            hours: self.hours as int,
            minutes: self.minutes as int,
            seconds: self.seconds as int,
            tenths: self.tenths as int,
        }
    }
}

/// The distance of `n` from zero.
pub open spec fn magnitude(n: int) -> int {
    if n < 0 {
        -n
    } else {
        n
    }
}

/// `amount`, with the sign of `n` where `n` is negative.
pub open spec fn signed_as(n: int, amount: int) -> int {
    if n < 0 {
        -amount
    } else {
        amount
    }
}

/// `n` cut to a multiple of `unit`, towards zero.
pub open spec fn cut_to(n: int, unit: int) -> int {
    signed_as(n, (magnitude(n) / unit) * unit)
}

/// The numbers of a countdown over `nanos` nanoseconds: the whole days in
/// the distance of `nanos` from zero, the hours of the day, the minutes of the
/// hour, the seconds of the minute and the tenths of the second that the rest
/// comes to, each of them negative where `nanos` is. Nothing is rounded and
/// nothing is clamped.
pub open spec fn parts_of(nanos: int) -> Parts {
    let m = magnitude(nanos);
    Parts {
        days: signed_as(nanos, m / (NANOS_PER_DAY as int)),
        hours: signed_as(nanos, (m / (NANOS_PER_HOUR as int)) % 24),
        minutes: signed_as(nanos, (m / (NANOS_PER_MINUTE as int)) % 60),
        seconds: signed_as(nanos, (m / (NANOS_PER_SECOND as int)) % 60),
        tenths: signed_as(nanos, (m / (NANOS_PER_TENTH as int)) % 10),
    }
}

/// The nanoseconds that the five numbers stand for.
pub open spec fn nanos_of(parts: Parts) -> int {
    parts.days * NANOS_PER_DAY + parts.hours * NANOS_PER_HOUR + parts.minutes * NANOS_PER_MINUTE
        + parts.seconds * NANOS_PER_SECOND + parts.tenths * NANOS_PER_TENTH
}

/// Whether hours, minutes, seconds and tenths are all zero or more.
pub open spec fn rest_not_negative(parts: Parts) -> bool {
    parts.hours >= 0 && parts.minutes >= 0 && parts.seconds >= 0 && parts.tenths >= 0
}

/// The numbers of a countdown lie in the ranges of a clock, and share the
/// sign of the nanoseconds they were split from.
pub proof fn parts_in_range(nanos: int)
    ensures
        -24 < parts_of(nanos).hours < 24,
        -60 < parts_of(nanos).minutes < 60,
        -60 < parts_of(nanos).seconds < 60,
        -10 < parts_of(nanos).tenths < 10,
        nanos >= 0 ==> parts_of(nanos).days >= 0 && rest_not_negative(parts_of(nanos)),
        nanos <= 0 ==> parts_of(nanos).days <= 0 && parts_of(nanos).hours <= 0 && parts_of(
            nanos,
        ).minutes <= 0 && parts_of(nanos).seconds <= 0 && parts_of(nanos).tenths <= 0,
{
}

/// In what is left of `m` after the whole groups of `count` units, the whole
/// units are those of `m` counted modulo `count`, and what is left after them
/// is what is left of `m` after its whole units.
proof fn lemma_units_of_rest(m: int, unit: int, count: int)
    requires
        0 <= m,
        0 < unit,
        0 < count,
    ensures
        (m % (unit * count)) / unit == (m / unit) % count,
        (m % (unit * count)) % unit == m % unit,
{
    let q = (m / unit) % count;
    let r = m % unit;
    lemma_mod_breakdown(m, unit, count);
    lemma_mod_mod(m, unit, count);
    lemma_fundamental_div_mod_converse(m % (unit * count), unit, q, r);
}

/// What dividing and subtracting, unit by unit from the day down, leaves of a
/// count `m` of nanoseconds that is not negative.
proof fn lemma_split_steps(m: int)
    requires
        0 <= m,
    ensures
        ({
            let day = NANOS_PER_DAY as int;
            let hour = NANOS_PER_HOUR as int;
            let minute = NANOS_PER_MINUTE as int;
            let second = NANOS_PER_SECOND as int;
            let tenth = NANOS_PER_TENTH as int;
            &&& (m % day) / hour == (m / hour) % 24
            &&& (m % day) % hour == m % hour
            &&& (m % hour) / minute == (m / minute) % 60
            &&& (m % hour) % minute == m % minute
            &&& (m % minute) / second == (m / second) % 60
            &&& (m % minute) % second == m % second
            &&& (m % second) / tenth == (m / tenth) % 10
            &&& (m % second) % tenth == m % tenth
        }),
{
    lemma_units_of_rest(m, NANOS_PER_HOUR as int, 24);
    lemma_units_of_rest(m, NANOS_PER_MINUTE as int, 60);
    lemma_units_of_rest(m, NANOS_PER_SECOND as int, 60);
    lemma_units_of_rest(m, NANOS_PER_TENTH as int, 10);
}

/// Putting the five numbers back together gives the nanoseconds they were
/// split from, cut to a tenth of a second towards zero.
pub proof fn parts_add_up(nanos: int)
    ensures
        nanos_of(parts_of(nanos)) == cut_to(nanos, NANOS_PER_TENTH as int),
{
    let m = magnitude(nanos);
    lemma_split_steps(m);
    lemma_fundamental_div_mod(m, NANOS_PER_DAY as int);
    lemma_fundamental_div_mod(m % (NANOS_PER_DAY as int), NANOS_PER_HOUR as int);
    lemma_fundamental_div_mod(m % (NANOS_PER_HOUR as int), NANOS_PER_MINUTE as int);
    lemma_fundamental_div_mod(m % (NANOS_PER_MINUTE as int), NANOS_PER_SECOND as int);
    lemma_fundamental_div_mod(m % (NANOS_PER_SECOND as int), NANOS_PER_TENTH as int);
    lemma_fundamental_div_mod(m, NANOS_PER_TENTH as int);
}

impl Countdown {
    /// Splits `nanos` nanoseconds into the five numbers by dividing and
    /// subtracting, unit by unit from the day down.
    pub fn split(nanos: i64) -> (countdown: Countdown)
        ensures
            countdown@ == parts_of(nanos as int),
            nanos_of(countdown@) == cut_to(nanos as int, NANOS_PER_TENTH as int),
    {
        proof {
            lemma_split_steps(magnitude(nanos as int));
            parts_add_up(nanos as int);
        }
        let days = nanos / NANOS_PER_DAY;
        let rest = nanos - days * NANOS_PER_DAY;
        let hours = rest / NANOS_PER_HOUR;
        let rest = rest - hours * NANOS_PER_HOUR;
        let minutes = rest / NANOS_PER_MINUTE;
        let rest = rest - minutes * NANOS_PER_MINUTE;
        let seconds = rest / NANOS_PER_SECOND;
        let rest = rest - seconds * NANOS_PER_SECOND;
        let tenths = rest / NANOS_PER_TENTH;
        Countdown { days, hours, minutes, seconds, tenths }
    }
}

/// The character of the decimal digit `d`.
pub open spec fn digit(d: int) -> char {
    ('0' as int + d) as char
}

/// The decimal digits of `n`, the highest first, with no leading zero but
/// for `0` itself.
pub open spec fn digits(n: nat) -> Seq<char>
    decreases n,
{
    if n < 10 {
        seq![digit(n as int)]
    } else {
        digits(n / 10).push(digit((n % 10) as int))
    }
}

/// `v` in decimal, with a `-` before the digits where it is negative.
pub open spec fn decimal(v: int) -> Seq<char> {
    if v < 0 {
        seq!['-'] + digits((-v) as nat)
    } else {
        digits(v as nat)
    }
}

/// `v` in decimal, filled to two places: a single digit gets a zero before
/// it, and nothing else is changed.
pub open spec fn decimal_two(v: int) -> Seq<char> {
    if 0 <= v < 10 {
        seq!['0'] + digits(v as nat)
    } else {
        decimal(v)
    }
}

/// The text of a counter with the five numbers given.
pub open spec fn counter_text(
    days: int,
    hours: int,
    minutes: int,
    seconds: int,
    tenths: int,
) -> Seq<char> {
    "event: "@ + decimal(days) + " days "@ + decimal_two(hours) + ":"@ + decimal_two(minutes)
        + ":"@ + decimal_two(seconds) + ","@ + decimal(tenths)
}

/// The text of the counter over `nanos` nanoseconds.
pub open spec fn counter_of(nanos: int) -> Seq<char> {
    let parts = parts_of(nanos);
    counter_text(parts.days, parts.hours, parts.minutes, parts.seconds, parts.tenths)
}

/// The frame that carries `counter`: an event named `uptime` whose data is a
/// JSON object with the counter under `time`, closed by an empty line.
pub open spec fn frame_text(counter: Seq<char>) -> Seq<char> {
    "event: uptime\ndata: {\"time\": \""@ + counter + "\"}\n\n"@
}

/// The frame sent at `now` of a countdown to `target`.
pub open spec fn frame_at(target: Moment, now: Moment) -> Seq<char> {
    frame_text(counter_of(span(target, now)))
}

/// `sprintf::PrintfError`, the reasons for which `sprintf` gives up.
#[verifier::external_type_specification]
#[verifier::external_body]
pub struct ExPrintfError(sprintf::PrintfError);

/// `sprintf::vsprintf` with the format of a counter and five numbers. The
/// format holds plain text and five conversions, three of them `%02d`, and
/// each takes one number: `vsprintf` succeeds, copies the plain text, and
/// writes each number in decimal, a `-` first where it is negative; under
/// `%02d` a number from 0 to 9 gets a zero before its digit.
#[verifier::external_body]
fn vsprintf_counter(
    format: &str,
    days: i64,
    hours: i64,
    minutes: i64,
    seconds: i64,
    tenths: i64,
) -> (written: Result<String, sprintf::PrintfError>)
    requires
        format@ == COUNTER_FORMAT@,
        days > i64::MIN,
        hours > i64::MIN,
        minutes > i64::MIN,
        seconds > i64::MIN,
        tenths > i64::MIN,
    ensures
        written is Ok,
        written->Ok_0@ == counter_text(
            days as int,
            hours as int,
            minutes as int,
            seconds as int,
            tenths as int,
        ),
{
    let numbers: [&dyn sprintf::Printf; 5] = [&days, &hours, &minutes, &seconds, &tenths];
    sprintf::vsprintf(format, &numbers)
}

/// Writes the counter of a countdown that has `nanos` nanoseconds to go.
pub fn counter_for(nanos: i64) -> (counter: String)
    ensures
        counter@ == counter_of(nanos as int),
{
    let c = Countdown::split(nanos);
    proof {
        parts_in_range(nanos as int);
    }
    match vsprintf_counter(COUNTER_FORMAT, c.days, c.hours, c.minutes, c.seconds, c.tenths) {
        Ok(text) => text,
        // The format is well formed and takes five integers: never reached.
        Err(_) => String::new(),
    }
}

/// Writes the counter of the countdown to `freedom` as it stands at `now`.
pub fn calc_counter(freedom: &Moment, now: &Moment) -> (counter: String)
    requires
        in_reach(span(*freedom, *now)),
    ensures
        counter@ == counter_of(span(*freedom, *now)),
{
    match freedom.nanos_since(now) {
        Some(nanos) => counter_for(nanos),
        // The time left is in reach: never reached.
        None => String::new(),
    }
}

/// Puts `counter` into a frame of the event stream.
pub fn frame_around(counter: &str) -> (frame: String)
    ensures
        frame@ == frame_text(counter@),
{
    let mut frame = String::from_str("event: uptime\ndata: {\"time\": \"");
    frame.append(counter);
    frame.append("\"}\n\n");
    frame
}

/// Writes the frame sent at `now` of a countdown to `target`.
pub fn frame(target: &Moment, now: &Moment) -> (frame: String)
    requires
        in_reach(span(*target, *now)),
    ensures
        frame@ == frame_at(*target, *now),
{
    let counter = calc_counter(target, now);
    frame_around(counter.as_str())
}

/// Whether `c` is one of the ten decimal digits.
pub open spec fn is_digit(c: char) -> bool {
    '0' <= c <= '9'
}

/// Whether `s` holds decimal digits only.
pub open spec fn all_digits(s: Seq<char>) -> bool {
    forall|i: int| 0 <= i < s.len() ==> is_digit(#[trigger] s[i])
}

/// Whether the six pieces can fill a frame: `sign` is empty or one `-`,
/// `days` is one digit or more, `hours`, `minutes` and `seconds` are two
/// digits each, and `tenths` is one digit.
pub open spec fn fills_frame(
    sign: Seq<char>,
    days: Seq<char>,
    hours: Seq<char>,
    minutes: Seq<char>,
    seconds: Seq<char>,
    tenths: Seq<char>,
) -> bool {
    &&& sign == Seq::<char>::empty() || sign == seq!['-']
    &&& days.len() >= 1 && all_digits(days)
    &&& hours.len() == 2 && all_digits(hours)
    &&& minutes.len() == 2 && all_digits(minutes)
    &&& seconds.len() == 2 && all_digits(seconds)
    &&& tenths.len() == 1 && all_digits(tenths)
}

/// The frame with the six pieces in their places.
pub open spec fn frame_of_pieces(
    sign: Seq<char>,
    days: Seq<char>,
    hours: Seq<char>,
    minutes: Seq<char>,
    seconds: Seq<char>,
    tenths: Seq<char>,
) -> Seq<char> {
    frame_text(
        "event: "@ + sign + days + " days "@ + hours + ":"@ + minutes + ":"@ + seconds + ","@
            + tenths,
    )
}

/// Whether `frame` reads
/// `event: uptime\ndata: {"time": "event: D days HH:MM:SS,T"}\n\n`
/// with `D` one digit or more, a `-` before them or not, and `H`, `M`, `S`
/// and `T` one digit each.
pub open spec fn well_shaped(frame: Seq<char>) -> bool {
    exists|
        sign: Seq<char>,
        days: Seq<char>,
        hours: Seq<char>,
        minutes: Seq<char>,
        seconds: Seq<char>,
        tenths: Seq<char>,
    |
        #[trigger] fills_frame(sign, days, hours, minutes, seconds, tenths) && frame
            == frame_of_pieces(sign, days, hours, minutes, seconds, tenths)
}

/// The digits of a number are digits, and there is at least one; below ten
/// there is one, and from ten to ninety-nine there are two.
pub proof fn digits_are_digits(n: nat)
    ensures
        digits(n).len() >= 1,
        all_digits(digits(n)),
        n < 10 ==> digits(n).len() == 1,
        10 <= n < 100 ==> digits(n).len() == 2,
    decreases n,
{
    if n >= 10 {
        digits_are_digits(n / 10);
    }
}

/// Zero padding: in the frame of a countdown whose hours, minutes, seconds
/// and tenths are not negative, the hours, minutes and seconds are written
/// with two digits each and the tenths with one.
pub proof fn zero_padding(target: Moment, now: Moment)
    requires
        rest_not_negative(parts_of(span(target, now))),
    ensures
        decimal_two(parts_of(span(target, now)).hours).len() == 2,
        all_digits(decimal_two(parts_of(span(target, now)).hours)),
        decimal_two(parts_of(span(target, now)).minutes).len() == 2,
        all_digits(decimal_two(parts_of(span(target, now)).minutes)),
        decimal_two(parts_of(span(target, now)).seconds).len() == 2,
        all_digits(decimal_two(parts_of(span(target, now)).seconds)),
        decimal(parts_of(span(target, now)).tenths).len() == 1,
        all_digits(decimal(parts_of(span(target, now)).tenths)),
{
    let nanos = span(target, now);
    let parts = parts_of(nanos);
    parts_in_range(nanos);
    lemma_two_places(parts.hours);
    lemma_two_places(parts.minutes);
    lemma_two_places(parts.seconds);
    digits_are_digits(parts.tenths as nat);
}

/// A number from 0 to 99 filled to two places is two digits.
proof fn lemma_two_places(v: int)
    requires
        0 <= v < 100,
    ensures
        decimal_two(v).len() == 2,
        all_digits(decimal_two(v)),
{
    digits_are_digits(v as nat);
}

/// Round trip: the five numbers in the frame sent at `now`, each times the
/// nanoseconds of its unit, add up to the nanoseconds from `now` until
/// `target`, cut to a tenth of a second towards zero.
pub proof fn round_trip(target: Moment, now: Moment)
    ensures
        nanos_of(parts_of(span(target, now))) == cut_to(
            span(target, now),
            NANOS_PER_TENTH as int,
        ),
        frame_at(target, now) == frame_text(
            counter_text(
                parts_of(span(target, now)).days,
                parts_of(span(target, now)).hours,
                parts_of(span(target, now)).minutes,
                parts_of(span(target, now)).seconds,
                parts_of(span(target, now)).tenths,
            ),
        ),
{
    parts_add_up(span(target, now));
}

/// Frame shape: the frame of a countdown whose hours, minutes, seconds and
/// tenths are not negative is well shaped. That is so of every countdown to
/// a moment not yet passed.
pub proof fn frame_shape(target: Moment, now: Moment)
    requires
        rest_not_negative(parts_of(span(target, now))),
    ensures
        well_shaped(frame_at(target, now)),
{
    let nanos = span(target, now);
    let parts = parts_of(nanos);
    zero_padding(target, now);
    let sign = if parts.days < 0 {
        seq!['-']
    } else {
        Seq::<char>::empty()
    };
    let days = digits(magnitude(parts.days) as nat);
    let hours = decimal_two(parts.hours);
    let minutes = decimal_two(parts.minutes);
    let seconds = decimal_two(parts.seconds);
    let tenths = decimal(parts.tenths);
    digits_are_digits(magnitude(parts.days) as nat);
    assert("event: "@ + decimal(parts.days) == "event: "@ + sign + days);
    assert(fills_frame(sign, days, hours, minutes, seconds, tenths));
}

/// Two texts that are equal after the same start are equal.
proof fn lemma_same_start(start: Seq<char>, a: Seq<char>, b: Seq<char>)
    requires
        start + a == start + b,
    ensures
        a == b,
{
    assert(a =~= (start + a).subrange(start.len() as int, (start + a).len() as int));
    assert(b =~= (start + b).subrange(start.len() as int, (start + b).len() as int));
}

/// Two texts that are equal before the same end are equal.
proof fn lemma_same_end(a: Seq<char>, b: Seq<char>, end: Seq<char>)
    requires
        a + end == b + end,
    ensures
        a == b,
{
    assert(a =~= (a + end).subrange(0, a.len() as int));
    assert(b =~= (b + end).subrange(0, b.len() as int));
}

/// Whether `s` holds no blank.
spec fn no_blank(s: Seq<char>) -> bool {
    forall|i: int| 0 <= i < s.len() ==> (#[trigger] s[i]) != ' '
}

/// A text is cut at its first blank in one way only.
proof fn lemma_first_blank(a: Seq<char>, rest_a: Seq<char>, b: Seq<char>, rest_b: Seq<char>)
    requires
        no_blank(a),
        no_blank(b),
        rest_a.len() > 0 && rest_a[0] == ' ',
        rest_b.len() > 0 && rest_b[0] == ' ',
        a + rest_a == b + rest_b,
    ensures
        a == b,
        rest_a == rest_b,
{
    if a.len() < b.len() {
        assert((a + rest_a)[a.len() as int] == ' ');
    }
    if b.len() < a.len() {
        assert((b + rest_b)[b.len() as int] == ' ');
    }
    assert(a =~= (a + rest_a).subrange(0, a.len() as int));
    assert(b =~= (b + rest_b).subrange(0, b.len() as int));
    lemma_same_start(a, rest_a, rest_b);
}

/// A clock from four pieces of text.
spec fn clock_of(
    hours: Seq<char>,
    minutes: Seq<char>,
    seconds: Seq<char>,
    tenths: Seq<char>,
) -> Seq<char> {
    hours + ":"@ + minutes + ":"@ + seconds + ","@ + tenths
}

/// A counter from the text of its days and its clock.
spec fn counter_around(days: Seq<char>, clock: Seq<char>) -> Seq<char> {
    "event: "@ + (days + (" days "@ + clock))
}

/// A counter written piece after piece is the counter around its days and
/// its clock.
proof fn lemma_counter_regrouped(
    days: Seq<char>,
    hours: Seq<char>,
    minutes: Seq<char>,
    seconds: Seq<char>,
    tenths: Seq<char>,
)
    ensures
        "event: "@ + days + " days "@ + hours + ":"@ + minutes + ":"@ + seconds + ","@ + tenths
            == counter_around(days, clock_of(hours, minutes, seconds, tenths)),
{
    let start = "event: "@;
    let word = " days "@;
    let colon = ":"@;
    let comma = ","@;
    assert(start + days + word + hours + colon + minutes + colon + seconds + comma + tenths
        =~= start + (days + (word + (hours + colon + minutes + colon + seconds + comma
        + tenths))));
}

/// Two counters that are equal, with no blank in the days of either, have
/// the same days and the same clock.
proof fn lemma_counter_cut(
    days_a: Seq<char>,
    clock_a: Seq<char>,
    days_b: Seq<char>,
    clock_b: Seq<char>,
)
    requires
        no_blank(days_a),
        no_blank(days_b),
        counter_around(days_a, clock_a) == counter_around(days_b, clock_b),
    ensures
        days_a == days_b,
        clock_a == clock_b,
{
    reveal_strlit(" days ");
    lemma_same_start("event: "@, days_a + (" days "@ + clock_a), days_b + (" days "@ + clock_b));
    lemma_first_blank(days_a, " days "@ + clock_a, days_b, " days "@ + clock_b);
    lemma_same_start(" days "@, clock_a, clock_b);
}

/// In a clock of two digits, two digits, two digits and one digit, the
/// first character of each piece is a digit, at the places 0, 3, 6 and 9.
proof fn lemma_clock_of_digits(
    hours: Seq<char>,
    minutes: Seq<char>,
    seconds: Seq<char>,
    tenths: Seq<char>,
)
    requires
        hours.len() == 2 && all_digits(hours),
        minutes.len() == 2 && all_digits(minutes),
        seconds.len() == 2 && all_digits(seconds),
        tenths.len() == 1 && all_digits(tenths),
    ensures
        is_digit(clock_of(hours, minutes, seconds, tenths)[0]),
        is_digit(clock_of(hours, minutes, seconds, tenths)[3]),
        is_digit(clock_of(hours, minutes, seconds, tenths)[6]),
        is_digit(clock_of(hours, minutes, seconds, tenths)[9]),
{
    reveal_strlit(":");
    reveal_strlit(",");
}

/// A clock of numbers that are zero or less, one of them less, has a `-` at
/// one of the places 0, 3, 6 and 9.
proof fn lemma_clock_with_minus(hours: int, minutes: int, seconds: int, tenths: int)
    requires
        hours <= 0 && minutes <= 0 && seconds <= 0 && tenths <= 0,
        hours < 0 || minutes < 0 || seconds < 0 || tenths < 0,
    ensures
        ({
            let clock = clock_of(
                decimal_two(hours),
                decimal_two(minutes),
                decimal_two(seconds),
                decimal(tenths),
            );
            ||| clock[0] == '-'
            ||| clock[3] == '-'
            ||| clock[6] == '-'
            ||| clock[9] == '-'
        }),
{
    reveal_strlit(":");
    reveal_strlit(",");
    digits_are_digits(0);
}

/// The frame of a countdown with a negative number among its hours, minutes,
/// seconds and tenths is not well shaped: [`frame_shape`] leaves out no more
/// than it must.
pub proof fn frame_shape_lost(target: Moment, now: Moment)
    requires
        !rest_not_negative(parts_of(span(target, now))),
    ensures
        !well_shaped(frame_at(target, now)),
{
    let nanos = span(target, now);
    let parts = parts_of(nanos);
    parts_in_range(nanos);
    if well_shaped(frame_at(target, now)) {
        let (sign, days, hours, minutes, seconds, tenths) = choose|
            sign: Seq<char>,
            days: Seq<char>,
            hours: Seq<char>,
            minutes: Seq<char>,
            seconds: Seq<char>,
            tenths: Seq<char>,
        |
            #[trigger] fills_frame(sign, days, hours, minutes, seconds, tenths) && frame_at(
                target,
                now,
            ) == frame_of_pieces(sign, days, hours, minutes, seconds, tenths);
        let written = counter_of(nanos);
        let fitted = "event: "@ + sign + days + " days "@ + hours + ":"@ + minutes + ":"@ + seconds
            + ","@ + tenths;
        let start = "event: uptime\ndata: {\"time\": \""@;
        let end = "\"}\n\n"@;
        lemma_same_end(start + written, start + fitted, end);
        lemma_same_start(start, written, fitted);
        let clock = clock_of(
            decimal_two(parts.hours),
            decimal_two(parts.minutes),
            decimal_two(parts.seconds),
            decimal(parts.tenths),
        );
        let shaped = clock_of(hours, minutes, seconds, tenths);
        lemma_counter_regrouped(
            decimal(parts.days),
            decimal_two(parts.hours),
            decimal_two(parts.minutes),
            decimal_two(parts.seconds),
            decimal(parts.tenths),
        );
        lemma_counter_regrouped(sign + days, hours, minutes, seconds, tenths);
        assert("event: "@ + sign + days == "event: "@ + (sign + days));
        digits_are_digits(magnitude(parts.days) as nat);
        lemma_counter_cut(decimal(parts.days), clock, sign + days, shaped);
        lemma_clock_with_minus(parts.hours, parts.minutes, parts.seconds, parts.tenths);
        lemma_clock_of_digits(hours, minutes, seconds, tenths);
    }
}

/// Of a countdown with a negative number among its hours, minutes, seconds
/// and tenths, one of the four is not written as two digits, or the tenths
/// as one: [`zero_padding`] leaves out no more than it must.
pub proof fn zero_padding_lost(target: Moment, now: Moment)
    requires
        !rest_not_negative(parts_of(span(target, now))),
    ensures
        !({
            let parts = parts_of(span(target, now));
            &&& decimal_two(parts.hours).len() == 2 && all_digits(decimal_two(parts.hours))
            &&& decimal_two(parts.minutes).len() == 2 && all_digits(decimal_two(parts.minutes))
            &&& decimal_two(parts.seconds).len() == 2 && all_digits(decimal_two(parts.seconds))
            &&& decimal(parts.tenths).len() == 1 && all_digits(decimal(parts.tenths))
        }),
{
    let parts = parts_of(span(target, now));
    if parts.hours < 0 {
        assert(decimal_two(parts.hours)[0] == '-');
    } else if parts.minutes < 0 {
        assert(decimal_two(parts.minutes)[0] == '-');
    } else if parts.seconds < 0 {
        assert(decimal_two(parts.seconds)[0] == '-');
    } else {
        assert(decimal(parts.tenths)[0] == '-');
    }
}

} // verus!
