//! Pure scheduling: day-phase boundaries, phase classification, temperature
//! interpolation, manual time parsing, and next-sunrise lookup.

use vstd::prelude::*;
use vstd::arithmetic::div_mod::{lemma_div_is_ordered, lemma_div_multiples_vanish_fancy};

use crate::cli::ModeArg;

verus! {

/// Errors of the scheduler, mirroring the startup-fatal conditions of the
/// daemon's configuration and time handling.
#[derive(Copy, Clone, Debug, PartialEq, Eq, Structural)]
pub enum ScheduleError {
    /// A manual time string is not of the form `HH:MM`, or does not fit.
    InvalidTimeFormat,
    /// Latitude outside [-90, 90] degrees or longitude outside [-180, 180].
    InvalidCoordinates,
    /// The timestamp cannot be mapped to a calendar date.
    InvalidTimestamp,
}

/// The four boundaries that partition one calendar day: `dawn <= sunrise <=
/// sunset <= night`, as unix timestamps.
#[derive(Copy, Clone, Debug, PartialEq, Eq, Structural)]
pub struct DayStops {
    pub dawn: i64,
    pub sunrise: i64,
    pub sunset: i64,
    pub night: i64,
}

impl DayStops {
    /// The boundaries are ordered, so the four half-open intervals they bound
    /// partition the day.
    pub open spec fn wf(self) -> bool {
        self.dawn <= self.sunrise <= self.sunset <= self.night
    }
}

/// The phase of the day a moment falls in.
#[derive(Copy, Clone, Debug, PartialEq, Eq, Structural)]
pub enum DayPhase {
    Night,
    Sunrise,
    Day,
    Sunset,
}

/// An externally pinned mode, in force until `expires_at` (the next natural
/// sunrise at the time it was created).
#[derive(Copy, Clone, Debug, PartialEq, Eq, Structural)]
pub struct TrayOverride {
    pub mode: ModeArg,
    pub expires_at: i64,
}

/// Which phase `now` falls in: Night before dawn and from night on, Sunrise
/// in [dawn, sunrise), Day in [sunrise, sunset), Sunset in [sunset, night).
pub open spec fn phase_spec(now: int, stops: DayStops) -> DayPhase {
    if now < stops.dawn {
        DayPhase::Night
    } else if now < stops.sunrise {
        DayPhase::Sunrise
    } else if now < stops.sunset {
        DayPhase::Day
    } else if now < stops.night {
        DayPhase::Sunset
    } else {
        DayPhase::Night
    }
}

/// Classify `now` against the day's boundaries. Total: every moment falls in
/// exactly one phase.
pub fn phase_for(now: i64, stops: DayStops) -> (p: DayPhase)
    ensures
        p == phase_spec(now as int, stops),
{
    if now < stops.dawn {
        DayPhase::Night
    } else if now < stops.sunrise {
        DayPhase::Sunrise
    } else if now < stops.sunset {
        DayPhase::Day
    } else if now < stops.night {
        DayPhase::Sunset
    } else {
        DayPhase::Night
    }
}

/// `x` clamped into `[lo, hi]`.
pub open spec fn clamp_int(x: int, lo: int, hi: int) -> int {
    if x < lo {
        lo
    } else if x > hi {
        hi
    } else {
        x
    }
}

/// The nearest integer to `num / den` for `den > 0`, halves rounded away
/// from zero.
pub open spec fn round_div(num: int, den: int) -> int
    recommends
        den > 0,
{
    if num >= 0 {
        (2 * num + den) / (2 * den)
    } else {
        -((2 * -num + den) / (2 * den))
    }
}

/// Linear interpolation from `a` (at `start`) to `b` (at `stop`), with the
/// fraction clamped to [0, 1] and the result rounded to the nearest integer;
/// `b` when the interval is empty.
pub open spec fn interp_spec(now: int, start: int, stop: int, a: int, b: int) -> int {
    if start == stop {
        b
    } else {
        let d = stop - start;
        let t = clamp_int(now - start, 0, d);
        round_div(a * (d - t) + b * t, d)
    }
}

/// `round_div(num, den)` lies within any integer bounds that enclose the
/// exact quotient.
pub proof fn lemma_round_div_bounds(num: int, den: int, lo: int, hi: int)
    requires
        den > 0,
        lo * den <= num <= hi * den,
    ensures
        lo <= round_div(num, den) <= hi,
{
    if num >= 0 {
        let q = (2 * num + den) / (2 * den);
        assert(2 * num + den <= 2 * hi * den + den) by (nonlinear_arith)
            requires num <= hi * den;
        lemma_div_is_ordered(2 * num + den, 2 * hi * den + den, 2 * den);
        lemma_div_multiples_vanish_fancy(hi, den, 2 * den);
        assert(hi * (2 * den) + den == 2 * hi * den + den) by (nonlinear_arith);
        assert(q <= hi);
        if lo >= 0 {
            assert(2 * lo * den + den <= 2 * num + den) by (nonlinear_arith)
                requires lo * den <= num;
            lemma_div_is_ordered(2 * lo * den + den, 2 * num + den, 2 * den);
            lemma_div_multiples_vanish_fancy(lo, den, 2 * den);
            assert(lo * (2 * den) + den == 2 * lo * den + den) by (nonlinear_arith);
            assert(lo <= q);
        } else {
            assert(0 <= q) by {
                lemma_div_is_ordered(0, 2 * num + den, 2 * den);
            }
        }
    } else {
        let q = (2 * -num + den) / (2 * den);
        // num < 0 and lo * den <= num imply lo < 0
        assert(lo < 0) by (nonlinear_arith)
            requires den > 0, lo * den <= num, num < 0;
        assert(2 * -num + den <= 2 * -lo * den + den) by (nonlinear_arith)
            requires lo * den <= num;
        lemma_div_is_ordered(2 * -num + den, 2 * -lo * den + den, 2 * den);
        lemma_div_multiples_vanish_fancy(-lo, den, 2 * den);
        assert((-lo) * (2 * den) + den == 2 * -lo * den + den) by (nonlinear_arith);
        assert(q <= -lo);
        if hi < 0 {
            assert(2 * -hi * den + den <= 2 * -num + den) by (nonlinear_arith)
                requires num <= hi * den;
            lemma_div_is_ordered(2 * -hi * den + den, 2 * -num + den, 2 * den);
            lemma_div_multiples_vanish_fancy(-hi, den, 2 * den);
            assert((-hi) * (2 * den) + den == 2 * -hi * den + den) by (nonlinear_arith);
            assert(-hi <= q);
        } else {
            assert(0 <= q) by {
                lemma_div_is_ordered(0, 2 * -num + den, 2 * den);
            }
        }
    }
}

/// Linearly interpolate between `a` at `start` and `b` at `stop`, clamping
/// `now` into the interval and rounding to the nearest integer.
pub fn interpolate(now: i64, start: i64, stop: i64, a: i32, b: i32) -> (r: i32)
    requires
        start <= stop,
    ensures
        r == interp_spec(now as int, start as int, stop as int, a as int, b as int),
{
    if start == stop {
        return b;
    }
    let d: i128 = stop as i128 - start as i128;
    let raw: i128 = now as i128 - start as i128;
    let t: i128 = if raw < 0 {
        0
    } else if raw > d {
        d
    } else {
        raw
    };
    proof {
        assert({
            let ad = (a as int) * (d - t);
            let bt = (b as int) * t;
            -0x1000000000000000000000000int <= ad <= 0x1000000000000000000000000int
                && -0x1000000000000000000000000int <= bt <= 0x1000000000000000000000000int
        }) by (nonlinear_arith)
            requires
                0 <= t <= d,
                d <= 0x20000000000000000int,
                -0x80000000 <= a as int <= 0x80000000,
                -0x80000000 <= b as int <= 0x80000000;
    }
    let num: i128 = a as i128 * (d - t) + b as i128 * t;
    proof {
        let lo = if a <= b { a as int } else { b as int };
        let hi = if a <= b { b as int } else { a as int };
        assert(lo * d <= num <= hi * d) by (nonlinear_arith)
            requires
                0 <= t <= d,
                lo <= a as int <= hi,
                lo <= b as int <= hi,
                d > 0,
                num == a as int * (d - t) + b as int * t;
        lemma_round_div_bounds(num as int, d as int, lo, hi);
    }
    let r128: i128 = if num >= 0 {
        let q: u128 = (2 * (num as u128) + (d as u128)) / (2 * (d as u128));
        q as i128
    } else {
        let q: u128 = (2 * ((-num) as u128) + (d as u128)) / (2 * (d as u128));
        -(q as i128)
    };
    r128 as i32
}

proof fn lemma_round_div_exact(k: int, den: int)
    requires
        den > 0,
    ensures
        round_div(k * den, den) == k,
{
    if k >= 0 {
        lemma_div_multiples_vanish_fancy(k, den, 2 * den);
        assert(k * (2 * den) + den == 2 * (k * den) + den) by (nonlinear_arith);
    } else {
        lemma_div_multiples_vanish_fancy(-k, den, 2 * den);
        assert((-k) * (2 * den) + den == 2 * -(k * den) + den) by (nonlinear_arith);
        assert(k * den < 0) by (nonlinear_arith)
            requires k < 0, den > 0;
    }
}

/// The target temperature at `now`: `low` outside [dawn, night), `high`
/// inside [sunrise, sunset), linear ramps across [dawn, sunrise) and
/// [sunset, night).
pub open spec fn temperature_spec(now: int, stops: DayStops, low: int, high: int) -> int {
    if now < stops.dawn {
        low
    } else if now < stops.sunrise {
        interp_spec(now, stops.dawn as int, stops.sunrise as int, low, high)
    } else if now < stops.sunset {
        high
    } else if now < stops.night {
        interp_spec(now, stops.sunset as int, stops.night as int, high, low)
    } else {
        low
    }
}

/// Compute the target temperature for `now` against the day's boundaries.
pub fn temperature_for(now: i64, stops: DayStops, low: i32, high: i32) -> (t: i32)
    requires
        stops.wf(),
    ensures
        t == temperature_spec(now as int, stops, low as int, high as int),
{
    if now < stops.dawn {
        low
    } else if now < stops.sunrise {
        interpolate(now, stops.dawn, stops.sunrise, low, high)
    } else if now < stops.sunset {
        high
    } else if now < stops.night {
        interpolate(now, stops.sunset, stops.night, high, low)
    } else {
        low
    }
}

/// The temperature curve is continuous at the four boundaries: it reaches
/// `low` exactly at dawn, `high` exactly at sunrise and at sunset, and `low`
/// again exactly at night. The dawn and sunset statements need a transition
/// of nonzero width, since at a collapsed boundary the two sides coincide.
pub proof fn lemma_temperature_boundaries(stops: DayStops, low: int, high: int)
    requires
        stops.wf(),
        stops.dawn < stops.sunrise,
        stops.sunset < stops.night,
    ensures
        temperature_spec(stops.dawn as int, stops, low, high) == low,
        temperature_spec(stops.sunrise as int, stops, low, high) == high,
        temperature_spec(stops.sunset as int, stops, low, high) == high,
        temperature_spec(stops.night as int, stops, low, high) == low,
{
    let d1 = stops.sunrise - stops.dawn;
    assert(low * (d1 - 0) + high * 0 == low * d1) by (nonlinear_arith);
    lemma_round_div_exact(low, d1);
    let d2 = stops.night - stops.sunset;
    assert(high * (d2 - 0) + low * 0 == high * d2) by (nonlinear_arith);
    lemma_round_div_exact(high, d2);
}

/// The four phases partition every moment: each moment falls in exactly one
/// of the four half-open intervals, with no gap and no overlap, and the
/// temperature is determined by the same partition.
pub proof fn lemma_phase_partition(now: int, stops: DayStops, low: int, high: int)
    requires
        stops.wf(),
    ensures
        (phase_spec(now, stops) == DayPhase::Night) <==> (now < stops.dawn || now
            >= stops.night),
        (phase_spec(now, stops) == DayPhase::Sunrise) <==> (stops.dawn <= now < stops.sunrise),
        (phase_spec(now, stops) == DayPhase::Day) <==> (stops.sunrise <= now < stops.sunset),
        (phase_spec(now, stops) == DayPhase::Sunset) <==> (stops.sunset <= now < stops.night),
        phase_spec(now, stops) == DayPhase::Night ==> temperature_spec(now, stops, low, high)
            == low,
        phase_spec(now, stops) == DayPhase::Day ==> temperature_spec(now, stops, low, high)
            == high,
        phase_spec(now, stops) == DayPhase::Sunrise ==> temperature_spec(now, stops, low, high)
            == interp_spec(now, stops.dawn as int, stops.sunrise as int, low, high),
        phase_spec(now, stops) == DayPhase::Sunset ==> temperature_spec(now, stops, low, high)
            == interp_spec(now, stops.sunset as int, stops.night as int, high, low),
{
}

/// A decimal digit.
pub open spec fn is_digit_char(c: char) -> bool {
    '0' <= c <= '9'
}

/// The numeric value of a decimal digit.
pub open spec fn digit_value(c: char) -> int {
    c as int - '0' as int
}

/// Every character of `s` is a decimal digit.
pub open spec fn all_digits(s: Seq<char>) -> bool {
    forall|i: int| 0 <= i < s.len() ==> is_digit_char(#[trigger] s[i])
}

/// The number that the digit string `s` denotes, most significant first.
pub open spec fn digits_value(s: Seq<char>) -> int
    decreases s.len(),
{
    if s.len() == 0 {
        0
    } else {
        digits_value(s.drop_last()) * 10 + digit_value(s.last())
    }
}

proof fn lemma_digits_value_nonneg(s: Seq<char>)
    requires
        all_digits(s),
    ensures
        digits_value(s) >= 0,
    decreases s.len(),
{
    if s.len() > 0 {
        assert(all_digits(s.drop_last()));
        lemma_digits_value_nonneg(s.drop_last());
    }
}

/// `s` splits at position `p` into a nonempty digit string, a colon, and a
/// nonempty digit string.
pub open spec fn hhmm_split_at(s: Seq<char>, p: int) -> bool {
    &&& 1 <= p < s.len() - 1
    &&& s[p] == ':'
    &&& all_digits(s.subrange(0, p))
    &&& all_digits(s.subrange(p + 1, s.len() as int))
}

/// `s` is of the form `H+:M+` with decimal digits on both sides.
pub open spec fn is_hhmm(s: Seq<char>) -> bool {
    exists|p: int| hhmm_split_at(s, p)
}

/// The seconds-from-midnight that the time string denotes: hours times 3600
/// plus minutes times 60.
pub open spec fn hhmm_seconds(s: Seq<char>) -> int {
    let p = choose|p: int| hhmm_split_at(s, p);
    digits_value(s.subrange(0, p)) * 3600 + digits_value(s.subrange(p + 1, s.len() as int)) * 60
}

/// A split position is unique: both sides of it hold digits only, so no other
/// position can hold the colon.
proof fn lemma_hhmm_at(s: Seq<char>, p: int)
    requires
        hhmm_split_at(s, p),
    ensures
        is_hhmm(s),
        hhmm_seconds(s) == digits_value(s.subrange(0, p)) * 3600 + digits_value(
            s.subrange(p + 1, s.len() as int),
        ) * 60,
{
    let q = choose|q: int| hhmm_split_at(s, q);
    if q < p {
        assert(s.subrange(0, p)[q] == s[q]);
        assert(is_digit_char(s[q]));
    } else if q > p {
        assert(s.subrange(p + 1, s.len() as int)[q - p - 1] == s[q]);
        assert(is_digit_char(s[q]));
    }
}

/// `digits_value` saturated at `DIGITS_CAP`, which exceeds any value whose
/// seconds form still fits an `i64`.
pub open spec fn capped_value(v: int) -> int {
    if v >= 0x4000000000000000 {
        0x4000000000000000
    } else {
        v
    }
}

/// Read `s[from..to]` as a decimal number, saturating at `DIGITS_CAP`;
/// `None` if any character is not a digit.
fn digits_capped(s: &str, from: usize, to: usize) -> (r: Option<u128>)
    requires
        from <= to <= s@.len(),
    ensures
        match r {
            Some(v) => all_digits(s@.subrange(from as int, to as int)) && v == capped_value(
                digits_value(s@.subrange(from as int, to as int)),
            ),
            None => !all_digits(s@.subrange(from as int, to as int)),
        },
{
    let mut v: u128 = 0;
    let mut i: usize = from;
    while i < to
        invariant
            from <= i <= to <= s@.len(),
            all_digits(s@.subrange(from as int, i as int)),
            v == capped_value(digits_value(s@.subrange(from as int, i as int))),
        decreases to - i,
    {
        let c = s.get_char(i);
        let u = c as u32;
        if u < 48 || u > 57 {
            proof {
                assert(s@.subrange(from as int, to as int)[i - from] == s@[i as int]);
            }
            return None;
        }
        let d: u128 = (u - 48) as u128;
        proof {
            let pre = s@.subrange(from as int, i as int);
            let post = s@.subrange(from as int, i + 1);
            assert(post.drop_last() =~= pre);
            assert(post.last() == s@[i as int]);
            lemma_digits_value_nonneg(pre);
        }
        let grown: u128 = v * 10 + d;
        v = if grown >= 0x4000000000000000 {
            0x4000000000000000
        } else {
            grown
        };
        i = i + 1;
    }
    proof {
        assert(s@.subrange(from as int, to as int) =~= s@.subrange(from as int, i as int));
    }
    Some(v)
}

/// Parse a manual `HH:MM` time-of-day string into seconds from midnight.
/// Succeeds exactly on strings of the form `H+:M+` (decimal digits on both
/// sides of one colon) whose value in seconds fits the result type.
pub fn parse_hhmm(s: &str) -> (r: Result<i64, ScheduleError>)
    ensures
        match r {
            Ok(v) => is_hhmm(s@) && v == hhmm_seconds(s@) && v >= 0,
            Err(e) => e == ScheduleError::InvalidTimeFormat && !(is_hhmm(s@) && hhmm_seconds(s@)
                <= i64::MAX),
        },
{
    let n = s.unicode_len();
    let mut first: Option<usize> = None;
    let mut second: Option<usize> = None;
    let mut i: usize = 0;
    while i < n
        invariant
            0 <= i <= n == s@.len(),
            match first {
                Some(q) => q < i && s@[q as int] == ':' && forall|j: int|
                    0 <= j < q ==> s@[j] != ':',
                None => forall|j: int| 0 <= j < i ==> s@[j] != ':',
            },
            match second {
                Some(q2) => first matches Some(q) && q < q2 < i && s@[q2 as int] == ':',
                None => first matches Some(q) ==> forall|j: int| q < j < i ==> s@[j] != ':',
            },
        decreases n - i,
    {
        let c = s.get_char(i);
        if c == ':' {
            if first.is_none() {
                first = Some(i);
            } else if second.is_none() {
                second = Some(i);
            }
        }
        i = i + 1;
    }
    let p = match first {
        None => {
            proof {
                assert(forall|q: int| !hhmm_split_at(s@, q));
            }
            return Err(ScheduleError::InvalidTimeFormat);
        },
        Some(p) => p,
    };
    if let Some(p2) = second {
        proof {
            assert(!is_digit_char(':'));
            assert forall|q: int| !hhmm_split_at(s@, q) by {
                if hhmm_split_at(s@, q) {
                    let other: int = if q == p { p2 as int } else { p as int };
                    if other < q {
                        assert(s@.subrange(0, q)[other] == s@[other]);
                    } else {
                        assert(s@.subrange(q + 1, s@.len() as int)[other - q - 1] == s@[other]);
                    }
                }
            }
        }
        return Err(ScheduleError::InvalidTimeFormat);
    }
    // the colon at p is the only one, so any split position must be p
    proof {
        assert forall|q: int| hhmm_split_at(s@, q) implies q == p by {}
    }
    if p == 0 || p + 1 == n {
        return Err(ScheduleError::InvalidTimeFormat);
    }
    let hours = digits_capped(s, 0, p);
    let minutes = digits_capped(s, p + 1, n);
    let (h, m) = match (hours, minutes) {
        (Some(h), Some(m)) => (h, m),
        _ => {
            return Err(ScheduleError::InvalidTimeFormat);
        },
    };
    proof {
        lemma_hhmm_at(s@, p as int);
        lemma_digits_value_nonneg(s@.subrange(0, p as int));
        lemma_digits_value_nonneg(s@.subrange(p + 1, s@.len() as int));
    }
    let total: u128 = h * 3600 + m * 60;
    if total > 0x7fffffffffffffff {
        return Err(ScheduleError::InvalidTimeFormat);
    }
    Ok(total as i64)
}

/// The most recent midnight not after `now` for nonnegative timestamps; for
/// negative timestamps, `now` rounded toward zero to a day boundary, as
/// truncating division gives it.
pub open spec fn midnight_of(now: int) -> int {
    if now >= 0 {
        now - (now % 86400)
    } else {
        now + ((-now) % 86400)
    }
}

/// The four boundaries that manual offsets produce for the day of `now`:
/// sunrise and sunset anchored to its midnight, widened by `duration` into
/// dawn and night.
pub open spec fn manual_stops(now: int, sr: int, ss: int, duration: int) -> (int, int, int, int) {
    let mid = midnight_of(now);
    (mid + sr - duration, mid + sr, mid + ss, mid + ss + duration)
}

/// The four boundaries that true solar events produce: the event times
/// themselves, widened by `duration` into dawn and night.
pub open spec fn solar_stops(sr_ts: int, ss_ts: int, duration: int) -> (int, int, int, int) {
    (sr_ts - duration, sr_ts, ss_ts, ss_ts + duration)
}

/// `st` holds exactly these four boundaries.
pub open spec fn stops_match(st: DayStops, t: (int, int, int, int)) -> bool {
    st.dawn == t.0 && st.sunrise == t.1 && st.sunset == t.2 && st.night == t.3
}

/// Whether microdegree coordinates lie in the valid range: latitude within
/// [-90, 90] degrees and longitude within [-180, 180] degrees.
pub open spec fn coords_valid(lat_micro: int, lon_micro: int) -> bool {
    -90_000_000 <= lat_micro <= 90_000_000 && -180_000_000 <= lon_micro <= 180_000_000
}

/// The day boundary at or before `now` (toward zero for negative times),
/// anchoring manual offsets.
pub fn local_midnight(now: i64) -> (m: i64)
    requires
        now > i64::MIN,
    ensures
        m == midnight_of(now as int),
        now - 86400 < m <= now + 86399,
{
    if now >= 0 {
        let rem: u64 = (now as u64) % 86400;
        now - rem as i64
    } else {
        let rem: u64 = ((-now) as u64) % 86400;
        now + rem as i64
    }
}

/// Compute the four boundaries of the day `now` falls in.
///
/// With manual offsets `(sunrise_s, sunset_s)` in seconds from local
/// midnight, the boundaries are anchored to the midnight of `now`, with
/// `duration` widening sunrise and sunset into dawn and night. Otherwise the
/// coordinates must be valid, and `solar` must carry the true solar sunrise
/// and sunset timestamps for the calendar date of `now` (`None` when that
/// date cannot be determined).
pub fn compute_day_stops(
    now: i64,
    lat_micro: i64,
    lon_micro: i64,
    duration: i64,
    manual: Option<(i64, i64)>,
    solar: Option<(i64, i64)>,
) -> (r: Result<DayStops, ScheduleError>)
    requires
        i64::MIN + 4 * 86400 < now < i64::MAX - 4 * 86400,
        0 <= duration <= 86400,
        manual matches Some((sr, ss)) ==> 0 <= sr <= ss <= 86400 * 2,
        solar matches Some((sr, ss)) ==> i64::MIN + 86400 < sr <= ss < i64::MAX - 86400,
    ensures
        match manual {
            Some((sr, ss)) => r matches Ok(st) && stops_match(
                st,
                manual_stops(now as int, sr as int, ss as int, duration as int),
            ),
            None => {
                if !coords_valid(lat_micro as int, lon_micro as int) {
                    r == Err::<DayStops, ScheduleError>(ScheduleError::InvalidCoordinates)
                } else {
                    match solar {
                        Some((sr, ss)) => r matches Ok(st) && stops_match(
                            st,
                            solar_stops(sr as int, ss as int, duration as int),
                        ),
                        None => r == Err::<DayStops, ScheduleError>(
                            ScheduleError::InvalidTimestamp,
                        ),
                    }
                }
            },
        },
        r matches Ok(st) ==> st.wf(),
{
    if let Some((sunrise_s, sunset_s)) = manual {
        let mid = local_midnight(now);
        return Ok(
            DayStops {
                dawn: mid + sunrise_s - duration,
                sunrise: mid + sunrise_s,
                sunset: mid + sunset_s,
                night: mid + sunset_s + duration,
            },
        );
    }
    if lat_micro < -90_000_000 || lat_micro > 90_000_000 || lon_micro < -180_000_000 || lon_micro
        > 180_000_000 {
        return Err(ScheduleError::InvalidCoordinates);
    }
    match solar {
        Some((sunrise_ts, sunset_ts)) => Ok(
            DayStops {
                dawn: sunrise_ts - duration,
                sunrise: sunrise_ts,
                sunset: sunset_ts,
                night: sunset_ts + duration,
            },
        ),
        None => Err(ScheduleError::InvalidTimestamp),
    }
}

/// Relies on chrono's `DateTime::from_timestamp` and
/// `checked_add_signed(TimeDelta::days(1))`: for a UTC datetime, adding a
/// one-day delta advances the unix timestamp by exactly 86400 seconds, and
/// both steps succeed for any timestamp comfortably inside chrono's
/// representable range of roughly 262000 years on either side of the epoch.
#[verifier::external_body]
fn next_day_timestamp(now: i64) -> (r: Option<i64>)
    ensures
        r matches Some(t) ==> t == now + 86400,
        -8_000_000_000_000 <= now <= 8_000_000_000_000 - 86400 ==> r is Some,
{
    chrono::DateTime::from_timestamp(now, 0)
        .and_then(|dt| dt.checked_add_signed(chrono::TimeDelta::days(1)))
        .map(|dt| dt.timestamp())
}

/// The timestamp of the next sunrise strictly after the current one began:
/// today's sunrise while `now` is still before it, otherwise the sunrise of
/// the following calendar day.
///
/// `solar_tomorrow`, used only without manual offsets, must carry the solar
/// sunrise/sunset for the calendar day after `now`, as `compute_day_stops`
/// expects them.
pub fn next_sunrise_timestamp(
    now: i64,
    current: DayStops,
    lat_micro: i64,
    lon_micro: i64,
    duration: i64,
    manual: Option<(i64, i64)>,
    solar_tomorrow: Option<(i64, i64)>,
) -> (r: Result<i64, ScheduleError>)
    requires
        i64::MIN + 4 * 86400 < now < i64::MAX - 5 * 86400,
        0 <= duration <= 86400,
        manual matches Some((sr, ss)) ==> 0 <= sr <= ss <= 86400 * 2,
        solar_tomorrow matches Some((sr, ss)) ==> i64::MIN + 86400 < sr <= ss < i64::MAX - 86400,
    ensures
        now < current.sunrise ==> r == Ok::<i64, ScheduleError>(current.sunrise),
        now >= current.sunrise ==> match r {
            Ok(v) => {
                &&& manual matches Some((sr, ss)) ==> v == manual_stops(
                    now + 86400,
                    sr as int,
                    ss as int,
                    duration as int,
                ).1
                &&& manual is None ==> (coords_valid(lat_micro as int, lon_micro as int)
                    && (solar_tomorrow matches Some((sr, ss)) && v == solar_stops(
                    sr as int,
                    ss as int,
                    duration as int,
                ).1))
            },
            Err(e) => {
                ||| e == ScheduleError::InvalidTimestamp && (!(-8_000_000_000_000 <= now
                    <= 8_000_000_000_000 - 86400) || (manual is None && coords_valid(
                    lat_micro as int,
                    lon_micro as int,
                ) && solar_tomorrow is None))
                ||| e == ScheduleError::InvalidCoordinates && manual is None && !coords_valid(
                    lat_micro as int,
                    lon_micro as int,
                )
            },
        },
{
    if now < current.sunrise {
        return Ok(current.sunrise);
    }
    let tomorrow = match next_day_timestamp(now) {
        Some(t) => t,
        None => {
            return Err(ScheduleError::InvalidTimestamp);
        },
    };
    match compute_day_stops(tomorrow, lat_micro, lon_micro, duration, manual, solar_tomorrow) {
        Ok(stops) => Ok(stops.sunrise),
        Err(e) => Err(e),
    }
}

} // verus!
