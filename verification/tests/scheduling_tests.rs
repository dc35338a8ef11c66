use wlsunset_rs::scheduling::{
    compute_day_stops, interpolate, next_sunrise_timestamp, parse_hhmm, phase_for,
    temperature_for, DayPhase, DayStops, ScheduleError,
};

fn stops(dawn: i64, sunrise: i64, sunset: i64, night: i64) -> DayStops {
    DayStops { dawn, sunrise, sunset, night }
}

#[test]
fn parse_hhmm_accepts_plain_times() {
    assert_eq!(parse_hhmm("06:00"), Ok(6 * 3600));
    assert_eq!(parse_hhmm("18:30"), Ok(18 * 3600 + 30 * 60));
    assert_eq!(parse_hhmm("0:0"), Ok(0));
    assert_eq!(parse_hhmm("25:99"), Ok(25 * 3600 + 99 * 60));
    assert_eq!(parse_hhmm("007:05"), Ok(7 * 3600 + 5 * 60));
}

#[test]
fn parse_hhmm_rejects_malformed_times() {
    assert_eq!(parse_hhmm(""), Err(ScheduleError::InvalidTimeFormat));
    assert_eq!(parse_hhmm("0600"), Err(ScheduleError::InvalidTimeFormat));
    assert_eq!(parse_hhmm("6"), Err(ScheduleError::InvalidTimeFormat));
    assert_eq!(parse_hhmm(":30"), Err(ScheduleError::InvalidTimeFormat));
    assert_eq!(parse_hhmm("06:"), Err(ScheduleError::InvalidTimeFormat));
    assert_eq!(parse_hhmm("06:00:30"), Err(ScheduleError::InvalidTimeFormat));
    assert_eq!(parse_hhmm("06:0a"), Err(ScheduleError::InvalidTimeFormat));
    assert_eq!(parse_hhmm("-1:30"), Err(ScheduleError::InvalidTimeFormat));
    assert_eq!(parse_hhmm(" 6:00"), Err(ScheduleError::InvalidTimeFormat));
    assert_eq!(
        parse_hhmm("99999999999999999999:00"),
        Err(ScheduleError::InvalidTimeFormat)
    );
}

#[test]
fn manual_day_stops_widen_transitions() {
    // manual (06:00, 18:00) with a 1800 s transition
    let now: i64 = 1_700_000_000;
    let midnight = now - now % 86400;
    let r = compute_day_stops(now, 0, 0, 1800, Some((6 * 3600, 18 * 3600)), None).unwrap();
    assert_eq!(r.dawn, midnight + 5 * 3600 + 30 * 60);
    assert_eq!(r.sunrise, midnight + 6 * 3600);
    assert_eq!(r.sunset, midnight + 18 * 3600);
    assert_eq!(r.night, midnight + 18 * 3600 + 30 * 60);
}

#[test]
fn solar_day_stops_widen_transitions() {
    let sr: i64 = 1_700_000_000;
    let ss: i64 = sr + 10 * 3600;
    let r = compute_day_stops(sr - 3600, 48_800_000, 2_300_000, 1800, None, Some((sr, ss)))
        .unwrap();
    assert_eq!(r.dawn, sr - 1800);
    assert_eq!(r.sunrise, sr);
    assert_eq!(r.sunset, ss);
    assert_eq!(r.night, ss + 1800);
}

#[test]
fn day_stops_reject_bad_coordinates() {
    let r = compute_day_stops(1_700_000_000, 91_000_000, 0, 1800, None, Some((1, 2)));
    assert_eq!(r, Err(ScheduleError::InvalidCoordinates));
    let r = compute_day_stops(1_700_000_000, 0, -180_000_001, 1800, None, Some((1, 2)));
    assert_eq!(r, Err(ScheduleError::InvalidCoordinates));
}

#[test]
fn day_stops_reject_missing_solar_times() {
    let r = compute_day_stops(1_700_000_000, 0, 0, 1800, None, None);
    assert_eq!(r, Err(ScheduleError::InvalidTimestamp));
}

#[test]
fn phases_partition_the_day() {
    let st = stops(100, 200, 300, 400);
    assert_eq!(phase_for(99, st), DayPhase::Night);
    assert_eq!(phase_for(100, st), DayPhase::Sunrise);
    assert_eq!(phase_for(199, st), DayPhase::Sunrise);
    assert_eq!(phase_for(200, st), DayPhase::Day);
    assert_eq!(phase_for(299, st), DayPhase::Day);
    assert_eq!(phase_for(300, st), DayPhase::Sunset);
    assert_eq!(phase_for(399, st), DayPhase::Sunset);
    assert_eq!(phase_for(400, st), DayPhase::Night);
    assert_eq!(phase_for(i64::MIN, st), DayPhase::Night);
    assert_eq!(phase_for(i64::MAX, st), DayPhase::Night);
}

#[test]
fn temperature_is_continuous_at_boundaries() {
    let st = stops(0, 1000, 2000, 3000);
    assert_eq!(temperature_for(0, st, 4000, 6500), 4000);
    assert_eq!(temperature_for(1000, st, 4000, 6500), 6500);
    assert_eq!(temperature_for(2000, st, 4000, 6500), 6500);
    assert_eq!(temperature_for(3000, st, 4000, 6500), 4000);
    assert_eq!(temperature_for(-1, st, 4000, 6500), 4000);
    assert_eq!(temperature_for(500, st, 4000, 6500), 5250);
    assert_eq!(temperature_for(2500, st, 4000, 6500), 5250);
}

#[test]
fn interpolate_rounds_to_nearest() {
    assert_eq!(interpolate(5, 0, 10, 0, 10), 5);
    assert_eq!(interpolate(1, 0, 3, 0, 1), 0);
    assert_eq!(interpolate(2, 0, 3, 0, 1), 1);
    // halves round away from zero
    assert_eq!(interpolate(1, 0, 2, 0, 1), 1);
    assert_eq!(interpolate(1, 0, 2, 0, -1), -1);
    // the fraction is clamped
    assert_eq!(interpolate(-5, 0, 10, 3, 7), 3);
    assert_eq!(interpolate(15, 0, 10, 3, 7), 7);
    // an empty interval yields the landing value
    assert_eq!(interpolate(42, 7, 7, 3, 9), 9);
}

#[test]
fn next_sunrise_before_sunrise_is_today() {
    let now: i64 = 1_700_000_000;
    let manual = Some((6 * 3600_i64, 18 * 3600_i64));
    let today = compute_day_stops(now, 0, 0, 1800, manual, None).unwrap();
    let r = next_sunrise_timestamp(today.sunrise - 1, today, 0, 0, 1800, manual, None);
    assert_eq!(r, Ok(today.sunrise));
}

#[test]
fn next_sunrise_after_sunrise_is_tomorrow() {
    let now: i64 = 1_700_000_000;
    let manual = Some((6 * 3600_i64, 18 * 3600_i64));
    let today = compute_day_stops(now, 0, 0, 1800, manual, None).unwrap();
    let at = today.sunrise + 1;
    let r = next_sunrise_timestamp(at, today, 0, 0, 1800, manual, None).unwrap();
    let tomorrow = compute_day_stops(at + 86400, 0, 0, 1800, manual, None).unwrap();
    assert_eq!(r, tomorrow.sunrise);
    assert_eq!(r, today.sunrise + 86400);
}

#[test]
fn next_sunrise_solar_uses_supplied_times() {
    let today = stops(1000, 2000, 3000, 4000);
    let r = next_sunrise_timestamp(2500, today, 0, 0, 1000, None, Some((88000, 92000)));
    assert_eq!(r, Ok(88000));
    let r = next_sunrise_timestamp(1999, today, 0, 0, 1000, None, None);
    assert_eq!(r, Ok(2000));
    let r = next_sunrise_timestamp(2500, today, 0, 0, 1000, None, None);
    assert_eq!(r, Err(ScheduleError::InvalidTimestamp));
    let r = next_sunrise_timestamp(2500, today, 99_000_000, 0, 1000, None, Some((88000, 92000)));
    assert_eq!(r, Err(ScheduleError::InvalidCoordinates));
}
