use wlsunset_rs::cli::ModeArg;
use wlsunset_rs::coordinator::{
    apply_mode_command, initial_override_mode, next_deadline, tick_decision, validate_startup,
    wait_interval_ms, StartupError,
};
use wlsunset_rs::scheduling::{DayPhase, DayStops, TrayOverride};

fn stops(dawn: i64, sunrise: i64, sunset: i64, night: i64) -> DayStops {
    DayStops { dawn, sunrise, sunset, night }
}

#[test]
fn startup_rejects_unordered_bounds() {
    assert_eq!(
        validate_startup(6500, 4000, None, None),
        Err(StartupError::TemperatureOrder)
    );
    assert_eq!(
        validate_startup(4000, 4000, None, None),
        Err(StartupError::TemperatureOrder)
    );
}

#[test]
fn startup_rejects_partial_manual_times() {
    assert_eq!(
        validate_startup(4000, 6500, Some(21600), None),
        Err(StartupError::PartialManualTimes)
    );
    assert_eq!(
        validate_startup(4000, 6500, None, Some(64800)),
        Err(StartupError::PartialManualTimes)
    );
}

#[test]
fn startup_accepts_paired_or_absent_manual_times() {
    assert_eq!(
        validate_startup(4000, 6500, Some(21600), Some(64800)),
        Ok(Some((21600, 64800)))
    );
    assert_eq!(validate_startup(4000, 6500, None, None), Ok(None));
}

#[test]
fn only_day_and_night_pin_at_launch() {
    assert_eq!(initial_override_mode(ModeArg::Auto), None);
    assert_eq!(initial_override_mode(ModeArg::Sunset), None);
    assert_eq!(initial_override_mode(ModeArg::Day), Some(ModeArg::Day));
    assert_eq!(initial_override_mode(ModeArg::Night), Some(ModeArg::Night));
}

#[test]
fn override_pins_phase_until_expiry() {
    let st = stops(100, 200, 300, 400);
    let now = 250; // naturally Day
    let ovr = Some(TrayOverride { mode: ModeArg::Night, expires_at: 1000 });
    let (natural, applied, temp, kept) = tick_decision(now, st, 4000, 6500, ovr);
    assert_eq!(natural, DayPhase::Day);
    assert_eq!(applied, DayPhase::Night);
    assert_eq!(temp, 4000);
    assert_eq!(
        kept,
        Some(TrayOverride { mode: ModeArg::Night, expires_at: 1000 })
    );
}

#[test]
fn expired_override_reverts_without_a_command() {
    let st = stops(100, 200, 300, 400);
    let ovr = Some(TrayOverride { mode: ModeArg::Night, expires_at: 1000 });
    let (natural, applied, temp, kept) = tick_decision(1000, st, 4000, 6500, ovr);
    assert_eq!(natural, DayPhase::Night);
    assert_eq!(applied, DayPhase::Night);
    assert_eq!(kept, None);
    assert_eq!(temp, 4000);
    // expiry during the day reverts to the natural day values
    let ovr = Some(TrayOverride { mode: ModeArg::Night, expires_at: 240 });
    let (natural, applied, temp, kept) = tick_decision(250, st, 4000, 6500, ovr);
    assert_eq!(natural, DayPhase::Day);
    assert_eq!(applied, DayPhase::Day);
    assert_eq!(temp, 6500);
    assert_eq!(kept, None);
}

#[test]
fn sunset_override_applies_the_fixed_midpoint() {
    let st = stops(100, 200, 300, 400);
    let ovr = Some(TrayOverride { mode: ModeArg::Sunset, expires_at: 1000 });
    let (_, applied, temp, _) = tick_decision(250, st, 4000, 6500, ovr);
    assert_eq!(applied, DayPhase::Sunset);
    assert_eq!(temp, 5250);
}

#[test]
fn mode_commands_install_or_clear_overrides() {
    assert_eq!(apply_mode_command(ModeArg::Auto, 999), None);
    assert_eq!(
        apply_mode_command(ModeArg::Day, 999),
        Some(TrayOverride { mode: ModeArg::Day, expires_at: 999 })
    );
    assert_eq!(
        apply_mode_command(ModeArg::Sunset, 42),
        Some(TrayOverride { mode: ModeArg::Sunset, expires_at: 42 })
    );
}

#[test]
fn deadline_tracks_boundaries_and_repolls_in_transitions() {
    let st = stops(1000, 2000, 3000, 4000);
    assert_eq!(next_deadline(500, st), 1000);
    assert_eq!(next_deadline(1500, st), 1510);
    assert_eq!(next_deadline(2500, st), 3000);
    assert_eq!(next_deadline(3500, st), 3510);
    // past the night mark, wake at the next day boundary
    assert_eq!(next_deadline(5000, st), 86400);
    assert_eq!(next_deadline(86400 + 5, stops(1, 2, 3, 4)), 2 * 86400);
}

#[test]
fn wait_is_clamped_to_a_second() {
    assert_eq!(wait_interval_ms(100, 100), 1000);
    assert_eq!(wait_interval_ms(100, 50), 1000);
    assert_eq!(wait_interval_ms(100, 103), 3000);
}
