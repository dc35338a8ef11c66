//! Coordinator decisions of the daemon's tick loop: startup validation, the
//! override state machine, the applied phase and temperature of one tick,
//! and the next wake deadline.
//!
//! The loop around these decisions (timers, signals, the control channel,
//! protocol readiness) lives outside the library.

use vstd::prelude::*;

use crate::cli::ModeArg;
use crate::ipc::{midpoint, midpoint_spec};
use crate::scheduling::{
    phase_for, phase_spec, temperature_for, temperature_spec, DayPhase, DayStops, TrayOverride,
};

verus! {

/// The startup-fatal configuration errors.
#[derive(Copy, Clone, Debug, PartialEq, Eq, Structural)]
pub enum StartupError {
    /// The high temperature bound does not exceed the low one.
    TemperatureOrder,
    /// Only one of the two manual times was given.
    PartialManualTimes,
}

/// Check the configured bounds and manual times. On success, hands back the
/// paired manual offsets, or `None` when the solar schedule applies.
pub fn validate_startup(
    low: i32,
    high: i32,
    manual_sunrise: Option<i64>,
    manual_sunset: Option<i64>,
) -> (r: Result<Option<(i64, i64)>, StartupError>)
    ensures
        match r {
            Ok(m) => low < high && match (manual_sunrise, manual_sunset) {
                (Some(a), Some(b)) => m == Some((a, b)),
                (None, None) => m is None,
                _ => false,
            },
            Err(e) => {
                ||| e == StartupError::TemperatureOrder && high <= low
                ||| e == StartupError::PartialManualTimes && low < high && (
                manual_sunrise is Some) != (manual_sunset is Some)
            },
        },
{
    if high <= low {
        return Err(StartupError::TemperatureOrder);
    }
    match (manual_sunrise, manual_sunset) {
        (Some(a), Some(b)) => Ok(Some((a, b))),
        (None, None) => Ok(None),
        _ => Err(StartupError::PartialManualTimes),
    }
}

/// The mode the daemon starts pinned to, if any: only Day and Night can be
/// requested at launch.
pub fn initial_override_mode(mode: ModeArg) -> (r: Option<ModeArg>)
    ensures
        r == (if mode == ModeArg::Day || mode == ModeArg::Night {
            Some(mode)
        } else {
            None::<ModeArg>
        }),
{
    match mode {
        ModeArg::Day => Some(ModeArg::Day),
        ModeArg::Night => Some(ModeArg::Night),
        _ => None,
    }
}

/// An override is in force until its expiry.
pub open spec fn override_active(ovr: Option<TrayOverride>, now: int) -> bool {
    ovr matches Some(o) && now < o.expires_at
}

/// The override a tick keeps: the incoming one while unexpired, nothing
/// afterwards.
pub open spec fn kept_override(ovr: Option<TrayOverride>, now: int) -> Option<TrayOverride> {
    if override_active(ovr, now) {
        ovr
    } else {
        None
    }
}

/// The phase a tick applies: the pinned phase while an override is in force
/// (an Auto override pins nothing), the natural phase otherwise.
pub open spec fn applied_phase_spec(now: int, stops: DayStops, ovr: Option<TrayOverride>) -> DayPhase {
    match kept_override(ovr, now) {
        Some(o) => match o.mode {
            ModeArg::Auto => phase_spec(now, stops),
            ModeArg::Day => DayPhase::Day,
            ModeArg::Night => DayPhase::Night,
            ModeArg::Sunset => DayPhase::Sunset,
        },
        None => phase_spec(now, stops),
    }
}

/// The temperature a tick applies: high for a pinned Day, low for a pinned
/// Night, the fixed midpoint for a pinned Sunset, the natural curve
/// otherwise.
pub open spec fn applied_temp_spec(
    now: int,
    stops: DayStops,
    low: int,
    high: int,
    ovr: Option<TrayOverride>,
) -> int {
    match kept_override(ovr, now) {
        Some(o) => match o.mode {
            ModeArg::Auto => temperature_spec(now, stops, low, high),
            ModeArg::Day => high,
            ModeArg::Night => low,
            ModeArg::Sunset => midpoint_spec(low, high),
        },
        None => temperature_spec(now, stops, low, high),
    }
}

/// Decide one tick: the natural phase, the applied phase, the applied
/// temperature, and the override that stays in force. An expired override is
/// dropped and the tick reverts to the natural values with no further
/// command.
pub fn tick_decision(
    now: i64,
    stops: DayStops,
    low: i32,
    high: i32,
    ovr: Option<TrayOverride>,
) -> (r: (DayPhase, DayPhase, i32, Option<TrayOverride>))
    requires
        stops.wf(),
    ensures
        r.0 == phase_spec(now as int, stops),
        r.1 == applied_phase_spec(now as int, stops, ovr),
        r.2 == applied_temp_spec(now as int, stops, low as int, high as int, ovr),
        r.3 == kept_override(ovr, now as int),
{
    let natural = phase_for(now, stops);
    let base_temp = temperature_for(now, stops, low, high);
    let kept: Option<TrayOverride> = match ovr {
        Some(o) => if now >= o.expires_at {
            None
        } else {
            Some(o)
        },
        None => None,
    };
    match kept {
        Some(o) => match o.mode {
            ModeArg::Auto => (natural, natural, base_temp, kept),
            ModeArg::Day => (natural, DayPhase::Day, high, kept),
            ModeArg::Night => (natural, DayPhase::Night, low, kept),
            ModeArg::Sunset => (natural, DayPhase::Sunset, midpoint(low, high), kept),
        },
        None => (natural, natural, base_temp, kept),
    }
}

/// Turn a control-channel mode directive into the override it installs: Auto
/// clears any override, the other modes pin until the next natural sunrise.
pub fn apply_mode_command(mode: ModeArg, next_sunrise: i64) -> (r: Option<TrayOverride>)
    ensures
        r == (if mode == ModeArg::Auto {
            None::<TrayOverride>
        } else {
            Some(TrayOverride { mode, expires_at: next_sunrise })
        }),
{
    match mode {
        ModeArg::Auto => None,
        _ => Some(TrayOverride { mode, expires_at: next_sunrise }),
    }
}

/// `x` divided by 86400, truncated toward zero, as the day index of a
/// timestamp.
pub open spec fn trunc_div_day(x: int) -> int {
    if x >= 0 {
        x / 86400
    } else {
        -((-x) / 86400)
    }
}

/// The moment the next tick must run: the next schedule boundary, a short
/// 10-second repoll inside a transition window, or the next day boundary
/// after the night mark.
pub open spec fn next_deadline_spec(now: int, stops: DayStops) -> int {
    if now < stops.dawn {
        stops.dawn as int
    } else if now < stops.sunrise {
        now + 10
    } else if now < stops.sunset {
        stops.sunset as int
    } else if now < stops.night {
        now + 10
    } else {
        (trunc_div_day(now) + 1) * 86400
    }
}

/// Compute the next wake deadline for the tick loop.
pub fn next_deadline(now: i64, stops: DayStops) -> (r: i64)
    requires
        i64::MIN + 86400 < now < i64::MAX - 2 * 86400,
    ensures
        r == next_deadline_spec(now as int, stops),
{
    if now < stops.dawn {
        stops.dawn
    } else if now < stops.sunrise {
        now + 10
    } else if now < stops.sunset {
        stops.sunset
    } else if now < stops.night {
        now + 10
    } else {
        let q: i64 = if now >= 0 {
            ((now as u64) / 86400) as i64
        } else {
            -((((-now) as u64) / 86400) as i64)
        };
        proof {
            let n = now as int;
            assert(q * 86400 <= n + 86400 && n - 86400 <= q * 86400) by (nonlinear_arith)
                requires
                    (n >= 0 && q == n / 86400) || (n < 0 && q == -((-n) / 86400)),
            ;
        }
        (q + 1) * 86400
    }
}

/// Milliseconds to suspend until `next`, clamped to at least one second so
/// the loop can never spin.
pub fn wait_interval_ms(now: i64, next: i64) -> (ms: u64)
    requires
        next - now < 9_000_000_000_000_000,
    ensures
        ms == 1000 * (if next - now < 1 {
            1int
        } else {
            next - now
        }),
        ms >= 1000,
{
    let delta: i64 = if next > now {
        next - now
    } else {
        0
    };
    let clamped: i64 = if delta < 1 {
        1
    } else {
        delta
    };
    (clamped as u64) * 1000
}

/// The override lifecycle: a pinned mode forces the applied phase whatever
/// the natural phase is, and once `now` reaches the expiry the next tick
/// reverts to the natural phase and drops the override, with no further
/// command needed.
pub proof fn lemma_override_lifecycle(
    now: int,
    stops: DayStops,
    low: int,
    high: int,
    o: TrayOverride,
)
    ensures
        now < o.expires_at && o.mode == ModeArg::Night ==> applied_phase_spec(
            now,
            stops,
            Some(o),
        ) == DayPhase::Night && applied_temp_spec(now, stops, low, high, Some(o)) == low,
        now < o.expires_at && o.mode == ModeArg::Day ==> applied_phase_spec(now, stops, Some(o))
            == DayPhase::Day && applied_temp_spec(now, stops, low, high, Some(o)) == high,
        now < o.expires_at && o.mode == ModeArg::Sunset ==> applied_phase_spec(
            now,
            stops,
            Some(o),
        ) == DayPhase::Sunset && applied_temp_spec(now, stops, low, high, Some(o))
            == midpoint_spec(low, high),
        now >= o.expires_at ==> applied_phase_spec(now, stops, Some(o)) == phase_spec(now, stops)
            && applied_temp_spec(now, stops, low, high, Some(o)) == temperature_spec(
            now,
            stops,
            low,
            high,
        ) && kept_override(Some(o), now) is None,
{
}

} // verus!
