//! Control-channel commands, the status snapshot, and the command handler.
//!
//! The transport (line framing, JSON encoding) lives outside the library; it
//! hands in decoded commands and carries the returned responses back to the
//! sender.

use vstd::prelude::*;

use crate::cli::ModeArg;
use crate::scheduling::DayPhase;

verus! {

/// A decoded control command.
pub enum IpcCommand {
    /// Request a mode: "auto", "day", "night" or "sunset".
    SetMode { mode: String },
    /// Ask for the status snapshot.
    GetStatus,
    /// Replace the temperature bounds.
    SetTemperature { low: i32, high: i32 },
}

/// The reply to a control command.
pub enum IpcResponse {
    /// The status snapshot.
    Status {
        requested_mode: String,
        current_mode: String,
        automatic_mode: String,
        current_temp: i32,
        low_temp: i32,
        high_temp: i32,
        /// Resolved location in microdegrees, if any.
        location: Option<(i64, i64)>,
        /// Today's sunrise and sunset, as preformatted times.
        sun_times: Option<(String, String)>,
    },
    /// The command could not be decoded or applied.
    Error { message: String },
}

/// The snapshot the daemon's tick publishes for external responders.
pub struct SharedAppState {
    pub requested_mode: ModeArg,
    pub current_mode: DayPhase,
    pub automatic_mode: DayPhase,
    pub current_temp: i32,
    pub low_temp: i32,
    pub high_temp: i32,
    /// Resolved location in microdegrees, if any.
    pub location: Option<(i64, i64)>,
    /// Today's sunrise and sunset, as preformatted times.
    pub sun_times: Option<(String, String)>,
}

/// The wire name of a requested mode.
pub open spec fn mode_name(m: ModeArg) -> Seq<char> {
    match m {
        ModeArg::Auto => "auto"@,
        ModeArg::Day => "day"@,
        ModeArg::Night => "night"@,
        ModeArg::Sunset => "sunset"@,
    }
}

/// The wire name of a day phase.
pub open spec fn phase_name(p: DayPhase) -> Seq<char> {
    match p {
        DayPhase::Night => "night"@,
        DayPhase::Sunrise => "sunrise"@,
        DayPhase::Day => "day"@,
        DayPhase::Sunset => "sunset"@,
    }
}

/// The mode a wire name denotes; an unrecognized name keeps `fallback`.
pub open spec fn mode_of_name(s: Seq<char>, fallback: ModeArg) -> ModeArg {
    if s == "auto"@ {
        ModeArg::Auto
    } else if s == "day"@ {
        ModeArg::Day
    } else if s == "night"@ {
        ModeArg::Night
    } else if s == "sunset"@ {
        ModeArg::Sunset
    } else {
        fallback
    }
}

/// The midpoint of the temperature bounds, truncated toward zero.
pub open spec fn midpoint_spec(low: int, high: int) -> int {
    if low + high >= 0 {
        (low + high) / 2
    } else {
        -((-(low + high)) / 2)
    }
}

/// Two optional string pairs hold the same text.
pub open spec fn same_sun_times(a: Option<(String, String)>, b: Option<(String, String)>) -> bool {
    match (a, b) {
        (Some(x), Some(y)) => x.0@ == y.0@ && x.1@ == y.1@,
        (None, None) => true,
        _ => false,
    }
}

/// A status response carries exactly this snapshot.
pub open spec fn status_of(r: IpcResponse, state: SharedAppState) -> bool {
    r matches IpcResponse::Status {
        requested_mode,
        current_mode,
        automatic_mode,
        current_temp,
        low_temp,
        high_temp,
        location,
        sun_times,
    } && requested_mode@ == mode_name(state.requested_mode) && current_mode@ == phase_name(
        state.current_mode,
    ) && automatic_mode@ == phase_name(state.automatic_mode) && current_temp == state.current_temp
        && low_temp == state.low_temp && high_temp == state.high_temp && location == state.location
        && same_sun_times(sun_times, state.sun_times)
}

impl SharedAppState {
    /// The snapshot before the first tick: automatic mode, daytime phase, and
    /// the midpoint of the configured bounds.
    pub fn new(low_temp: i32, high_temp: i32) -> (s: SharedAppState)
        requires
            i32::MIN <= low_temp + high_temp <= i32::MAX,
        ensures
            s.requested_mode == ModeArg::Auto,
            s.current_mode == DayPhase::Day,
            s.automatic_mode == DayPhase::Day,
            s.current_temp == midpoint_spec(low_temp as int, high_temp as int),
            s.low_temp == low_temp,
            s.high_temp == high_temp,
            s.location is None,
            s.sun_times is None,
    {
        SharedAppState {
            requested_mode: ModeArg::Auto,
            current_mode: DayPhase::Day,
            automatic_mode: DayPhase::Day,
            current_temp: midpoint(low_temp, high_temp),
            low_temp,
            high_temp,
            location: None,
            sun_times: None,
        }
    }
}

/// The midpoint of the bounds, as the status reports it.
pub fn midpoint(low: i32, high: i32) -> (m: i32)
    ensures
        m == midpoint_spec(low as int, high as int),
        low <= high ==> low <= m <= high,
{
    let s: i64 = low as i64 + high as i64;
    let m: i64 = if s >= 0 {
        ((s as u64) / 2) as i64
    } else {
        -((((-s) as u64) / 2) as i64)
    };
    m as i32
}

/// The wire name of a requested mode.
pub fn mode_arg_name(m: ModeArg) -> (r: String)
    ensures
        r@ == mode_name(m),
{
    match m {
        ModeArg::Auto => "auto".to_owned(),
        ModeArg::Day => "day".to_owned(),
        ModeArg::Night => "night".to_owned(),
        ModeArg::Sunset => "sunset".to_owned(),
    }
}

/// The wire name of a day phase.
pub fn phase_arg_name(p: DayPhase) -> (r: String)
    ensures
        r@ == phase_name(p),
{
    match p {
        DayPhase::Night => "night".to_owned(),
        DayPhase::Sunrise => "sunrise".to_owned(),
        DayPhase::Day => "day".to_owned(),
        DayPhase::Sunset => "sunset".to_owned(),
    }
}

fn clone_sun_times(st: &Option<(String, String)>) -> (r: Option<(String, String)>)
    ensures
        same_sun_times(r, *st),
{
    match st {
        None => None,
        Some(pair) => Some((pair.0.clone(), pair.1.clone())),
    }
}

/// Build the status response for the current snapshot.
pub fn format_status_response(state: &SharedAppState) -> (r: IpcResponse)
    ensures
        status_of(r, *state),
{
    IpcResponse::Status {
        requested_mode: mode_arg_name(state.requested_mode),
        current_mode: phase_arg_name(state.current_mode),
        automatic_mode: phase_arg_name(state.automatic_mode),
        current_temp: state.current_temp,
        low_temp: state.low_temp,
        high_temp: state.high_temp,
        location: state.location,
        sun_times: clone_sun_times(&state.sun_times),
    }
}

/// Apply one decoded command to the snapshot and build the reply.
///
/// A mode request also hands back the mode to forward to the coordinator; an
/// unrecognized mode name keeps the previous requested mode. A temperature
/// request replaces the bounds and re-centers the reported temperature.
pub fn handle_command(cmd: IpcCommand, state: &mut SharedAppState) -> (r: (
    IpcResponse,
    Option<ModeArg>,
))
    ensures
        match cmd {
            IpcCommand::GetStatus => *final(state) == *old(state) && status_of(r.0, *old(state))
                && r.1 is None,
            IpcCommand::SetMode { mode } => {
                let m = mode_of_name(mode@, old(state).requested_mode);
                &&& *final(state) == (SharedAppState { requested_mode: m, ..*old(state) })
                &&& status_of(r.0, *final(state))
                &&& r.1 == Some(m)
            },
            IpcCommand::SetTemperature { low, high } => {
                &&& *final(state) == (SharedAppState {
                    low_temp: low,
                    high_temp: high,
                    current_temp: midpoint_spec(low as int, high as int) as i32,
                    ..*old(state)
                })
                &&& status_of(r.0, *final(state))
                &&& r.1 is None
            },
        },
{
    match cmd {
        IpcCommand::GetStatus => {
            let resp = format_status_response(state);
            (resp, None)
        },
        IpcCommand::SetMode { mode } => {
            let new_mode = if mode == "auto".to_owned() {
                ModeArg::Auto
            } else if mode == "day".to_owned() {
                ModeArg::Day
            } else if mode == "night".to_owned() {
                ModeArg::Night
            } else if mode == "sunset".to_owned() {
                ModeArg::Sunset
            } else {
                state.requested_mode
            };
            state.requested_mode = new_mode;
            let resp = format_status_response(state);
            (resp, Some(new_mode))
        },
        IpcCommand::SetTemperature { low, high } => {
            state.low_temp = low;
            state.high_temp = high;
            state.current_temp = midpoint(low, high);
            let resp = format_status_response(state);
            (resp, None)
        },
    }
}

} // verus!
