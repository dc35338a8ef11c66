use wlsunset_rs::cli::ModeArg;
use wlsunset_rs::ipc::{
    format_status_response, handle_command, IpcCommand, IpcResponse, SharedAppState,
};
use wlsunset_rs::scheduling::DayPhase;

fn fresh_state() -> SharedAppState {
    SharedAppState::new(4000, 6500)
}

fn status_fields(r: &IpcResponse) -> (&str, &str, &str, i32, i32, i32) {
    match r {
        IpcResponse::Status {
            requested_mode,
            current_mode,
            automatic_mode,
            current_temp,
            low_temp,
            high_temp,
            ..
        } => (
            requested_mode,
            current_mode,
            automatic_mode,
            *current_temp,
            *low_temp,
            *high_temp,
        ),
        IpcResponse::Error { .. } => panic!("expected a status response"),
    }
}

#[test]
fn new_state_starts_at_the_midpoint() {
    let s = fresh_state();
    assert_eq!(s.requested_mode, ModeArg::Auto);
    assert_eq!(s.current_mode, DayPhase::Day);
    assert_eq!(s.automatic_mode, DayPhase::Day);
    assert_eq!(s.current_temp, 5250);
    assert_eq!(s.low_temp, 4000);
    assert_eq!(s.high_temp, 6500);
    assert!(s.location.is_none());
    assert!(s.sun_times.is_none());
}

#[test]
fn status_response_reports_the_snapshot() {
    let mut s = fresh_state();
    s.current_mode = DayPhase::Sunset;
    s.automatic_mode = DayPhase::Night;
    s.location = Some((48_800_000, 2_300_000));
    s.sun_times = Some((String::from("06:12"), String::from("18:40")));
    let r = format_status_response(&s);
    let (req, cur, auto, temp, low, high) = status_fields(&r);
    assert_eq!(req, "auto");
    assert_eq!(cur, "sunset");
    assert_eq!(auto, "night");
    assert_eq!(temp, 5250);
    assert_eq!(low, 4000);
    assert_eq!(high, 6500);
    match &r {
        IpcResponse::Status { location, sun_times, .. } => {
            assert_eq!(*location, Some((48_800_000, 2_300_000)));
            let st = sun_times.as_ref().unwrap();
            assert_eq!(st.0, "06:12");
            assert_eq!(st.1, "18:40");
        }
        IpcResponse::Error { .. } => panic!("expected a status response"),
    }
}

#[test]
fn set_mode_updates_and_forwards() {
    let mut s = fresh_state();
    let (r, fwd) = handle_command(
        IpcCommand::SetMode { mode: String::from("night") },
        &mut s,
    );
    assert_eq!(s.requested_mode, ModeArg::Night);
    assert_eq!(fwd, Some(ModeArg::Night));
    assert_eq!(status_fields(&r).0, "night");
}

#[test]
fn unknown_mode_keeps_the_previous_request() {
    let mut s = fresh_state();
    s.requested_mode = ModeArg::Sunset;
    let (r, fwd) = handle_command(
        IpcCommand::SetMode { mode: String::from("twilight") },
        &mut s,
    );
    assert_eq!(s.requested_mode, ModeArg::Sunset);
    assert_eq!(fwd, Some(ModeArg::Sunset));
    assert_eq!(status_fields(&r).0, "sunset");
}

#[test]
fn set_temperature_recenters() {
    let mut s = fresh_state();
    let (r, fwd) = handle_command(IpcCommand::SetTemperature { low: 3000, high: 5000 }, &mut s);
    assert_eq!(fwd, None);
    assert_eq!(s.low_temp, 3000);
    assert_eq!(s.high_temp, 5000);
    assert_eq!(s.current_temp, 4000);
    let (_, _, _, temp, low, high) = status_fields(&r);
    assert_eq!((temp, low, high), (4000, 3000, 5000));
}

#[test]
fn get_status_leaves_the_state_alone() {
    let mut s = fresh_state();
    s.requested_mode = ModeArg::Day;
    let (r, fwd) = handle_command(IpcCommand::GetStatus, &mut s);
    assert_eq!(fwd, None);
    assert_eq!(s.requested_mode, ModeArg::Day);
    assert_eq!(status_fields(&r).0, "day");
}
