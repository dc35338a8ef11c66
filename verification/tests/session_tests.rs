use wlsunset_rs::color::fill_gamma_table;
use wlsunset_rs::session::{set_temperature_all, AppState};

#[test]
fn outputs_bind_gamma_once_manager_arrives() {
    let mut s = AppState::new();
    // output announced before the manager: nothing to request yet
    assert_eq!(s.register_output(7), false);
    // the manager arrives: every known output needs a request
    let newly = s.register_gamma_manager(3);
    assert_eq!(newly, vec![7]);
    // a second output binds immediately
    assert_eq!(s.register_output(9), true);
    // nothing is requested twice
    let again = s.ensure_gamma_all();
    assert!(again.is_empty());
    assert_eq!(s.ensure_gamma_for(7), false);
    assert_eq!(s.ensure_gamma_for(42), false);
}

#[test]
fn gamma_size_allocates_three_planes() {
    let mut s = AppState::new();
    s.register_gamma_manager(1);
    s.register_output(7);
    s.handle_gamma_size(7, 4);
    let entry = &s.outputs[0];
    assert_eq!(entry.0, 7);
    assert_eq!(entry.1.ramp_size, 4);
    assert_eq!(entry.1.table.as_ref().unwrap().len(), 12);
    assert!(entry.1.table.as_ref().unwrap().iter().all(|&v| v == 0));
}

#[test]
fn apply_rewrites_usable_buffers() {
    let mut s = AppState::new();
    s.register_gamma_manager(1);
    s.register_output(7);
    s.handle_gamma_size(7, 4);
    let applied = set_temperature_all(&mut s.outputs, 4000);
    assert_eq!(applied, vec![7]);
    let mut expected = vec![0u16; 12];
    fill_gamma_table(
        &mut expected,
        4,
        wlsunset_rs::color::blackbody_whitepoint_kelvin(4000),
    );
    assert_eq!(s.outputs[0].1.table.as_ref().unwrap(), &expected);
}

#[test]
fn gamma_failure_degrades_one_output() {
    let mut s = AppState::new();
    s.register_gamma_manager(1);
    s.register_output(7);
    s.register_output(8);
    s.handle_gamma_size(7, 4);
    s.handle_gamma_size(8, 4);
    s.handle_gamma_failed(8);
    let applied = set_temperature_all(&mut s.outputs, 5000);
    assert_eq!(applied, vec![7]);
    let failed = &s.outputs[1];
    assert_eq!(failed.0, 8);
    assert!(!failed.1.gamma);
    assert_eq!(failed.1.ramp_size, 0);
    assert!(failed.1.table.is_none());
}

#[test]
fn allocation_failure_marks_output_inert() {
    let mut s = AppState::new();
    s.register_gamma_manager(1);
    s.register_output(7);
    s.handle_gamma_size(7, 4);
    s.mark_table_failed(7);
    assert!(s.outputs[0].1.table.is_none());
    let applied = set_temperature_all(&mut s.outputs, 5000);
    assert!(applied.is_empty());
}

#[test]
fn removed_output_leaves_no_buffer_and_apply_is_noop() {
    let mut s = AppState::new();
    s.register_gamma_manager(1);
    s.register_output(7);
    s.handle_gamma_size(7, 4);
    s.remove_output(7);
    assert!(s.outputs.is_empty());
    let applied = set_temperature_all(&mut s.outputs, 4500);
    assert!(applied.is_empty());
    assert!(s.outputs.is_empty());
}

#[test]
fn global_remove_clears_manager_binding() {
    let mut s = AppState::new();
    s.register_gamma_manager(3);
    s.register_output(7);
    s.handle_global_remove(3);
    assert!(!s.gamma_mgr);
    assert_eq!(s.gamma_mgr_name, None);
    // the remaining output keeps its binding
    assert_eq!(s.outputs.len(), 1);
    assert!(s.outputs[0].1.gamma);
    // removing an output global drops its record
    s.handle_global_remove(7);
    assert!(s.outputs.is_empty());
}

#[test]
fn output_names_are_recorded() {
    let mut s = AppState::new();
    s.register_output(7);
    s.set_output_name(7, String::from("DP-1"));
    assert_eq!(s.outputs[0].1.name.as_deref(), Some("DP-1"));
    // a name for an unknown output is ignored
    s.set_output_name(9, String::from("HDMI-1"));
    assert_eq!(s.outputs.len(), 1);
}

#[test]
fn re_announced_output_starts_fresh() {
    let mut s = AppState::new();
    s.register_gamma_manager(1);
    s.register_output(7);
    s.handle_gamma_size(7, 4);
    // the compositor announces the same global name again
    assert_eq!(s.register_output(7), true);
    assert_eq!(s.outputs.len(), 1);
    assert_eq!(s.outputs[0].1.ramp_size, 0);
    assert!(s.outputs[0].1.table.is_none());
}

#[test]
fn gamma_can_be_rebound_after_failure() {
    let mut s = AppState::new();
    s.register_gamma_manager(1);
    s.register_output(7);
    s.handle_gamma_failed(7);
    assert!(!s.outputs[0].1.gamma);
    assert_eq!(s.ensure_gamma_for(7), true);
    assert!(s.outputs[0].1.gamma);
}
