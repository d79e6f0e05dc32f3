use efficiency_benchmark::machine::{Action, Event, LoopState, Phase};
use efficiency_benchmark::power::{get_battery_percentage, is_plugged, ChargeState};
use efficiency_benchmark::run_id::{make_run_id, parse_record_name, RunStamp};

#[test]
fn a_run_gates_until_unplugged() {
    let mut st = LoopState::start(false, false);
    assert_eq!(st.next_action(), Action::CheckPower);
    st.step(Event::PowerChecked { plugged: true });
    assert_eq!(st.phase, Phase::Gating);
    assert_eq!(st.next_action(), Action::CheckPower);
    st.step(Event::PowerChecked { plugged: false });
    assert_eq!(st.phase, Phase::Preparing);
    assert_eq!(st.next_action(), Action::Prepare);
}

#[test]
fn one_successful_iteration_scores_once_and_cleans_up() {
    let mut st = LoopState::start(false, true);
    st.step(Event::PowerChecked { plugged: false });
    st.step(Event::Prepared { ok: true });
    // preparing removed the stale build directory
    assert!(!st.build_dir_present);
    assert_eq!(st.next_action(), Action::CopyTree);
    st.step(Event::Copied { ok: true });
    assert!(st.build_dir_present);
    assert_eq!(st.next_action(), Action::RunBuild);
    st.step(Event::Built { success: true });
    assert_eq!(st.next_action(), Action::PersistScore);
    assert_eq!(st.score, 0);
    st.step(Event::Scored { ok: true });
    assert_eq!(st.score, 1);
    assert_eq!(st.next_action(), Action::RemoveBuildDir);
    st.step(Event::Cleaned { ok: true });
    // after Cleaning the disposable build directory no longer exists
    assert!(!st.build_dir_present);
    // and the loop goes straight back to copying
    assert_eq!(st.phase, Phase::Copying);
}

#[test]
fn gate_each_iteration_returns_to_gating() {
    let mut st = LoopState::start(true, false);
    st.step(Event::PowerChecked { plugged: false });
    st.step(Event::Prepared { ok: true });
    st.step(Event::Copied { ok: true });
    st.step(Event::Built { success: true });
    st.step(Event::Scored { ok: true });
    st.step(Event::Cleaned { ok: true });
    assert_eq!(st.phase, Phase::Gating);
    assert_eq!(st.score, 1);
}

#[test]
fn failed_build_ends_the_run_without_scoring() {
    let mut st = LoopState::start(false, false);
    st.step(Event::PowerChecked { plugged: false });
    st.step(Event::Prepared { ok: true });
    st.step(Event::Copied { ok: true });
    st.step(Event::Built { success: true });
    st.step(Event::Scored { ok: true });
    st.step(Event::Cleaned { ok: true });
    assert_eq!(st.score, 1);
    st.step(Event::Copied { ok: true });
    st.step(Event::Built { success: false });
    assert_eq!(st.phase, Phase::Failed);
    assert_eq!(st.next_action(), Action::Stop);
    // no score was awarded for the failed iteration, and none ever will be
    assert_eq!(st.score, 1);
    st.step(Event::Scored { ok: true });
    assert_eq!(st.phase, Phase::Failed);
    assert_eq!(st.score, 1);
}

#[test]
fn failed_copy_is_fatal() {
    let mut st = LoopState::start(false, false);
    st.step(Event::PowerChecked { plugged: false });
    st.step(Event::Prepared { ok: true });
    st.step(Event::Copied { ok: false });
    assert_eq!(st.phase, Phase::Failed);
    assert_eq!(st.score, 0);
}

#[test]
fn failed_cleanup_is_fatal() {
    let mut st = LoopState::start(false, false);
    st.step(Event::PowerChecked { plugged: false });
    st.step(Event::Prepared { ok: true });
    st.step(Event::Copied { ok: true });
    st.step(Event::Built { success: true });
    st.step(Event::Scored { ok: true });
    st.step(Event::Cleaned { ok: false });
    assert_eq!(st.phase, Phase::Failed);
    assert_eq!(st.score, 1);
}

#[test]
fn failed_preparation_is_fatal() {
    let mut st = LoopState::start(false, false);
    st.step(Event::PowerChecked { plugged: false });
    st.step(Event::Prepared { ok: false });
    assert_eq!(st.phase, Phase::Failed);
}

#[test]
fn plugged_means_charging_or_full() {
    assert!(is_plugged(Some(ChargeState::Charging)));
    assert!(is_plugged(Some(ChargeState::Full)));
    assert!(!is_plugged(Some(ChargeState::Discharging)));
    assert!(!is_plugged(Some(ChargeState::Empty)));
    assert!(!is_plugged(Some(ChargeState::Unknown)));
    assert!(!is_plugged(None));
}

#[test]
fn missing_battery_reports_full_charge() {
    assert_eq!(get_battery_percentage(None), 100);
    assert_eq!(get_battery_percentage(Some(55)), 55);
    assert_eq!(get_battery_percentage(Some(0)), 0);
}

#[test]
fn run_id_formats_date_and_time() {
    assert_eq!(
        make_run_id(1, 1, 2024, 10, 0),
        b"benchmark-01-01-2024_10:00.log".to_vec()
    );
    assert_eq!(
        make_run_id(31, 12, 999, 23, 59),
        b"benchmark-31-12-0999_23:59.log".to_vec()
    );
}

#[test]
fn record_name_parses_back_to_its_stamp() {
    let id = make_run_id(2, 1, 2024, 9, 30);
    let stamp = parse_record_name(&id).unwrap();
    assert_eq!(stamp.date, b"02-01-2024".to_vec());
    assert_eq!(stamp.time, b"09:30".to_vec());
}

#[test]
fn names_without_the_record_shape_do_not_parse() {
    assert!(parse_record_name(b"notes.txt").is_none());
    assert!(parse_record_name(b"benchmark-nodate.log").is_none());
    assert!(parse_record_name(b"benchmark-01-01-2024_10:00").is_none());
    assert!(parse_record_name(b"01-01-2024_10:00.log").is_none());
    assert!(parse_record_name(b"").is_none());
}

#[test]
fn stamps_order_by_date_then_time() {
    let a = RunStamp { date: b"01-01-2024".to_vec(), time: b"10:00".to_vec() };
    let b = RunStamp { date: b"02-01-2024".to_vec(), time: b"09:00".to_vec() };
    let c = RunStamp { date: b"02-01-2024".to_vec(), time: b"11:00".to_vec() };
    assert!(a.is_before(&b));
    assert!(!b.is_before(&a));
    assert!(b.is_before(&c));
    assert!(!c.is_before(&c));
}
