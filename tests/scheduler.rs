use std::str::FromStr;

use selenite_lamp::{
    delay_until, LampController, LampMode, ScheduleConfig, ScheduleError, Timer, TimerAction,
    TimerConfig, MAX_INSTANT_MS,
};

fn timer(mode: &str, cron: &str, duration: u64) -> Timer {
    Timer::new(TimerConfig {
        mode: mode.to_string(),
        schedule: ScheduleConfig(cron::Schedule::from_str(cron).unwrap()),
        duration,
    })
}

#[test]
fn delay_is_never_negative() {
    assert_eq!(delay_until(1_000, 400), 600);
    assert_eq!(delay_until(400, 1_000), 0);
    assert_eq!(delay_until(5, 5), 0);
    assert_eq!(delay_until(i64::MAX, i64::MIN), u64::MAX);
}

#[test]
fn separate_runs_are_each_switched_off() {
    let mut t = timer("busy", "0 * * * * *", 30);
    assert_eq!(t.take_occurrence(60_000, Some(120_000)), Ok(TimerAction::EnableAt(60_000)));
    assert_eq!(t.next_action(), Ok(TimerAction::DisableAt(90_000)));
}

#[test]
fn overlapping_runs_merge() {
    let mut t = timer("busy", "0 * * * * *", 30);
    assert_eq!(t.take_occurrence(0, Some(20_000)), Ok(TimerAction::EnableAt(0)));
    assert_eq!(t.take_occurrence(20_000, None), Ok(TimerAction::EnableAt(20_000)));
    assert_eq!(t.next_action(), Ok(TimerAction::DisableAt(50_000)));
    assert_eq!(t.next_action(), Ok(TimerAction::Finished));
}

#[test]
fn touching_runs_merge() {
    let mut t = timer("busy", "0 * * * * *", 30);
    assert_eq!(t.take_occurrence(0, Some(30_000)), Ok(TimerAction::EnableAt(0)));
    assert_eq!(t.take_occurrence(30_000, Some(90_000)), Ok(TimerAction::EnableAt(30_000)));
    assert_eq!(t.next_action(), Ok(TimerAction::DisableAt(60_000)));
}

#[test]
fn run_in_progress_is_caught_up() {
    let now = 1_700_000_010_000;
    let start = 1_700_000_000_000;
    let mut t = timer("busy", "0 * * * * *", 30);
    assert_eq!(t.take_occurrence(start, Some(start + 60_000)), Ok(TimerAction::EnableAt(start)));
    assert_eq!(delay_until(start, now), 0);
    assert_eq!(t.next_action(), Ok(TimerAction::DisableAt(start + 30_000)));
    assert_eq!(delay_until(start + 30_000, now), 20_000);
}

#[test]
fn occurrence_beyond_range_fails() {
    let mut t = timer("busy", "0 * * * * *", 30);
    assert_eq!(t.take_occurrence(i64::MAX - 10, None), Err(ScheduleError::OutOfRange));
    assert_eq!(t.next_action(), Ok(TimerAction::Finished));
    assert_eq!(t.start(i64::MIN + 5), Err(ScheduleError::OutOfRange));
}

#[test]
fn timer_follows_its_cron_schedule() {
    let now: i64 = 1_700_000_000_000;
    let mut t = timer("busy", "0 * * * * *", 30);
    assert_eq!(t.mode(), "busy");
    t.start(now).unwrap();
    let start = match t.next_action() {
        Ok(TimerAction::EnableAt(s)) => s,
        other => panic!("unexpected {:?}", other),
    };
    assert!(start > now - 30_000 && start <= now + 60_000);
    assert_eq!(start % 60_000, 0);
    assert_eq!(t.next_action(), Ok(TimerAction::DisableAt(start + 30_000)));
    assert_eq!(t.next_action(), Ok(TimerAction::EnableAt(start + 60_000)));
}

#[test]
fn busy_timer_over_quiet_default() {
    let mut lamp = LampController::new(
        "/tmp/lamp.json".to_string(),
        &[
            LampMode { name: "quiet".to_string(), command: "{\"q\":0}".to_string() },
            LampMode { name: "busy".to_string(), command: "{\"b\":1}".to_string() },
        ],
    );
    lamp.enable("quiet").unwrap();
    let mut sink = lamp.update_lamp(None).unwrap();
    assert_eq!(sink.as_deref(), Some("{\"q\":0}"));

    let mut t = timer("busy", "0 * * * * *", 30);
    let t0 = 1_700_000_040_000;
    assert_eq!(t.take_occurrence(t0, Some(t0 + 60_000)), Ok(TimerAction::EnableAt(t0)));
    lamp.enable(t.mode()).unwrap();
    if let Some(w) = lamp.update_lamp(sink.as_deref()).unwrap() {
        sink = Some(w);
    }
    assert_eq!(sink.as_deref(), Some("{\"b\":1}"));

    assert_eq!(t.next_action(), Ok(TimerAction::DisableAt(t0 + 30_000)));
    lamp.disable(t.mode()).unwrap();
    if let Some(w) = lamp.update_lamp(sink.as_deref()).unwrap() {
        sink = Some(w);
    }
    assert_eq!(sink.as_deref(), Some("{\"q\":0}"));
}

#[test]
fn lookback_includes_an_occurrence_at_its_instant() {
    let minute = 1_700_000_040_000;
    let mut t = timer("busy", "0 * * * * *", 30);
    t.start(minute + 30_000).unwrap();
    assert_eq!(t.next_action(), Ok(TimerAction::EnableAt(minute)));
    assert_eq!(t.next_action(), Ok(TimerAction::DisableAt(minute + 30_000)));
}

#[test]
fn begin_sets_the_first_occurrence() {
    let mut t = timer("busy", "0 * * * * *", 30);
    t.begin(Some(120_000));
    assert_eq!(t.next_action(), Ok(TimerAction::EnableAt(120_000)));
    let mut empty = timer("busy", "0 * * * * *", 30);
    empty.begin(None);
    assert_eq!(empty.next_action(), Ok(TimerAction::Finished));
}

#[test]
fn instants_outside_the_searchable_range_fail() {
    let mut t = timer("busy", "0 * * * * *", 30);
    assert_eq!(t.start(MAX_INSTANT_MS + 30_002), Err(ScheduleError::OutOfRange));
    assert_eq!(t.start(i64::MAX), Err(ScheduleError::OutOfRange));
    t.begin(Some(MAX_INSTANT_MS + 1));
    assert_eq!(t.next_action(), Err(ScheduleError::OutOfRange));
    assert_eq!(t.next_action(), Err(ScheduleError::OutOfRange));
    let mut far = timer("busy", "0 * * * * *", 30);
    assert_eq!(far.start(MAX_INSTANT_MS + 30_001), Ok(()));
    assert_eq!(far.next_action(), Ok(TimerAction::Finished));
}
