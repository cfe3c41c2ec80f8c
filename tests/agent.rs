use maple_timer::agent::{AgentCore, WakeAction};
use maple_timer::capture::{CaptureSchedule, CAPTURE_PERIOD_MS};
use maple_timer::frame::{Bgra, Frame};
use maple_timer::jinhillah::JinHillahHpMatchResult;
use maple_timer::screen_dimension::ScreenDimension;
use maple_timer::slot::FrameSlot;
use maple_timer::timers::{duration_realtime, remaining_time, starts_new_cycle, VSkillKind};

#[test]
fn rate_limit_spaces_evaluations() {
    let mut a = AgentCore::new(490, false);
    assert_eq!(a.on_wake(1000, true), WakeAction::Evaluate);
    assert_eq!(a.on_wake(1200, true), WakeAction::Skip);
    assert_eq!(a.on_wake(1489, true), WakeAction::Skip);
    assert_eq!(a.on_wake(1490, true), WakeAction::Evaluate);
    assert_eq!(a.last_match, Some(1490));
}

#[test]
fn rate_limit_counts_wakeups_without_frame() {
    let mut a = AgentCore::new(100, false);
    assert_eq!(a.on_wake(0, false), WakeAction::Skip);
    assert_eq!(a.last_match, Some(0));
    assert_eq!(a.on_wake(50, true), WakeAction::Skip);
    assert_eq!(a.on_wake(100, true), WakeAction::Evaluate);
}

#[test]
fn no_rate_limit_evaluates_every_frame() {
    let mut a = AgentCore::new(0, false);
    for t in 0..5 {
        assert_eq!(a.on_wake(t, true), WakeAction::Evaluate);
    }
}

#[test]
fn suspension_until_woken() {
    let mut a = AgentCore::new(0, true);
    assert_eq!(a.on_wake(1, true), WakeAction::Evaluate);
    a.on_published(true);
    assert!(a.suspended);
    assert_eq!(a.on_wake(2, true), WakeAction::Skip);
    assert_eq!(a.on_wake(3, true), WakeAction::Skip);
    a.wake();
    assert_eq!(a.on_wake(4, true), WakeAction::Evaluate);
}

#[test]
fn failed_publish_does_not_suspend() {
    let mut a = AgentCore::new(0, true);
    a.on_published(false);
    assert!(!a.suspended);
    let mut b = AgentCore::new(0, false);
    b.on_published(true);
    assert!(!b.suspended);
    assert_eq!(b.on_wake(1, true), WakeAction::Evaluate);
}

#[test]
fn slot_write_wakes_waiting_readers() {
    let mut s = FrameSlot::new();
    let seen = s.generation;
    assert!(!s.has_news(seen));
    s.write(Frame::filled(2, 2, Bgra { b: 1, g: 2, r: 3, a: 4 }));
    assert!(s.has_news(seen));
    assert_eq!(s.generation, 1);
    assert_eq!(s.frame.as_ref().map(|f| f.width), Some(2));
    let mut t = FrameSlot { generation: u64::MAX, frame: None };
    t.write(Frame::filled(1, 1, Bgra { b: 0, g: 0, r: 0, a: 0 }));
    assert_eq!(t.generation, 0);
    assert!(t.has_news(u64::MAX));
}

#[test]
fn screen_dimension_values() {
    let d = ScreenDimension::default();
    assert_eq!(d, ScreenDimension::X1280Y720);
    assert_eq!((d.width(), d.height()), (1280, 720));
    assert_eq!(d.to_str(), "1280x720");
}

#[test]
fn vskill_duration() {
    assert_eq!(VSkillKind::FatalStrike.duration_secs(), 30);
}

#[test]
fn remaining_time_saturates() {
    assert_eq!(remaining_time(None, 30, 5), None);
    assert_eq!(remaining_time(Some(10), 30, 15), Some(25));
    assert_eq!(remaining_time(Some(10), 30, 40), Some(0));
    assert_eq!(remaining_time(Some(10), 30, 99), Some(0));
}

#[test]
fn jinhillah_duration_follows_health() {
    assert_eq!(duration_realtime(false, None), 150);
    assert_eq!(duration_realtime(true, None), 180);
    let full = JinHillahHpMatchResult { level: 1, remaining_pixels: 757 };
    assert_eq!(duration_realtime(false, Some(full)), 150);
    // phase 3 with the bar at 40%: (1 + 0.4) / 4 = 0.35
    let mid = JinHillahHpMatchResult { level: 3, remaining_pixels: 302 };
    assert_eq!(duration_realtime(false, Some(mid)), 125);
    assert_eq!(duration_realtime(true, Some(mid)), 155);
    // phase 4 with the bar at 100%: 0.25
    let low = JinHillahHpMatchResult { level: 4, remaining_pixels: 757 };
    assert_eq!(duration_realtime(false, Some(low)), 100);
    assert_eq!(duration_realtime(true, Some(low)), 120);
    // phase 2 with an empty bar: exactly 0.5
    let half = JinHillahHpMatchResult { level: 2, remaining_pixels: 0 };
    assert_eq!(duration_realtime(false, Some(half)), 125);
}

#[test]
fn jinhillah_new_cycle_rules() {
    assert!(starts_new_cycle(Some(5), None, 150));
    assert!(!starts_new_cycle(None, Some(5), 150));
    assert!(!starts_new_cycle(Some(100), Some(5), 150));
    assert!(starts_new_cycle(Some(155), Some(5), 150));
}

#[test]
fn capture_schedule_keeps_cadence() {
    let mut s = CaptureSchedule::new(CAPTURE_PERIOD_MS, 1000);
    assert_eq!(s.sleep_before_next(1010), 40);
    assert_eq!(s.sleep_before_next(1070), 0);
    assert!(s.can_advance());
    s.captured();
    assert_eq!(s.sleep_before_next(1070), 30);
}

#[test]
fn capture_delays_do_not_add_up() {
    let mut s = CaptureSchedule::new(50, 0);
    // the first capture is due at 50 and finishes late, at 60
    assert_eq!(s.sleep_before_next(0), 50);
    s.captured();
    assert_eq!(s.next_deadline, 100);
    assert_eq!(s.sleep_before_next(60), 40);
    // far behind: the overdue captures follow at once
    s.captured();
    assert_eq!(s.sleep_before_next(260), 0);
    assert!(!CaptureSchedule::new(10, u64::MAX - 10).can_advance());
}
