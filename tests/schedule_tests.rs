use ascii_rs::error::AppError;
use ascii_rs::player::Player;
use ascii_rs::rle::{RleFrame, RleRun};
use ascii_rs::schedule::{frame_timing, wait_action, FpsWindow, FrameRate, PlaybackClock, WaitAction};
use ascii_rs::terminal::TerminalManager;

#[test]
fn lag_free_playback_visits_every_index_in_order() {
    let mut clock = PlaybackClock::new(100, 5);
    let mut seen = Vec::new();
    while clock.should_continue(false, false) {
        seen.push(clock.index);
        let completion = clock.target_ns() + 40;
        clock.advance(completion);
    }
    assert_eq!(seen, vec![0, 1, 2, 3, 4]);
}

#[test]
fn lag_skips_whole_intervals() {
    // interval 100, frame 2 completes 250 after frame 3's target: skip 2
    let mut clock = PlaybackClock::new(100, 20);
    clock.index = 2;
    clock.advance(300 + 250);
    assert_eq!(clock.index, 2 + 2 + 1);
    // lag below one interval: one step
    let mut clock = PlaybackClock::new(100, 20);
    clock.index = 2;
    clock.advance(300 + 99);
    assert_eq!(clock.index, 3);
    // clamped to the frame count
    let mut clock = PlaybackClock::new(100, 4);
    clock.advance(100 + 10_000);
    assert_eq!(clock.index, 4);
    assert!(!clock.should_continue(false, false));
}

#[test]
fn stop_requests_end_the_loop() {
    let clock = PlaybackClock::new(100, 4);
    assert!(clock.should_continue(false, false));
    assert!(!clock.should_continue(true, false));
    assert!(!clock.should_continue(false, true));
}

#[test]
fn targets_are_recomputed_from_the_start() {
    let mut clock = PlaybackClock::new(33_333_333, 1000);
    clock.index = 999;
    assert_eq!(clock.target_ns(), 999 * 33_333_333);
}

#[test]
fn timing_policy() {
    let t = frame_timing(Some(FrameRate { num: 25, den: 1 }), None, 10);
    assert_eq!((t.interval_ns, t.total_ns), (40_000_000, 400_000_000));
    let t = frame_timing(Some(FrameRate { num: 30000, den: 1001 }), Some(5_000_000_000), 10);
    assert_eq!((t.interval_ns, t.total_ns), (33_366_666, 5_000_000_000));
    let t = frame_timing(None, Some(2_000_000_000), 8);
    assert_eq!((t.interval_ns, t.total_ns), (250_000_000, 2_000_000_000));
    let t = frame_timing(Some(FrameRate { num: 0, den: 1 }), Some(0), 3);
    assert_eq!((t.interval_ns, t.total_ns), (100_000_000, 300_000_000));
    let t = frame_timing(None, None, 3);
    assert_eq!((t.interval_ns, t.total_ns), (100_000_000, 300_000_000));
}

#[test]
fn tiered_waiting() {
    assert_eq!(wait_action(500, 500), WaitAction::Ready);
    assert_eq!(wait_action(600, 500), WaitAction::Ready);
    assert_eq!(wait_action(0, 999_999), WaitAction::Spin);
    assert_eq!(wait_action(0, 1_500_000), WaitAction::Yield);
    assert_eq!(wait_action(0, 10_000_000), WaitAction::Sleep(9_000_000));
}

#[test]
fn fps_window_keeps_the_last_second() {
    let mut w = FpsWindow::new();
    w.record(0);
    w.record(500_000_000);
    w.record(999_999_999);
    assert_eq!(w.fps(), 3);
    w.record(1_000_000_000);
    assert_eq!(w.fps(), 3);
    w.record(2_500_000_000);
    assert_eq!(w.fps(), 1);
}

fn frame(width: u16, idx: u8) -> RleFrame {
    RleFrame { width, runs: vec![RleRun { ascii_idx: idx, color: [1, 1, 1], count: width }] }
}

#[test]
fn player_needs_frames() {
    let r = Player::new(Vec::new(), None, None, TerminalManager::new());
    assert_eq!(r.err(), Some(AppError::FrameProcessing));
}

#[test]
fn player_renders_and_advances() {
    let frames = vec![frame(2, 1), frame(2, 2), frame(2, 2)];
    let mut p = Player::new(frames, Some(FrameRate { num: 10, den: 1 }), None, TerminalManager::new())
        .ok()
        .unwrap();
    assert_eq!(p.timing.interval_ns, 100_000_000);
    let plan = p.render(0, 60, "m");
    assert_eq!(plan.writes.len(), 2);
    assert_eq!(plan.writes[0].0, 0);
    assert!(plan.writes[1].1.contains("[Time: 00:00 / 00:00 | Frame: 1 / 3 | FPS: 0.0 | m]"));
    p.frame_done(50_000_000);
    assert_eq!(p.clock.index, 1);
    let plan = p.render(100_000_000, 60, "m");
    // the frame line changed and so did the status line
    assert_eq!(plan.writes.len(), 2);
    p.frame_done(450_000_000);
    // completed 250 ms after frame 2's target: two frames dropped, clamped to the end
    assert_eq!(p.clock.index, 3);
}
