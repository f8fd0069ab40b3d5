use quietmytempo::clock::SessionClock;
use quietmytempo::evaluator::{TapResult, TimingEvent};
use quietmytempo::feedback::{accuracy_band, distribution_widths, AccuracyBand, TapHistory, HISTORY_LEN};
use quietmytempo::keyboard::{signal_for_key, KeyPress, KeyboardSignal};
use quietmytempo::menu::{try_select, MenuEntry, MenuOutcome, MenuState, MENU_ENTRY_COUNT};
use quietmytempo::metronome::{duration_to_frames, ClickTrigger, LatencyEstimate};
use quietmytempo::schedule::{ClickEvent, ExpectedTap};
use quietmytempo::session::{
    bar_position, most_recent_click_instant, result_screen_choice, session_tap, LiveSession,
    ResultScreenOutcome,
};

fn ms(v: u64) -> u64 {
    v * 1_000_000
}

fn scored(at_ms: u64, deviation_ms: i128) -> TapResult {
    TapResult {
        expected: ExpectedTap::scored(ms(at_ms)),
        actual: TimingEvent { at: (ms(at_ms) as i128 + deviation_ms * 1_000_000) as u64 },
        deviation_ns: deviation_ms * 1_000_000,
    }
}

#[test]
fn keys_become_signals() {
    assert_eq!(
        signal_for_key(KeyPress::Char(' '), false, 42),
        Some(KeyboardSignal::Tap(TimingEvent { at: 42 }))
    );
    assert_eq!(signal_for_key(KeyPress::Char('q'), false, 0), Some(KeyboardSignal::Quit));
    assert_eq!(signal_for_key(KeyPress::Char('c'), true, 0), Some(KeyboardSignal::Quit));
    assert_eq!(signal_for_key(KeyPress::Char('c'), false, 0), Some(KeyboardSignal::Shortcut('c')));
    assert_eq!(signal_for_key(KeyPress::Esc, false, 0), Some(KeyboardSignal::Quit));
    assert_eq!(signal_for_key(KeyPress::Char('k'), false, 0), Some(KeyboardSignal::Up));
    assert_eq!(signal_for_key(KeyPress::Char('j'), false, 0), Some(KeyboardSignal::Down));
    assert_eq!(signal_for_key(KeyPress::Up, false, 0), Some(KeyboardSignal::Up));
    assert_eq!(signal_for_key(KeyPress::Down, false, 0), Some(KeyboardSignal::Down));
    assert_eq!(signal_for_key(KeyPress::Enter, false, 0), Some(KeyboardSignal::Select));
    assert_eq!(signal_for_key(KeyPress::Char('m'), false, 0), Some(KeyboardSignal::BackToMenu));
    assert_eq!(signal_for_key(KeyPress::Char('T'), false, 0), Some(KeyboardSignal::Shortcut('t')));
    assert_eq!(signal_for_key(KeyPress::Char('7'), false, 0), None);
    assert_eq!(signal_for_key(KeyPress::Other, false, 0), None);
}

#[test]
fn menu_wraps_around_and_down_then_up_returns() {
    let mut menu = MenuState::new();
    assert_eq!(menu.focused(), 0);
    assert_eq!(menu.handle(KeyboardSignal::Up, false), None);
    assert_eq!(menu.focused(), MENU_ENTRY_COUNT - 1);
    assert_eq!(menu.handle(KeyboardSignal::Down, false), None);
    assert_eq!(menu.focused(), 0);
    menu.handle(KeyboardSignal::Down, false);
    menu.handle(KeyboardSignal::Down, false);
    assert_eq!(menu.focused(), 2);
    menu.handle(KeyboardSignal::Up, false);
    assert_eq!(menu.focused(), 1);
}

#[test]
fn locked_modes_cannot_be_selected_before_calibration() {
    let mut menu = MenuState::new();
    assert_eq!(menu.handle(KeyboardSignal::Select, false), None);
    assert_eq!(
        menu.handle(KeyboardSignal::Select, true),
        Some(MenuOutcome::Selected(MenuEntry::TapAlong))
    );
    assert_eq!(try_select(MenuEntry::Calibrate, false), Some(MenuOutcome::Selected(MenuEntry::Calibrate)));
    assert_eq!(try_select(MenuEntry::Quit, false), Some(MenuOutcome::Quit));
    assert_eq!(try_select(MenuEntry::RhythmReader, false), None);
}

#[test]
fn shortcuts_jump_to_and_select_their_entry() {
    let mut menu = MenuState::new();
    assert_eq!(
        menu.handle(KeyboardSignal::Shortcut('f'), true),
        Some(MenuOutcome::Selected(MenuEntry::QuietFour))
    );
    assert_eq!(menu.focused(), 1);
    assert_eq!(menu.handle(KeyboardSignal::Shortcut('u'), false), None);
    assert_eq!(menu.focused(), 2);
    assert_eq!(menu.handle(KeyboardSignal::Shortcut('z'), true), None);
    assert_eq!(menu.focused(), 2);
    assert_eq!(menu.handle(KeyboardSignal::Quit, false), Some(MenuOutcome::Quit));
    for i in 0..MENU_ENTRY_COUNT {
        let entry = MenuEntry::at(i);
        assert_eq!(entry.index(), i);
        assert_eq!(MenuEntry::by_shortcut(entry.shortcut()), Some(entry));
    }
}

#[test]
fn calibration_label_depends_on_calibration_state() {
    assert_eq!(MenuEntry::Calibrate.label(false), "Run calibration");
    assert_eq!(MenuEntry::Calibrate.label(true), "Redo calibration");
    assert_eq!(MenuEntry::QuietFour.label(false), "Quiet Four");
    assert!(MenuEntry::Tuplets.requires_calibration());
    assert!(!MenuEntry::Calibrate.requires_calibration());
}

#[test]
fn accuracy_bands_use_fifteen_and_forty_ms() {
    assert_eq!(accuracy_band(15_000_000), AccuracyBand::OnTime);
    assert_eq!(accuracy_band(-15_000_000), AccuracyBand::OnTime);
    assert_eq!(accuracy_band(15_000_001), AccuracyBand::Close);
    assert_eq!(accuracy_band(-40_000_000), AccuracyBand::Close);
    assert_eq!(accuracy_band(40_000_001), AccuracyBand::Off);
}

#[test]
fn history_keeps_the_last_ten_and_counts_scored_bands() {
    let mut history = TapHistory::new();
    for i in 0..12u64 {
        history.push_result(scored(i * 500, i as i128 * 5));
    }
    assert_eq!(history.recent.len(), HISTORY_LEN);
    assert_eq!(history.recent[0].expected.at, ms(1000));
    assert_eq!(history.recent[HISTORY_LEN - 1].expected.at, ms(5500));
    assert_eq!(history.on_time, 4);
    assert_eq!(history.close, 5);
    assert_eq!(history.off, 3);
    let informational = TapResult {
        expected: ExpectedTap::informational(0),
        actual: TimingEvent { at: 0 },
        deviation_ns: 0,
    };
    history.push_result(informational);
    assert_eq!(history.on_time, 4);
    assert_eq!(history.recent.len(), HISTORY_LEN);
}

#[test]
fn live_session_scores_and_counts_rejected_taps() {
    let mut session = LiveSession::new(vec![ExpectedTap::scored(0), ExpectedTap::scored(ms(500))], ms(250));
    assert!(session.on_tap(TimingEvent { at: ms(10) }).is_some());
    assert!(session.on_tap(TimingEvent { at: ms(20) }).is_none());
    assert!(session.on_tap(TimingEvent { at: ms(490) }).is_some());
    assert_eq!(session.results().len(), 2);
    assert_eq!(session.rejected_taps(), 1);
    let summary = session.summary();
    assert_eq!(summary.scored_count, 2);
    assert_eq!(summary.total_deviation_ns, 0);
}

#[test]
fn result_screen_keys() {
    assert_eq!(result_screen_choice(KeyboardSignal::Select), Some(ResultScreenOutcome::Restart));
    assert_eq!(
        result_screen_choice(KeyboardSignal::Tap(TimingEvent { at: 0 })),
        Some(ResultScreenOutcome::Restart)
    );
    assert_eq!(result_screen_choice(KeyboardSignal::BackToMenu), Some(ResultScreenOutcome::BackToMenu));
    assert_eq!(result_screen_choice(KeyboardSignal::Quit), Some(ResultScreenOutcome::Quit));
    assert_eq!(result_screen_choice(KeyboardSignal::Up), None);
}

#[test]
fn bar_and_beat_position_count_from_one() {
    assert_eq!(bar_position(0, 120, 4), (1, 1));
    assert_eq!(bar_position(ms(499), 120, 4), (1, 1));
    assert_eq!(bar_position(ms(500), 120, 4), (1, 2));
    assert_eq!(bar_position(ms(2000), 120, 4), (2, 1));
    assert_eq!(bar_position(ms(5700), 120, 4), (3, 4));
}

#[test]
fn most_recent_click_is_the_last_one_not_after_now() {
    let clicks = vec![ClickEvent { at: 0 }, ClickEvent { at: ms(500) }, ClickEvent { at: ms(1000) }];
    assert_eq!(most_recent_click_instant(&clicks, ms(700)), Some(ms(200)));
    assert_eq!(most_recent_click_instant(&clicks, ms(1000)), Some(0));
    assert_eq!(most_recent_click_instant(&clicks[1..], ms(100)), None);
}

#[test]
fn click_frames_follow_the_sample_rate() {
    assert_eq!(duration_to_frames(ms(500), 48_000), 24_000);
    assert_eq!(duration_to_frames(1, 44_100), 0);
    assert_eq!(duration_to_frames(u64::MAX, u32::MAX), u64::MAX);
    let clicks = vec![ClickEvent { at: ms(1000) }, ClickEvent { at: 0 }, ClickEvent { at: ms(500) }];
    let mut trigger = ClickTrigger::new(&clicks, 1000);
    assert_eq!(trigger.due(0), 1);
    assert_eq!(trigger.due(499), 0);
    assert_eq!(trigger.due(2000), 2);
    assert_eq!(trigger.due(3000), 0);
}

#[test]
fn rebasing_moves_timestamps_between_clocks() {
    let global = SessionClock::started_at(1_000);
    let round = SessionClock::started_at(1_500);
    assert_eq!(round.rebase(global, 700), 200);
    assert_eq!(round.rebase(global, 300), 0);
    assert_eq!(global.rebase(global, 12_345), 12_345);
    assert_eq!(round.elapsed_at(1_400), 0);
    assert_eq!(round.elapsed_at(2_500), 1_000);
}

#[test]
fn the_system_clock_moves_forward_from_a_fresh_start() {
    let clock = SessionClock::start_now();
    let later = SessionClock::start_now();
    let gap = later.rebase(clock, clock.elapsed());
    assert!(gap < 60_000_000_000);
    assert!(clock.elapsed() < 60_000_000_000);
    let epoch = SessionClock::started_at(0);
    assert!(epoch.elapsed() > 1_500_000_000_000_000_000);
}

#[test]
fn distribution_bar_fills_its_width() {
    assert_eq!(distribution_widths(1, 1, 1, 10), (3, 3, 4));
    assert_eq!(distribution_widths(5, 0, 0, 7), (7, 0, 0));
    assert_eq!(distribution_widths(0, 0, 2, 9), (0, 0, 9));
    assert_eq!(distribution_widths(usize::MAX, 1, 0, 100), (99, 0, 1));
}

#[test]
fn latency_estimate_is_shared_between_clones() {
    let estimate = LatencyEstimate::new();
    assert_eq!(estimate.get(), 0);
    let writer = estimate.clone();
    writer.set(12_000_000);
    assert_eq!(estimate.get(), 12_000_000);
}

#[test]
fn taps_are_moved_onto_the_session_clock_and_compensated() {
    let global = SessionClock::started_at(ms(1_000));
    let session = SessionClock::started_at(ms(3_000));
    let tap = session_tap(&session, global, TimingEvent { at: ms(2_540) }, 40);
    assert_eq!(tap.at, ms(500));
    let late = session_tap(&session, global, TimingEvent { at: ms(2_540) }, -60);
    assert_eq!(late.at, ms(600));
    let before = session_tap(&session, global, TimingEvent { at: ms(1_000) }, 10);
    assert_eq!(before.at, 0);
}
