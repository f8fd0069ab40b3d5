use quietmytempo::calibration::{
    apply_offset, bar_travel, calibration_offset_ms, converge_line, round_band, CalibrationOutcome,
    CalibrationPhase, CalibrationRound, CalibrationRun, CalibrationStep, Received,
    CALIBRATION_ROUNDS, CONVERGE_DURATION_NS, RESULT_FLASH_DURATION_NS,
};
use quietmytempo::clock::SessionClock;
use quietmytempo::evaluator::TimingEvent;
use quietmytempo::keyboard::KeyboardSignal;
use quietmytempo::feedback::AccuracyBand;

fn ms(v: u64) -> u64 {
    v * 1_000_000
}

#[test]
fn positive_offset_shifts_timestamp_earlier() {
    let at = ms(500);
    let adjusted = apply_offset(at, 50);
    assert_eq!(adjusted, ms(450));
}

#[test]
fn negative_offset_shifts_timestamp_later() {
    let at = ms(500);
    let adjusted = apply_offset(at, -50);
    assert_eq!(adjusted, ms(550));
}

#[test]
fn offset_larger_than_timestamp_saturates_at_zero() {
    let at = ms(10);
    let adjusted = apply_offset(at, 50);
    assert_eq!(adjusted, 0);
}

#[test]
fn offset_then_its_opposite_gives_the_timestamp_back() {
    let at = 1_234_567_891;
    assert_eq!(apply_offset(apply_offset(at, 37), -37), at);
    assert_eq!(apply_offset(at, 0), at);
}

#[test]
fn compensation_keeps_tap_order() {
    let earlier = apply_offset(ms(10), 30);
    let later = apply_offset(ms(40), 30);
    assert!(earlier <= later);
    assert_eq!(earlier, 0);
    assert_eq!(later, ms(10));
}

#[test]
fn offset_is_the_rounded_mean_of_the_rounds() {
    let deviations: Vec<i128> = vec![10_000_000, 20_000_000, 30_000_000, 40_000_000, 52_000_000];
    assert_eq!(calibration_offset_ms(&deviations), 30);
    let early: Vec<i128> = vec![-12_600_000, -12_600_000];
    assert_eq!(calibration_offset_ms(&early), -13);
    let half: Vec<i128> = vec![2_500_000];
    assert_eq!(calibration_offset_ms(&half), 3);
    let negative_half: Vec<i128> = vec![-2_500_000];
    assert_eq!(calibration_offset_ms(&negative_half), -3);
    assert_eq!(calibration_offset_ms(&[]), 0);
}

#[test]
fn steady_rounds_measure_their_own_deviation() {
    let rounds: Vec<i128> = vec![-25_000_000; 5];
    assert_eq!(calibration_offset_ms(&rounds), -25);
}

#[test]
fn a_round_keeps_only_its_first_tap() {
    let mut round = CalibrationRound::new();
    assert_eq!(round.tapped_deviation_ns(), None);
    round.on_tap(CONVERGE_DURATION_NS + ms(30), ms(1830));
    round.on_tap(CONVERGE_DURATION_NS - ms(100), ms(1900));
    assert_eq!(round.tapped_deviation_ns(), Some(30_000_000));
}

#[test]
fn a_round_ends_after_the_result_flash_or_with_a_penalty() {
    let mut round = CalibrationRound::new();
    assert_eq!(round.outcome(ms(3000)), None);
    assert_eq!(round.outcome(2 * CONVERGE_DURATION_NS + 1), Some(CONVERGE_DURATION_NS as i128));
    round.on_tap(ms(1750), ms(1750));
    assert_eq!(round.outcome(ms(1750) + RESULT_FLASH_DURATION_NS - 1), None);
    assert_eq!(round.outcome(ms(1750) + RESULT_FLASH_DURATION_NS), Some(-50_000_000));
}

#[test]
fn bars_meet_in_the_middle() {
    assert_eq!(bar_travel(0, 40), 0);
    assert_eq!(bar_travel(CONVERGE_DURATION_NS / 2, 40), 20);
    assert_eq!(bar_travel(CONVERGE_DURATION_NS, 40), 40);
    assert_eq!(bar_travel(10 * CONVERGE_DURATION_NS, 40), 40);
    let line: String = converge_line(CONVERGE_DURATION_NS / 2, 10).into_iter().collect();
    assert_eq!(line, "###    ###");
}

#[test]
fn round_bands_follow_fifty_and_one_fifty_ms() {
    assert_eq!(round_band(50_000_000), AccuracyBand::OnTime);
    assert_eq!(round_band(-50_000_001), AccuracyBand::Close);
    assert_eq!(round_band(150_000_000), AccuracyBand::Close);
    assert_eq!(round_band(-150_000_001), AccuracyBand::Off);
}

fn tap(at: u64) -> Received {
    Received::Signal(KeyboardSignal::Tap(TimingEvent { at }))
}

/// Plays one round on a clock that starts `start` ns after the global one:
/// a tap `deviation_ms` from the meeting moment, then time until the
/// result flash is over.
fn play_round(run: &mut CalibrationRun, start: u64, deviation_ms: i64) -> CalibrationStep {
    let global = SessionClock::started_at(0);
    let round_clock = SessionClock::started_at(start);
    let at_local = (CONVERGE_DURATION_NS as i64 + deviation_ms * 1_000_000) as u64;
    assert_eq!(run.step(tap(start + at_local), &round_clock, global, at_local), CalibrationStep::Continue);
    assert_eq!(run.step(Received::Nothing, &round_clock, global, at_local + 1), CalibrationStep::Continue);
    run.step(Received::Nothing, &round_clock, global, at_local + RESULT_FLASH_DURATION_NS)
}

#[test]
fn a_full_calibration_measures_the_rounded_mean_and_waits_for_confirmation() {
    let mut run = CalibrationRun::new();
    let deviations = [10, 20, 30, 40, 52];
    for (i, d) in deviations.iter().enumerate() {
        assert_eq!(run.phase(), CalibrationPhase::Rounds);
        assert_eq!(run.rounds_done(), i);
        assert_eq!(play_round(&mut run, 1_000_000_000 * (i as u64 + 1) * 10, *d), CalibrationStep::RoundEnded);
    }
    assert_eq!(run.rounds_done(), CALIBRATION_ROUNDS);
    assert_eq!(run.phase(), CalibrationPhase::Confirming { offset_ms: 30 });
    let clock = SessionClock::started_at(0);
    assert_eq!(run.step(Received::Signal(KeyboardSignal::Down), &clock, clock, 0), CalibrationStep::Continue);
    assert_eq!(
        run.step(tap(5), &clock, clock, 0),
        CalibrationStep::Over(CalibrationOutcome::Measured { offset_ms: 30 })
    );
}

#[test]
fn quitting_or_losing_the_keyboard_aborts_calibration() {
    let clock = SessionClock::started_at(0);
    let mut during_rounds = CalibrationRun::new();
    assert_eq!(
        during_rounds.step(Received::Signal(KeyboardSignal::Quit), &clock, clock, 0),
        CalibrationStep::Over(CalibrationOutcome::Aborted)
    );
    let mut closed = CalibrationRun::new();
    assert_eq!(closed.step(Received::Closed, &clock, clock, 0), CalibrationStep::Over(CalibrationOutcome::Aborted));

    let mut at_confirmation = CalibrationRun::new();
    for i in 0..CALIBRATION_ROUNDS {
        play_round(&mut at_confirmation, i as u64 * 10_000_000_000, -5);
    }
    assert_eq!(at_confirmation.phase(), CalibrationPhase::Confirming { offset_ms: -5 });
    assert_eq!(
        at_confirmation.step(Received::Closed, &clock, clock, 0),
        CalibrationStep::Over(CalibrationOutcome::Aborted)
    );
}

#[test]
fn a_round_without_a_tap_ends_with_the_penalty() {
    let clock = SessionClock::started_at(0);
    let mut run = CalibrationRun::new();
    assert_eq!(run.step(Received::Nothing, &clock, clock, 2 * CONVERGE_DURATION_NS), CalibrationStep::Continue);
    assert_eq!(run.step(Received::Nothing, &clock, clock, 2 * CONVERGE_DURATION_NS + 1), CalibrationStep::RoundEnded);
    assert_eq!(run.rounds_done(), 1);
    assert_eq!(run.round().tapped, None);
}
