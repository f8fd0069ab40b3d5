use quietmytempo::evaluator::{TapResult, TimingEvent};
use quietmytempo::keyboard::KeyboardSignal;
use quietmytempo::rhythm_reader_session::{
    count_missed, draw_pattern, next_pattern, repetition_duration, repetition_tolerance,
    rhythm_result_choice, RepetitionRun, RhythmReaderSummary,
};
use quietmytempo::rhythm_reader_ui::{note_glyph_rows, NoteState, RhythmReaderState};
use quietmytempo::schedule::{ExpectedTap, Schedule};
use quietmytempo::schedules::rhythm_reader::{
    curated_patterns, NoteValue, PatternNote, RhythmReaderSchedule,
};
use quietmytempo::session::ResultScreenOutcome;

fn ms(v: u64) -> u64 {
    v * 1_000_000
}

fn result_at(at: u64) -> TapResult {
    TapResult { expected: ExpectedTap::scored(at), actual: TimingEvent { at }, deviation_ns: 0 }
}

#[test]
fn missed_notes_are_the_expected_taps_without_a_result() {
    let expected = vec![ExpectedTap::scored(ms(1000)), ExpectedTap::scored(ms(1500)), ExpectedTap::scored(ms(2000))];
    assert_eq!(count_missed(&[], &expected), 3);
    assert_eq!(count_missed(&[result_at(ms(1500))], &expected), 2);
    let all: Vec<TapResult> = expected.iter().map(|t| result_at(t.at)).collect();
    assert_eq!(count_missed(&all, &expected), 0);
}

#[test]
fn summary_adds_up_repetitions() {
    let mut summary = RhythmReaderSummary::new();
    summary.add_repetition(vec![result_at(0)], 2, 1, 4);
    summary.add_repetition(vec![result_at(1), result_at(2)], 0, 3, 4);
    assert_eq!(summary.all_results.len(), 3);
    assert_eq!(summary.missed_notes, 2);
    assert_eq!(summary.mistaps, 4);
    assert_eq!(summary.total_expected_notes, 8);
    assert_eq!(summary.hits(), 6);
}

#[test]
fn repetition_timing_follows_the_pattern() {
    let pattern = vec![
        PatternNote::note(NoteValue::Quarter),
        PatternNote::note(NoteValue::Sixteenth),
        PatternNote::note(NoteValue::Sixteenth),
        PatternNote::note(NoteValue::Eighth),
        PatternNote::note(NoteValue::Quarter),
        PatternNote::rest(NoteValue::Quarter),
    ];
    let schedule = RhythmReaderSchedule::new(120, pattern);
    assert_eq!(repetition_duration(&schedule), ms(2000) + ms(2000) + ms(200));
    assert_eq!(repetition_tolerance(&schedule), 62_500_000);
}

#[test]
fn rhythm_result_screen_quits_on_quit_and_goes_to_menu_on_m() {
    assert_eq!(rhythm_result_choice(KeyboardSignal::Quit), Some(ResultScreenOutcome::Quit));
    assert_eq!(rhythm_result_choice(KeyboardSignal::BackToMenu), Some(ResultScreenOutcome::BackToMenu));
    assert_eq!(rhythm_result_choice(KeyboardSignal::Select), Some(ResultScreenOutcome::Restart));
    assert_eq!(rhythm_result_choice(KeyboardSignal::Down), None);
}

#[test]
fn next_pattern_skips_draws_that_repeat_the_previous_one() {
    let library = curated_patterns();
    let previous = library[2].clone();
    assert_eq!(next_pattern(Some(&previous), &[2, 2, 5, 1]), library[5]);
    assert_eq!(next_pattern(Some(&previous), &[2, 2]), library[2]);
    assert_eq!(next_pattern(None, &[2, 4]), library[2]);
    assert_eq!(next_pattern(Some(&previous), &[7]), library[7]);
}

#[test]
fn drawn_patterns_come_from_the_library() {
    let library = curated_patterns();
    let mut previous = draw_pattern(None);
    assert!(library.contains(&previous));
    let mut repeats = 0;
    for _ in 0..50 {
        let next = draw_pattern(Some(&previous));
        assert!(library.contains(&next));
        if next == previous {
            repeats += 1;
        }
        previous = next;
    }
    assert!(repeats < 5);
}

#[test]
fn playhead_marks_notes_half_a_beat_behind_as_missed() {
    let pattern = vec![
        PatternNote::note(NoteValue::Quarter),
        PatternNote::rest(NoteValue::Quarter),
        PatternNote::note(NoteValue::Quarter),
        PatternNote::note(NoteValue::Quarter),
    ];
    let mut state = RhythmReaderState::new(60, pattern, ms(4000), 1, 3);
    assert!(state.in_count_in());
    state.update_playhead(ms(4400));
    assert_eq!(state.note_state(0), NoteState::Pending);
    assert!(!state.in_count_in());
    assert_eq!(state.playhead_ns(), ms(400));
    state.push_result(TapResult {
        expected: ExpectedTap::scored(ms(4000)),
        actual: TimingEvent { at: ms(4010) },
        deviation_ns: 10_000_000,
    });
    assert_eq!(state.note_state(0), NoteState::Hit);
    state.update_playhead(ms(6600));
    assert_eq!(state.note_state(0), NoteState::Hit);
    assert_eq!(state.note_state(1), NoteState::Pending);
    assert_eq!(state.note_state(2), NoteState::Missed);
    assert_eq!(state.note_state(3), NoteState::Pending);
    assert_eq!(state.repetition(), (1, 3));
    assert_eq!(state.bpm(), 60);
    assert_eq!(state.pattern().len(), 4);
}

#[test]
fn mistap_flash_lasts_four_hundred_ms() {
    let pattern = vec![PatternNote::note(NoteValue::Quarter); 4];
    let mut state = RhythmReaderState::new(60, pattern, ms(4000), 0, 1);
    assert!(!state.mistap_flashing());
    state.update_playhead(ms(5000));
    state.push_mistap(ms(4900));
    assert!(state.mistap_flashing());
    state.update_playhead(ms(5300));
    assert!(!state.mistap_flashing());
}

#[test]
fn schedule_taps_light_up_their_notes() {
    let pattern = curated_patterns()[3].clone();
    let schedule = RhythmReaderSchedule::new(90, pattern.clone());
    let taps = schedule.expected_taps(repetition_duration(&schedule));
    let mut state = RhythmReaderState::new(90, pattern, schedule.count_in_duration(), 0, 1);
    for tap in &taps {
        state.push_result(result_at(tap.at));
    }
    assert_eq!(state.note_state(0), NoteState::Pending);
    for i in 1..4 {
        assert_eq!(state.note_state(i), NoteState::Hit);
    }
}

#[test]
fn glyphs_are_four_rows_of_two_columns() {
    let rows = note_glyph_rows(&PatternNote::note(NoteValue::Sixteenth));
    assert_eq!(rows, ["│╮", "│╮", "│ ", "● "]);
    let rest = note_glyph_rows(&PatternNote::rest(NoteValue::Quarter));
    assert_eq!(rest, [" ╱", "╱ ", "  ", "╲ "]);
    for value in [NoteValue::Quarter, NoteValue::Eighth, NoteValue::Sixteenth, NoteValue::DottedQuarter] {
        let rows = note_glyph_rows(&PatternNote::rest(value));
        assert_eq!(rows[2], "  ");
        assert!(!rows[3].contains('●'));
    }
    for row in note_glyph_rows(&PatternNote::note(NoteValue::DottedQuarter)) {
        assert_eq!(row.chars().count(), 2);
    }
}

#[test]
fn a_repetition_tallies_hits_misses_and_mistaps() {
    let pattern = vec![
        PatternNote::note(NoteValue::Quarter),
        PatternNote::note(NoteValue::Quarter),
        PatternNote::rest(NoteValue::Quarter),
        PatternNote::note(NoteValue::Quarter),
    ];
    let schedule = RhythmReaderSchedule::new(60, pattern.clone());
    assert_eq!(schedule.bpm(), 60);
    assert_eq!(schedule.pattern(), &pattern);
    let mut run = RepetitionRun::new(&schedule, 2, 4);
    assert_eq!(run.display().repetition(), (2, 4));

    let hit = run.on_tap(TimingEvent { at: ms(4030) }, ms(4030)).unwrap();
    assert_eq!(hit.expected.at, ms(4000));
    assert_eq!(hit.deviation_ns, 30_000_000);
    assert_eq!(run.display().note_state(0), NoteState::Hit);

    assert!(run.on_tap(TimingEvent { at: ms(4480) }, ms(4480)).is_none());
    assert!(run.display().mistap_flashing());

    run.update_playhead(ms(8000));
    assert_eq!(run.display().note_state(1), NoteState::Missed);
    assert_eq!(run.display().note_state(2), NoteState::Pending);

    let (results, missed, mistaps, expected_count) = run.finish();
    assert_eq!(results.len(), 1);
    assert_eq!(missed, 2);
    assert_eq!(mistaps, 1);
    assert_eq!(expected_count, 3);
    assert_eq!(results.len() + missed, expected_count);
}
