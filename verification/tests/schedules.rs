use quietmytempo::schedule::{ExpectedTap, Schedule};
use quietmytempo::schedules::quiet_four::QuietFourSchedule;
use quietmytempo::schedules::rhythm_reader::{
    curated_patterns, pattern_duration_beats, NoteValue, PatternNote, RhythmReaderSchedule,
    TICKS_PER_BAR, TICKS_PER_BEAT,
};
use quietmytempo::schedules::tap_along::TapAlongSchedule;
use quietmytempo::schedules::tuplet::TupletSchedule;

fn ms(v: u64) -> u64 {
    v * 1_000_000
}

fn in_ms(ns: u64) -> u64 {
    ns / 1_000_000
}

fn beats(ticks: u64) -> f64 {
    ticks as f64 / TICKS_PER_BEAT as f64
}

#[test]
fn one_cycle_has_two_audible_bars_then_one_silent_bar() {
    let schedule = QuietFourSchedule::new(60, 4, 2);
    let clicks = schedule.clicks(ms(23_000));
    let click_times: Vec<u64> = clicks.iter().map(|c| in_ms(c.at)).collect();

    assert!(click_times.contains(&0));
    assert!(click_times.contains(&7000));
    assert!(!click_times.contains(&8000));
    assert!(!click_times.contains(&11000));
    assert!(click_times.contains(&12000));
}

#[test]
fn only_landing_beat_is_scored_rest_is_informational() {
    let schedule = QuietFourSchedule::new(60, 4, 1);
    let taps = schedule.expected_taps(ms(20_000));

    let scored: Vec<&ExpectedTap> = taps.iter().filter(|t| !t.informational).collect();
    assert_eq!(scored.len(), 1, "exactly one scored tap per cycle");
    assert_eq!(scored[0].at, ms(12_000), "landing beat is beat index 12");

    let silent_bar_beats: Vec<&ExpectedTap> = taps
        .iter()
        .filter(|t| t.at >= ms(8_000) && t.at < ms(12_000))
        .collect();
    assert_eq!(silent_bar_beats.len(), 4);
    assert!(silent_bar_beats.iter().all(|t| t.informational));
}

#[test]
fn multiple_cycles_each_get_their_own_scored_landing() {
    let schedule = QuietFourSchedule::new(120, 4, 3);
    let taps = schedule.expected_taps(ms(20_000));
    let scored: Vec<&ExpectedTap> = taps.iter().filter(|t| !t.informational).collect();
    assert_eq!(scored.len(), 3);
}

#[test]
fn note_durations_are_fractions_of_a_beat() {
    assert_eq!(beats(NoteValue::Quarter.duration_beats()), 1.0);
    assert_eq!(beats(NoteValue::Eighth.duration_beats()), 0.5);
    assert_eq!(beats(NoteValue::Sixteenth.duration_beats()), 0.25);
    assert_eq!(beats(NoteValue::DottedQuarter.duration_beats()), 1.5);
}

#[test]
fn all_curated_patterns_sum_to_a_whole_number_of_bars() {
    for pattern in curated_patterns() {
        let ticks = pattern_duration_beats(&pattern);
        assert!(
            ticks % TICKS_PER_BAR as u128 == 0,
            "pattern beats {} is not a whole number of bars",
            ticks as f64 / TICKS_PER_BEAT as f64
        );
    }
}

#[test]
fn count_in_is_exactly_one_bar_of_plain_clicks() {
    let pattern = vec![PatternNote::note(NoteValue::Quarter); 4];
    let schedule = RhythmReaderSchedule::new(60, pattern);
    assert_eq!(schedule.count_in_duration(), ms(4000));

    let clicks = schedule.clicks(ms(10_000));
    let times: Vec<u64> = clicks.iter().map(|c| in_ms(c.at)).collect();
    assert_eq!(times, vec![0, 1000, 2000, 3000]);
}

#[test]
fn rests_do_not_produce_expected_taps() {
    let pattern = vec![
        PatternNote::rest(NoteValue::Quarter),
        PatternNote::note(NoteValue::Quarter),
        PatternNote::note(NoteValue::Eighth),
        PatternNote::note(NoteValue::Eighth),
        PatternNote::note(NoteValue::Quarter),
    ];
    let schedule = RhythmReaderSchedule::new(60, pattern);
    let taps = schedule.expected_taps(ms(20_000));

    let times: Vec<u64> = taps.iter().map(|t| in_ms(t.at)).collect();
    assert_eq!(times, vec![5000, 6000, 6500, 7000]);
    assert!(taps.iter().all(|t| !t.informational));
}

#[test]
fn shortest_note_beats_finds_the_minimum_across_the_pattern() {
    let pattern = vec![
        PatternNote::note(NoteValue::Quarter),
        PatternNote::note(NoteValue::Sixteenth),
        PatternNote::note(NoteValue::Sixteenth),
        PatternNote::note(NoteValue::Sixteenth),
        PatternNote::note(NoteValue::Sixteenth),
        PatternNote::note(NoteValue::Eighth),
        PatternNote::note(NoteValue::Quarter),
        PatternNote::note(NoteValue::Eighth),
    ];
    let schedule = RhythmReaderSchedule::new(60, pattern);
    assert_eq!(beats(schedule.shortest_note_beats()), 0.25);
}

#[test]
fn generates_beat_every_500ms_at_120bpm() {
    let schedule = TapAlongSchedule::new(120);
    let clicks = schedule.clicks(ms(1500));
    let expected: Vec<u64> = vec![0, 500, 1000, 1500].into_iter().map(ms).collect();
    let actual: Vec<u64> = clicks.into_iter().map(|c| c.at).collect();
    assert_eq!(actual, expected);
}

#[test]
fn every_click_is_also_a_scored_expected_tap() {
    let schedule = TapAlongSchedule::new(60);
    let clicks = schedule.clicks(ms(2000));
    let taps = schedule.expected_taps(ms(2000));
    assert_eq!(clicks.len(), taps.len());
    for tap in taps {
        assert!(!tap.informational);
    }
}

#[test]
fn grounding_clicks_are_a_plain_four_beat_pulse() {
    let schedule = TupletSchedule::new(60, 3, 2);
    let clicks = schedule.clicks(ms(8000));
    let times: Vec<u64> = clicks.iter().map(|c| in_ms(c.at)).collect();
    assert_eq!(times, vec![0, 1000, 2000, 3000, 4000, 5000, 6000, 7000, 8000]);
}

#[test]
fn triplet_spreads_three_taps_evenly_across_one_bar() {
    let schedule = TupletSchedule::new(60, 3, 1);
    let taps = schedule.expected_taps(ms(4000));
    assert_eq!(taps.len(), 3);
    assert_eq!(taps[0].at, ms(0));
    assert!((taps[1].at as f64 / 1e9 - 4.0 / 3.0).abs() < 1e-6);
    assert!((taps[2].at as f64 / 1e9 - 8.0 / 3.0).abs() < 1e-6);
    assert!(taps.iter().all(|t| !t.informational));
}

#[test]
fn quintuplet_and_septuplet_produce_expected_counts() {
    let quintuplet = TupletSchedule::new(60, 5, 2);
    assert_eq!(quintuplet.expected_taps(ms(8000)).len(), 10);

    let septuplet = TupletSchedule::new(60, 7, 2);
    assert_eq!(septuplet.expected_taps(ms(8000)).len(), 14);
}

#[test]
fn clicks_and_expected_taps_diverge_in_count() {
    let schedule = TupletSchedule::new(60, 5, 1);
    assert_eq!(schedule.clicks(ms(4000)).len(), 5);
    assert_eq!(schedule.expected_taps(ms(4000)).len(), 5);
    let clicks = schedule.clicks(ms(4000));
    let taps = schedule.expected_taps(ms(4000));
    assert_ne!(clicks[1].at, taps[1].at);
}

#[test]
fn short_session_cuts_the_grids() {
    let schedule = TapAlongSchedule::new(120);
    let times: Vec<u64> = schedule.clicks(ms(1200)).iter().map(|c| c.at).collect();
    assert_eq!(times, vec![0, ms(500), ms(1000)]);
    assert_eq!(schedule.expected_taps(0).len(), 1);
}

#[test]
fn odd_tempo_uses_whole_nanosecond_beats() {
    let schedule = TapAlongSchedule::new(7);
    let clicks = schedule.clicks(20_000_000_000);
    assert_eq!(clicks.len(), 3);
    assert_eq!(clicks[1].at, 8_571_428_571);
    assert_eq!(clicks[2].at, 17_142_857_142);
}

#[test]
fn rhythm_reader_taps_follow_the_pattern_after_the_count_in() {
    let pattern = vec![
        PatternNote::note(NoteValue::DottedQuarter),
        PatternNote::note(NoteValue::Eighth),
        PatternNote::note(NoteValue::Quarter),
        PatternNote::rest(NoteValue::Quarter),
    ];
    let schedule = RhythmReaderSchedule::new(120, pattern);
    assert_eq!(schedule.beat_duration(), ms(500));
    assert_eq!(schedule.count_in_duration(), ms(2000));
    assert_eq!(schedule.pattern_ticks(), 16);
    let times: Vec<u64> = schedule.expected_taps(ms(10_000)).iter().map(|t| in_ms(t.at)).collect();
    assert_eq!(times, vec![2000, 2750, 3000]);
}

#[test]
fn curated_library_has_eight_patterns() {
    assert_eq!(curated_patterns().len(), quietmytempo::schedules::rhythm_reader::CURATED_PATTERN_COUNT);
}

#[test]
fn tuplet_taps_are_evenly_spaced_to_the_nanosecond() {
    let schedule = TupletSchedule::new(100, 7, 2);
    let taps = schedule.expected_taps(ms(4800));
    assert_eq!(taps.len(), 14);
    for pair in taps.windows(2) {
        let step = pair[1].at - pair[0].at;
        assert!(step == 342_857_142 || step == 342_857_143);
    }
}

#[test]
fn quiet_four_scores_the_downbeat_closing_each_cycle() {
    let schedule = QuietFourSchedule::new(60, 3, 2);
    let taps = schedule.expected_taps(ms(60_000));
    assert_eq!(taps.len(), (2 * 3 + 1) * 3);
    for (k, tap) in taps.iter().enumerate() {
        assert_eq!(tap.at, ms(1000 * k as u64));
        assert_eq!(!tap.informational, k % 9 == 0 && k / 9 >= 1);
    }
}

#[test]
fn a_full_tuplet_session_has_every_tap_in_order() {
    let schedule = TupletSchedule::new(90, 5, 3);
    let taps = schedule.expected_taps(ms(60_000));
    assert_eq!(taps.len(), 15);
    for pair in taps.windows(2) {
        assert!(pair[0].at < pair[1].at);
    }
    assert!(taps.iter().all(|t| !t.informational));
}
