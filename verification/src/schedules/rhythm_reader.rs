//! Mode 4: Rhythm Reader.
//!
//! Unlike the other modes, the expected-tap grid here is not an evenly
//! spaced pulse but a concrete, possibly irregular note pattern (quarters,
//! eighths, sixteenths, dotted quarters, plus rests) that the player must
//! read and reproduce. A one-bar audible count-in (a plain 4-beat click, no
//! notes) gives the tempo before the pattern starts; the pattern itself
//! plays with no grounding click.
//!
//! Note lengths are counted in ticks: one tick is a sixteenth note, four
//! ticks make a beat (a quarter note) and sixteen ticks a 4/4 bar. Integer
//! ticks keep sums of many notes exact.

use vstd::prelude::*;

use crate::schedule::{ClickEvent, ExpectedTap, Schedule};
use crate::timing::{beat_duration_ns, beat_indices, beat_ns, lemma_prefix_kept, pulse_click};

verus! {

/// Ticks (sixteenth notes) per beat.
pub const TICKS_PER_BEAT: u64 = 4;

/// Ticks (sixteenth notes) per 4/4 bar.
pub const TICKS_PER_BAR: u64 = 16;

/// A note value. Deliberately limited to even subdivisions: odd
/// subdivisions (triplets etc.) are the Tuplets mode's job.
#[derive(Debug, Clone, Copy, PartialEq, Eq, Hash, Structural)]
pub enum NoteValue {
    Quarter,
    Eighth,
    Sixteenth,
    DottedQuarter,
}

/// Length of a note value in ticks.
pub open spec fn note_ticks(value: NoteValue) -> nat {
    match value {
        NoteValue::Quarter => 4,
        NoteValue::Eighth => 2,
        NoteValue::Sixteenth => 1,
        NoteValue::DottedQuarter => 6,
    }
}

impl NoteValue {
    /// Length of this note value in ticks (four ticks to a beat): a quarter
    /// is 4, an eighth 2, a sixteenth 1, a dotted quarter 6.
    pub fn duration_beats(&self) -> (ticks: u64)
        ensures
            ticks == note_ticks(*self),
    {
        match self {
            NoteValue::Quarter => 4,
            NoteValue::Eighth => 2,
            NoteValue::Sixteenth => 1,
            NoteValue::DottedQuarter => 6,
        }
    }
}

/// A single slot in a pattern: a note value, plus whether it is a rest
/// (no tap expected) rather than a note the player must tap.
#[derive(Debug, Clone, Copy, PartialEq, Eq, Structural)]
pub struct PatternNote {
    pub value: NoteValue,
    pub is_rest: bool,
}

impl PatternNote {
    pub fn note(value: NoteValue) -> (n: Self)
        ensures
            n == (PatternNote { value, is_rest: false }),
    {
        PatternNote { value, is_rest: false }
    }

    pub fn rest(value: NoteValue) -> (n: Self)
        ensures
            n == (PatternNote { value, is_rest: true }),
    {
        PatternNote { value, is_rest: true }
    }
}

/// A rhythm pattern: an ordered sequence of notes/rests.
pub type Pattern = Vec<PatternNote>;

/// Total length of a pattern in ticks.
pub open spec fn pattern_ticks(pattern: Seq<PatternNote>) -> nat
    decreases pattern.len(),
{
    if pattern.len() == 0 {
        0
    } else {
        pattern_ticks(pattern.drop_last()) + note_ticks(pattern.last().value)
    }
}

/// Length of the shortest note value in a non-empty pattern, in ticks.
pub open spec fn shortest_ticks(pattern: Seq<PatternNote>) -> nat
    decreases pattern.len(),
{
    if pattern.len() <= 1 {
        note_ticks(pattern[0].value)
    } else {
        let rest = shortest_ticks(pattern.drop_last());
        let last = note_ticks(pattern.last().value);
        if last < rest {
            last
        } else {
            rest
        }
    }
}

/// A pattern that a [`RhythmReaderSchedule`] accepts: non-empty and
/// spanning a whole number of 4/4 bars.
pub open spec fn is_whole_bars(pattern: Seq<PatternNote>) -> bool {
    &&& pattern.len() > 0
    &&& pattern_ticks(pattern) % (TICKS_PER_BAR as nat) == 0
}

/// A pattern's length is at most six ticks per note.
pub proof fn lemma_pattern_ticks_bound(pattern: Seq<PatternNote>)
    ensures
        pattern_ticks(pattern) <= 6 * pattern.len(),
    decreases pattern.len(),
{
    if pattern.len() > 0 {
        lemma_pattern_ticks_bound(pattern.drop_last());
    }
}

/// The shortest note of a pattern is at most a dotted quarter.
pub proof fn lemma_shortest_ticks_bound(pattern: Seq<PatternNote>)
    requires
        pattern.len() > 0,
    ensures
        1 <= shortest_ticks(pattern) <= 6,
    decreases pattern.len(),
{
    if pattern.len() > 1 {
        lemma_shortest_ticks_bound(pattern.drop_last());
    }
}

/// Total length of a pattern in ticks (four ticks to a beat).
pub fn pattern_duration_beats(pattern: &Pattern) -> (ticks: u128)
    ensures
        ticks == pattern_ticks(pattern@),
{
    let mut total: u128 = 0;
    let mut i: usize = 0;
    while i < pattern.len()
        invariant
            i <= pattern@.len(),
            total == pattern_ticks(pattern@.take(i as int)),
        decreases pattern@.len() - i,
    {
        proof {
            lemma_pattern_ticks_bound(pattern@.take(i as int));
        }
        assert(pattern@.take(i + 1).drop_last() == pattern@.take(i as int));
        total = total + pattern[i].value.duration_beats() as u128;
        i = i + 1;
    }
    assert(pattern@.take(pattern@.len() as int) == pattern@);
    total
}

/// Time of note `i` of `pattern`: after the one-bar count-in, plus the
/// length of the notes before it (rounded down to a whole nanosecond).
pub open spec fn note_time(pattern: Seq<PatternNote>, beat: u64, i: int) -> int {
    4 * beat + (beat * pattern_ticks(pattern.take(i))) / (TICKS_PER_BEAT as int)
}

/// Note `i` of `pattern` as a scored expected tap, unless it is a rest or
/// lies after `session_duration`.
pub open spec fn note_tap(pattern: Seq<PatternNote>, beat: u64, session_duration: u64) -> spec_fn(
    int,
) -> Option<ExpectedTap> {
    |i: int|
        if !pattern[i].is_rest && note_time(pattern, beat, i) <= session_duration {
            Some(ExpectedTap { at: note_time(pattern, beat, i) as u64, informational: false })
        } else {
            None
        }
}

/// One count-in bar (plain 4-beat click, no notes) followed by one
/// playthrough of `pattern`.
#[derive(Debug)]
pub struct RhythmReaderSchedule {
    bpm: u32,
    pattern: Pattern,
}

impl RhythmReaderSchedule {
    #[verifier::type_invariant]
    spec fn well_formed(self) -> bool {
        &&& self.bpm > 0
        &&& is_whole_bars(self.pattern@)
    }

    pub closed spec fn spec_bpm(self) -> u32 {
        self.bpm
    }

    pub closed spec fn spec_pattern(self) -> Seq<PatternNote> {
        self.pattern@
    }

    /// `pattern` must be non-empty and sum to a whole number of 4/4 bars;
    /// this is a property of the curated content, not of runtime input.
    pub fn new(bpm: u32, pattern: Pattern) -> (schedule: Self)
        requires
            bpm > 0,
            is_whole_bars(pattern@),
        ensures
            schedule.spec_bpm() == bpm,
            schedule.spec_pattern() == pattern@,
    {
        RhythmReaderSchedule { bpm, pattern }
    }

    /// Tempo in beats per minute.
    pub fn bpm(&self) -> (bpm: u32)
        ensures
            bpm == self.spec_bpm(),
            bpm > 0,
    {
        proof {
            use_type_invariant(self);
        }
        self.bpm
    }

    /// The pattern played after the count-in.
    pub fn pattern(&self) -> (pattern: &Pattern)
        ensures
            pattern@ == self.spec_pattern(),
    {
        &self.pattern
    }

    /// Total length of the pattern in ticks.
    pub fn pattern_ticks(&self) -> (ticks: u128)
        ensures
            ticks == pattern_ticks(self.spec_pattern()),
            ticks <= 6 * 0x1_0000_0000_0000_0000u128,
    {
        let len = self.pattern.len();
        proof {
            lemma_pattern_ticks_bound(self.pattern@);
            assert(len <= 0xffff_ffff_ffff_ffffu64);
        }
        pattern_duration_beats(&self.pattern)
    }

    /// Length of one beat, in nanoseconds.
    pub fn beat_duration(&self) -> (beat: u64)
        ensures
            beat == beat_ns(self.spec_bpm()),
            beat <= 60_000_000_000u64,
    {
        proof {
            use_type_invariant(self);
        }
        beat_duration_ns(self.bpm)
    }

    /// Length of the count-in: exactly one 4/4 bar, always audible, always
    /// click-only.
    pub fn count_in_duration(&self) -> (count_in: u64)
        ensures
            count_in == 4 * beat_ns(self.spec_bpm()),
    {
        self.beat_duration() * 4
    }

    /// Shortest note value used in the pattern, in ticks: the natural basis
    /// for a matching tolerance, since a beat-based tolerance would be far
    /// too generous for sixteenth-note runs.
    pub fn shortest_note_beats(&self) -> (ticks: u64)
        ensures
            ticks == shortest_ticks(self.spec_pattern()),
            1 <= ticks <= 6,
    {
        proof {
            use_type_invariant(self);
            lemma_shortest_ticks_bound(self.pattern@);
        }
        let mut shortest = self.pattern[0].value.duration_beats();
        let mut i: usize = 1;
        assert(self.pattern@.take(1).drop_last().len() == 0);
        while i < self.pattern.len()
            invariant
                1 <= i <= self.pattern@.len(),
                shortest == shortest_ticks(self.pattern@.take(i as int)),
            decreases self.pattern@.len() - i,
        {
            assert(self.pattern@.take(i + 1).drop_last() == self.pattern@.take(i as int));
            let ticks = self.pattern[i].value.duration_beats();
            if ticks < shortest {
                shortest = ticks;
            }
            i = i + 1;
        }
        assert(self.pattern@.take(self.pattern@.len() as int) == self.pattern@);
        shortest
    }
}

impl Schedule for RhythmReaderSchedule {
    /// Only the count-in clicks (4 plain beats).
    open spec fn click_plan(&self, session_duration: u64) -> Seq<ClickEvent> {
        beat_indices(4).filter_map(pulse_click(beat_ns(self.spec_bpm()), session_duration))
    }

    /// One scored expected tap per non-rest note, positioned after the
    /// count-in.
    open spec fn tap_plan(&self, session_duration: u64) -> Seq<ExpectedTap> {
        beat_indices(self.spec_pattern().len()).filter_map(
            note_tap(self.spec_pattern(), beat_ns(self.spec_bpm()), session_duration),
        )
    }

    fn clicks(&self, session_duration: u64) -> (clicks: Vec<ClickEvent>) {
        let beat = self.beat_duration();
        let mut clicks: Vec<ClickEvent> = Vec::new();
        let mut i: u64 = 0;
        while i < 4
            invariant
                i <= 4,
                beat == beat_ns(self.spec_bpm()),
                beat <= 60_000_000_000u64,
                clicks@ == beat_indices(i as nat).filter_map(pulse_click(beat, session_duration)),
            decreases 4 - i,
        {
            assert(beat_indices(i as nat + 1).drop_last() == beat_indices(i as nat));
            assert(beat_indices(i as nat + 1).last() == i as int);
            assert(i * beat <= 4 * 60_000_000_000u64) by (nonlinear_arith)
                requires
                    i < 4,
                    beat <= 60_000_000_000u64,
            ;
            let at = i * beat;
            if at <= session_duration {
                clicks.push(ClickEvent { at });
            }
            i = i + 1;
        }
        clicks
    }

    fn expected_taps(&self, session_duration: u64) -> (taps: Vec<ExpectedTap>) {
        let beat = self.beat_duration();
        let count_in = self.count_in_duration();
        let ghost pattern = self.spec_pattern();
        let mut cursor: u128 = 0;
        let mut taps: Vec<ExpectedTap> = Vec::new();
        let mut i: usize = 0;
        while i < self.pattern.len()
            invariant
                i <= pattern.len(),
                pattern == self.spec_pattern(),
                pattern == self.pattern@,
                beat == beat_ns(self.spec_bpm()),
                beat <= 60_000_000_000u64,
                count_in == 4 * beat,
                cursor == pattern_ticks(pattern.take(i as int)),
                taps@ == beat_indices(i as nat).filter_map(
                    note_tap(pattern, beat, session_duration),
                ),
            decreases pattern.len() - i,
        {
            assert(beat_indices(i as nat + 1).drop_last() == beat_indices(i as nat));
            assert(beat_indices(i as nat + 1).last() == i as int);
            proof {
                lemma_pattern_ticks_bound(pattern.take(i as int));
            }
            assert(beat as u128 * cursor <= 60_000_000_000u128 * (6 * 0x1_0000_0000_0000_0000u128))
                by (nonlinear_arith)
                requires
                    beat <= 60_000_000_000u64,
                    cursor <= 6 * 0x1_0000_0000_0000_0000u128,
            ;
            let at = count_in as u128 + beat as u128 * cursor / 4;
            let note = self.pattern[i];
            if !note.is_rest && at <= session_duration as u128 {
                taps.push(ExpectedTap::scored(at as u64));
            }
            assert(pattern.take(i + 1).drop_last() == pattern.take(i as int));
            cursor = cursor + note.value.duration_beats() as u128;
            i = i + 1;
        }
        taps
    }
}

/// A note to be played.
pub open spec fn played(value: NoteValue) -> PatternNote {
    PatternNote { value, is_rest: false }
}

/// A rest.
pub open spec fn silent(value: NoteValue) -> PatternNote {
    PatternNote { value, is_rest: true }
}

/// Number of curated patterns.
pub const CURATED_PATTERN_COUNT: usize = 8;

/// The curated one-bar patterns, from simplest to hardest.
pub open spec fn curated_pattern(i: int) -> Seq<PatternNote> {
    if i == 0 {
        seq![played(NoteValue::Quarter), played(NoteValue::Quarter), played(NoteValue::Quarter), played(NoteValue::Quarter)]
    } else if i == 1 {
        seq![played(NoteValue::Eighth), played(NoteValue::Eighth), played(NoteValue::Eighth), played(NoteValue::Eighth), played(NoteValue::Eighth), played(NoteValue::Eighth), played(NoteValue::Eighth), played(NoteValue::Eighth)]
    } else if i == 2 {
        seq![played(NoteValue::Quarter), played(NoteValue::Eighth), played(NoteValue::Eighth), played(NoteValue::Quarter), played(NoteValue::Eighth), played(NoteValue::Eighth)]
    } else if i == 3 {
        seq![silent(NoteValue::Quarter), played(NoteValue::Eighth), played(NoteValue::Eighth), played(NoteValue::Quarter), played(NoteValue::Quarter)]
    } else if i == 4 {
        seq![played(NoteValue::DottedQuarter), played(NoteValue::Eighth), played(NoteValue::DottedQuarter), played(NoteValue::Eighth)]
    } else if i == 5 {
        seq![played(NoteValue::Sixteenth), played(NoteValue::Sixteenth), played(NoteValue::Sixteenth), played(NoteValue::Sixteenth), played(NoteValue::Quarter), played(NoteValue::Quarter), played(NoteValue::Quarter)]
    } else if i == 6 {
        seq![silent(NoteValue::Eighth), played(NoteValue::Eighth), silent(NoteValue::Eighth), played(NoteValue::Eighth), silent(NoteValue::Eighth), played(NoteValue::Eighth), silent(NoteValue::Eighth), played(NoteValue::Eighth)]
    } else if i == 7 {
        seq![played(NoteValue::Quarter), played(NoteValue::Sixteenth), played(NoteValue::Sixteenth), played(NoteValue::Sixteenth), played(NoteValue::Sixteenth), played(NoteValue::Eighth), played(NoteValue::Eighth), played(NoteValue::Quarter)]
    } else {
        Seq::empty()
    }
}

/// Every curated pattern is a non-empty, whole number of 4/4 bars, so each
/// can follow the bar-aligned count-in of a [`RhythmReaderSchedule`].
pub proof fn lemma_curated_patterns_are_whole_bars()
    ensures
        forall|i: int| 0 <= i < CURATED_PATTERN_COUNT ==> #[trigger] is_whole_bars(curated_pattern(i)),
{
    assert(pattern_ticks(curated_pattern(0)) == 16) by { reveal_with_fuel(pattern_ticks, 9); }
    assert(pattern_ticks(curated_pattern(1)) == 16) by { reveal_with_fuel(pattern_ticks, 9); }
    assert(pattern_ticks(curated_pattern(2)) == 16) by { reveal_with_fuel(pattern_ticks, 9); }
    assert(pattern_ticks(curated_pattern(3)) == 16) by { reveal_with_fuel(pattern_ticks, 9); }
    assert(pattern_ticks(curated_pattern(4)) == 16) by { reveal_with_fuel(pattern_ticks, 9); }
    assert(pattern_ticks(curated_pattern(5)) == 16) by { reveal_with_fuel(pattern_ticks, 9); }
    assert(pattern_ticks(curated_pattern(6)) == 16) by { reveal_with_fuel(pattern_ticks, 9); }
    assert(pattern_ticks(curated_pattern(7)) == 16) by { reveal_with_fuel(pattern_ticks, 9); }
    assert forall|i: int| 0 <= i < CURATED_PATTERN_COUNT implies #[trigger] is_whole_bars(
        curated_pattern(i),
    ) by {
        assert(i == 0 || i == 1 || i == 2 || i == 3 || i == 4 || i == 5 || i == 6 || i == 7);
    }
}

/// A small, fixed library of curated one-bar (4/4) patterns spanning a
/// range of difficulty. The session draws from it per repetition.
pub fn curated_patterns() -> (patterns: Vec<Pattern>)
    ensures
        patterns@.len() == CURATED_PATTERN_COUNT,
        forall|i: int| 0 <= i < CURATED_PATTERN_COUNT ==> #[trigger] patterns@[i]@ == curated_pattern(i),
{
    let mut patterns: Vec<Pattern> = Vec::new();
    // Four quarters: the simplest possible pattern.
    patterns.push(vec![PatternNote::note(NoteValue::Quarter), PatternNote::note(NoteValue::Quarter), PatternNote::note(NoteValue::Quarter), PatternNote::note(NoteValue::Quarter)]);
    assert(patterns@[0]@ == curated_pattern(0));
    // All eighths.
    patterns.push(vec![PatternNote::note(NoteValue::Eighth), PatternNote::note(NoteValue::Eighth), PatternNote::note(NoteValue::Eighth), PatternNote::note(NoteValue::Eighth), PatternNote::note(NoteValue::Eighth), PatternNote::note(NoteValue::Eighth), PatternNote::note(NoteValue::Eighth), PatternNote::note(NoteValue::Eighth)]);
    assert(patterns@[1]@ == curated_pattern(1));
    // Quarter, two eighths, quarter, two eighths.
    patterns.push(vec![PatternNote::note(NoteValue::Quarter), PatternNote::note(NoteValue::Eighth), PatternNote::note(NoteValue::Eighth), PatternNote::note(NoteValue::Quarter), PatternNote::note(NoteValue::Eighth), PatternNote::note(NoteValue::Eighth)]);
    assert(patterns@[2]@ == curated_pattern(2));
    // Quarter rest on beat 1, syncopated eighths.
    patterns.push(vec![PatternNote::rest(NoteValue::Quarter), PatternNote::note(NoteValue::Eighth), PatternNote::note(NoteValue::Eighth), PatternNote::note(NoteValue::Quarter), PatternNote::note(NoteValue::Quarter)]);
    assert(patterns@[3]@ == curated_pattern(3));
    // Dotted quarter + eighth, twice (classic syncopation cell).
    patterns.push(vec![PatternNote::note(NoteValue::DottedQuarter), PatternNote::note(NoteValue::Eighth), PatternNote::note(NoteValue::DottedQuarter), PatternNote::note(NoteValue::Eighth)]);
    assert(patterns@[4]@ == curated_pattern(4));
    // Sixteenth-note run on beat 1, quarters after.
    patterns.push(vec![PatternNote::note(NoteValue::Sixteenth), PatternNote::note(NoteValue::Sixteenth), PatternNote::note(NoteValue::Sixteenth), PatternNote::note(NoteValue::Sixteenth), PatternNote::note(NoteValue::Quarter), PatternNote::note(NoteValue::Quarter), PatternNote::note(NoteValue::Quarter)]);
    assert(patterns@[5]@ == curated_pattern(5));
    // Eighth rests interleaved with eighth notes (off-beat feel).
    patterns.push(vec![PatternNote::rest(NoteValue::Eighth), PatternNote::note(NoteValue::Eighth), PatternNote::rest(NoteValue::Eighth), PatternNote::note(NoteValue::Eighth), PatternNote::rest(NoteValue::Eighth), PatternNote::note(NoteValue::Eighth), PatternNote::rest(NoteValue::Eighth), PatternNote::note(NoteValue::Eighth)]);
    assert(patterns@[6]@ == curated_pattern(6));
    // Mixed: quarter, sixteenth run, two eighths, quarter.
    patterns.push(vec![PatternNote::note(NoteValue::Quarter), PatternNote::note(NoteValue::Sixteenth), PatternNote::note(NoteValue::Sixteenth), PatternNote::note(NoteValue::Sixteenth), PatternNote::note(NoteValue::Sixteenth), PatternNote::note(NoteValue::Eighth), PatternNote::note(NoteValue::Eighth), PatternNote::note(NoteValue::Quarter)]);
    assert(patterns@[7]@ == curated_pattern(7));
    patterns
}

/// Number of notes (not rests) in a pattern.
pub open spec fn played_count(pattern: Seq<PatternNote>) -> nat
    decreases pattern.len(),
{
    if pattern.len() == 0 {
        0
    } else {
        played_count(pattern.drop_last()) + if pattern.last().is_rest {
            0nat
        } else {
            1nat
        }
    }
}

proof fn lemma_taps_of_prefix(pattern: Seq<PatternNote>, beat: u64, session_duration: u64, n: nat)
    requires
        n <= pattern.len(),
        forall|i: int| 0 <= i < n ==> #[trigger] note_time(pattern, beat, i) <= session_duration,
    ensures
        beat_indices(n).filter_map(note_tap(pattern, beat, session_duration)).len() == played_count(
            pattern.take(n as int),
        ),
    decreases n,
{
    if n > 0 {
        lemma_taps_of_prefix(pattern, beat, session_duration, (n - 1) as nat);
        assert(beat_indices(n).drop_last() == beat_indices((n - 1) as nat));
        assert(beat_indices(n).last() == n - 1);
        assert(pattern.take(n as int).drop_last() == pattern.take(n - 1));
        assert(pattern.take(n as int).last() == pattern[n - 1]);
        assert(note_time(pattern, beat, n - 1) <= session_duration);
    }
}

/// Rests produce no expected taps: when every note falls within the
/// session, there is exactly one expected tap per played note.
pub proof fn lemma_one_tap_per_played_note(schedule: RhythmReaderSchedule, session_duration: u64)
    requires
        forall|i: int|
            0 <= i < schedule.spec_pattern().len() ==> #[trigger] note_time(
                schedule.spec_pattern(),
                beat_ns(schedule.spec_bpm()),
                i,
            ) <= session_duration,
    ensures
        schedule.tap_plan(session_duration).len() == played_count(schedule.spec_pattern()),
{
    let pattern = schedule.spec_pattern();
    lemma_taps_of_prefix(pattern, beat_ns(schedule.spec_bpm()), session_duration, pattern.len());
    assert(pattern.take(pattern.len() as int) == pattern);
}

/// Every note adds at least one tick: the notes before `j` span at least
/// `j - i` ticks more than those before `i`.
proof fn lemma_ticks_grow(pattern: Seq<PatternNote>, i: int, j: int)
    requires
        0 <= i <= j <= pattern.len(),
    ensures
        pattern_ticks(pattern.take(j)) >= pattern_ticks(pattern.take(i)) + (j - i),
    decreases j - i,
{
    if i < j {
        lemma_ticks_grow(pattern, i, j - 1);
        assert(pattern.take(j).drop_last() == pattern.take(j - 1));
    }
}

/// Later notes start strictly later (a beat being at least four
/// nanoseconds long).
pub proof fn lemma_note_times_increase(pattern: Seq<PatternNote>, beat: u64, i: int, j: int)
    requires
        0 <= i < j <= pattern.len(),
        beat >= 4,
    ensures
        note_time(pattern, beat, i) < note_time(pattern, beat, j),
{
    let ti = pattern_ticks(pattern.take(i)) as int;
    let tj = pattern_ticks(pattern.take(j)) as int;
    lemma_ticks_grow(pattern, i, j);
    assert(beat * tj >= beat * ti + 4) by (nonlinear_arith)
        requires
            tj >= ti + 1,
            beat >= 4,
            ti >= 0,
    ;
    assert((beat * ti) / 4 < (beat * tj) / 4) by (nonlinear_arith)
        requires
            beat * tj >= beat * ti + 4,
            beat * ti >= 0,
    ;
}

/// The expected taps among the first `n` notes come in strictly increasing
/// time, all before the start of note `n`.
proof fn lemma_note_taps_increase(pattern: Seq<PatternNote>, beat: u64, session_duration: u64, n: nat)
    requires
        n <= pattern.len(),
        beat >= 4,
    ensures
        ({
            let taps = beat_indices(n).filter_map(note_tap(pattern, beat, session_duration));
            &&& forall|k: int| 0 <= k < taps.len() ==> #[trigger] taps[k].at < note_time(pattern, beat, n as int)
            &&& forall|a: int, b: int| 0 <= a < b < taps.len() ==> taps[a].at < taps[b].at
        }),
    decreases n,
{
    if n > 0 {
        let m = (n - 1) as nat;
        lemma_note_taps_increase(pattern, beat, session_duration, m);
        lemma_note_times_increase(pattern, beat, m as int, n as int);
        assert(beat_indices(n).drop_last() == beat_indices(m));
        assert(beat_indices(n).last() == m as int);
        let before = beat_indices(m).filter_map(note_tap(pattern, beat, session_duration));
        let taps = beat_indices(n).filter_map(note_tap(pattern, beat, session_duration));
        assert(note_time(pattern, beat, m as int) >= 0) by {
            assert(beat * pattern_ticks(pattern.take(m as int)) >= 0) by (nonlinear_arith)
                requires
                    beat >= 4,
            ;
        }
        if note_tap(pattern, beat, session_duration)(m as int) is Some {
            assert(taps == before + seq![note_tap(pattern, beat, session_duration)(m as int)->0]);
            assert forall|k: int| 0 <= k < taps.len() implies #[trigger] taps[k].at < note_time(
                pattern,
                beat,
                n as int,
            ) by {
                if k < before.len() {
                    assert(taps[k] == before[k]);
                }
            }
            assert forall|a: int, b: int| 0 <= a < b < taps.len() implies taps[a].at < taps[b].at by {
                assert(taps[a] == before[a]);
                if b < before.len() {
                    assert(taps[b] == before[b]);
                }
            }
        } else {
            assert(taps == before);
        }
    }
}

/// A Rhythm Reader's expected taps come in strictly increasing time, so no
/// two are expected at the same time.
pub proof fn lemma_taps_strictly_increase(schedule: RhythmReaderSchedule, session_duration: u64)
    requires
        schedule.spec_bpm() > 0,
    ensures
        forall|a: int, b: int|
            0 <= a < b < schedule.tap_plan(session_duration).len() ==> schedule.tap_plan(
                session_duration,
            )[a].at < schedule.tap_plan(session_duration)[b].at,
{
    assert(beat_ns(schedule.spec_bpm()) >= 4) by {
        assert(60_000_000_000u64 / (schedule.spec_bpm() as u64) >= 13) by (nonlinear_arith)
            requires
                0 < schedule.spec_bpm() <= 4_294_967_295u64,
        ;
    }
    lemma_note_taps_increase(
        schedule.spec_pattern(),
        beat_ns(schedule.spec_bpm()),
        session_duration,
        schedule.spec_pattern().len(),
    );
}

/// The shortest note value is the length of some note of the pattern, and
/// no note of the pattern is shorter.
pub proof fn lemma_shortest_is_the_minimum(pattern: Seq<PatternNote>)
    requires
        pattern.len() > 0,
    ensures
        forall|i: int| 0 <= i < pattern.len() ==> shortest_ticks(pattern) <= note_ticks(
            #[trigger] pattern[i].value,
        ),
        exists|j: int| 0 <= j < pattern.len() && shortest_ticks(pattern) == note_ticks(
            #[trigger] pattern[j].value,
        ),
    decreases pattern.len(),
{
    if pattern.len() > 1 {
        let rest = pattern.drop_last();
        lemma_shortest_is_the_minimum(rest);
        assert forall|i: int| 0 <= i < pattern.len() implies shortest_ticks(pattern) <= note_ticks(
            #[trigger] pattern[i].value,
        ) by {
            if i < rest.len() {
                assert(rest[i] == pattern[i]);
            }
        }
        if note_ticks(pattern.last().value) < shortest_ticks(rest) {
            assert(shortest_ticks(pattern) == note_ticks(pattern[pattern.len() - 1].value));
        } else {
            let j = choose|j: int| 0 <= j < rest.len() && shortest_ticks(rest) == note_ticks(
                #[trigger] rest[j].value,
            );
            assert(rest[j] == pattern[j]);
            assert(shortest_ticks(pattern) == note_ticks(pattern[j].value));
        }
    } else {
        assert(shortest_ticks(pattern) == note_ticks(pattern[0].value));
    }
}

/// The count-in is one bar of plain beats and nothing else: clicks at
/// `0, beat, 2 * beat, 3 * beat`, cut short by the end of the session, and
/// none during the pattern.
pub proof fn lemma_count_in_clicks(schedule: RhythmReaderSchedule, session_duration: u64)
    requires
        schedule.spec_bpm() > 0,
    ensures
        ({
            let clicks = schedule.click_plan(session_duration);
            let beat = beat_ns(schedule.spec_bpm()) as int;
            let fit = (session_duration as int) / beat + 1;
            &&& clicks.len() == if fit < 4 {
                fit
            } else {
                4
            }
            &&& forall|k: int| 0 <= k < clicks.len() ==> #[trigger] clicks[k].at == k * beat
            &&& forall|k: int| 0 <= k < clicks.len() ==> #[trigger] clicks[k].at < 4 * beat
        }),
{
    crate::timing::lemma_beat_fills_a_minute(schedule.spec_bpm());
    let beat = beat_ns(schedule.spec_bpm()) as int;
    let q = (session_duration as int) / beat;
    let r = (session_duration as int) % beat;
    vstd::arithmetic::div_mod::lemma_fundamental_div_mod(session_duration as int, beat);
    vstd::arithmetic::div_mod::lemma_div_pos_is_pos(session_duration as int, beat);
    let m = if q + 1 < 4 {
        q + 1
    } else {
        4
    };
    let f = pulse_click(beat as u64, session_duration);
    assert forall|k: int| 0 <= k < 4 implies ((#[trigger] f(k)) is Some <==> k < m) by {
        if k <= q {
            assert(k * beat <= session_duration) by (nonlinear_arith)
                requires
                    k <= q,
                    beat > 0,
                    session_duration == beat * q + r,
                    r >= 0,
            ;
        } else {
            assert(k * beat > session_duration) by (nonlinear_arith)
                requires
                    k >= q + 1,
                    beat > 0,
                    session_duration == beat * q + r,
                    r < beat,
            ;
        }
    }
    lemma_prefix_kept(4, m as nat, f);
    let clicks = schedule.click_plan(session_duration);
    assert forall|k: int| 0 <= k < clicks.len() implies #[trigger] clicks[k].at < 4 * beat by {
        assert(0 <= k * beat < 4 * beat) by (nonlinear_arith)
            requires
                0 <= k < 4,
                beat > 0,
        ;
    }
}

} // verus!
