//! The live state of a Rhythm Reader repetition as the display shows it:
//! which notes have been hit or missed, where the playhead is, whether a
//! mistap is being flagged, and the glyph drawn for each note. Layout and
//! colors are chosen in the application.

use vstd::prelude::*;

use crate::evaluator::TapResult;
use crate::schedules::rhythm_reader::{
    note_ticks, pattern_ticks, NoteValue, Pattern, PatternNote,
};
use crate::timing::NANOS_PER_MINUTE;

verus! {

/// How long a mistap stays flagged, in nanoseconds.
pub const MISTAP_FLASH_DURATION_NS: u64 = 400_000_000;

/// Per-note resolution state, tracked by index into the pattern so each
/// symbol can be colored independently as results come in.
#[derive(Debug, Clone, Copy, PartialEq, Eq, Structural)]
pub enum NoteState {
    Pending,
    Hit,
    Missed,
}

/// `a - b`, or 0 if `b` is greater.
pub open spec fn gap(a: u64, b: u64) -> int {
    if a >= b {
        a - b
    } else {
        0
    }
}

/// The playhead is more than half a beat past the start of a note that
/// begins `start` ticks into the pattern: `(elapsed - count_in)` in beats
/// (`bpm` per minute) exceeds `start / 4 + 1/2`.
pub open spec fn past_note(elapsed: u64, count_in: u64, bpm: u32, start: int) -> bool {
    4 * gap(elapsed, count_in) * bpm > (start + 2) * NANOS_PER_MINUTE
}

/// A result expected at `at` belongs to a note starting `start` ticks into
/// the pattern: the two positions, in beats, differ by less than a
/// thousandth of a beat.
pub open spec fn result_matches_note(at: u64, count_in: u64, bpm: u32, start: int) -> bool {
    let lhs = 1000 * start * NANOS_PER_MINUTE;
    let rhs = 4000 * gap(at, count_in) * bpm;
    -4 * (NANOS_PER_MINUTE as int) < lhs - rhs < 4 * NANOS_PER_MINUTE
}

/// The first note (rests included) that a result expected at `at` belongs
/// to, scanning from note `from`.
pub open spec fn matching_note_from(
    starts: Seq<int>,
    at: u64,
    count_in: u64,
    bpm: u32,
    from: int,
) -> Option<int>
    decreases starts.len() - from,
{
    if from >= starts.len() || from < 0 {
        None
    } else if result_matches_note(at, count_in, bpm, starts[from]) {
        Some(from)
    } else {
        matching_note_from(starts, at, count_in, bpm, from + 1)
    }
}

/// Start (ticks into the pattern) of each note.
pub open spec fn note_starts(pattern: Seq<PatternNote>) -> Seq<int> {
    Seq::new(pattern.len(), |i: int| pattern_ticks(pattern.take(i)) as int)
}

/// Note states after the playhead moved to `elapsed`: every pending note
/// (not rest) more than half a beat behind the playhead becomes missed.
pub open spec fn states_after_playhead(
    pattern: Seq<PatternNote>,
    states: Seq<NoteState>,
    elapsed: u64,
    count_in: u64,
    bpm: u32,
) -> Seq<NoteState> {
    Seq::new(
        states.len(),
        |i: int|
            if !pattern[i].is_rest && states[i] == NoteState::Pending && past_note(
                elapsed,
                count_in,
                bpm,
                note_starts(pattern)[i],
            ) {
                NoteState::Missed
            } else {
                states[i]
            },
    )
}

/// Note states after a result expected at `at` came in: the note it
/// belongs to (see [`matching_note_from`]) is hit; nothing changes if there
/// is none.
pub open spec fn states_after_result(
    pattern: Seq<PatternNote>,
    states: Seq<NoteState>,
    at: u64,
    count_in: u64,
    bpm: u32,
) -> Seq<NoteState> {
    match matching_note_from(note_starts(pattern), at, count_in, bpm, 0) {
        Some(i) => states.update(i, NoteState::Hit),
        None => states,
    }
}

/// Moving the playhead never undoes a hit or a miss and never marks a
/// rest: only pending notes change, and only to missed.
pub proof fn lemma_playhead_only_marks_misses(
    pattern: Seq<PatternNote>,
    states: Seq<NoteState>,
    elapsed: u64,
    count_in: u64,
    bpm: u32,
)
    requires
        pattern.len() == states.len(),
    ensures
        states_after_playhead(pattern, states, elapsed, count_in, bpm).len() == states.len(),
        forall|i: int|
            0 <= i < states.len() && #[trigger] states_after_playhead(
                pattern,
                states,
                elapsed,
                count_in,
                bpm,
            )[i] != states[i] ==> states[i] == NoteState::Pending && !pattern[i].is_rest
                && states_after_playhead(pattern, states, elapsed, count_in, bpm)[i]
                == NoteState::Missed,
{
}

/// A note past the playhead at one moment is past it at every later moment.
proof fn lemma_past_note_stays_past(e1: u64, e2: u64, count_in: u64, bpm: u32, start: int)
    requires
        e1 <= e2,
        past_note(e1, count_in, bpm, start),
    ensures
        past_note(e2, count_in, bpm, start),
{
    assert(4 * gap(e1, count_in) * bpm <= 4 * gap(e2, count_in) * bpm) by (nonlinear_arith)
        requires
            0 <= gap(e1, count_in) <= gap(e2, count_in),
            bpm >= 0,
    ;
}

/// Moving the playhead to one moment and then to a later one marks the same
/// notes as moving it straight to the later one.
pub proof fn lemma_playhead_moves_compose(
    pattern: Seq<PatternNote>,
    states: Seq<NoteState>,
    e1: u64,
    e2: u64,
    count_in: u64,
    bpm: u32,
)
    requires
        pattern.len() == states.len(),
        e1 <= e2,
    ensures
        states_after_playhead(
            pattern,
            states_after_playhead(pattern, states, e1, count_in, bpm),
            e2,
            count_in,
            bpm,
        ) == states_after_playhead(pattern, states, e2, count_in, bpm),
{
    let mid = states_after_playhead(pattern, states, e1, count_in, bpm);
    assert forall|i: int| 0 <= i < states.len() implies states_after_playhead(
        pattern,
        mid,
        e2,
        count_in,
        bpm,
    )[i] == states_after_playhead(pattern, states, e2, count_in, bpm)[i] by {
        if past_note(e1, count_in, bpm, note_starts(pattern)[i]) {
            lemma_past_note_stays_past(e1, e2, count_in, bpm, note_starts(pattern)[i]);
        }
    }
    assert(states_after_playhead(pattern, mid, e2, count_in, bpm) =~= states_after_playhead(
        pattern,
        states,
        e2,
        count_in,
        bpm,
    ));
}

pub struct RhythmReaderState {
    bpm: u32,
    pattern: Pattern,
    /// Start of each note, in ticks from the start of the pattern.
    note_starts: Vec<u128>,
    note_states: Vec<NoteState>,
    count_in_duration: u64,
    rep_index: u32,
    total_reps: u32,
    elapsed: u64,
    last_mistap_at: Option<u64>,
}

impl RhythmReaderState {
    /// The state's internal invariant: one start and one state per note,
    /// and each start is the length of the notes before it.
    pub closed spec fn wf(&self) -> bool {
        &&& self.bpm > 0
        &&& self.note_starts@.len() == self.pattern@.len()
        &&& self.note_states@.len() == self.pattern@.len()
        &&& forall|i: int|
            0 <= i < self.pattern@.len() ==> #[trigger] self.note_starts@[i] == pattern_ticks(
                self.pattern@.take(i),
            )
    }

    pub closed spec fn spec_pattern(&self) -> Seq<PatternNote> {
        self.pattern@
    }

    pub closed spec fn spec_note_states(&self) -> Seq<NoteState> {
        self.note_states@
    }

    pub closed spec fn spec_bpm(&self) -> u32 {
        self.bpm
    }

    pub closed spec fn spec_count_in(&self) -> u64 {
        self.count_in_duration
    }

    pub closed spec fn spec_elapsed(&self) -> u64 {
        self.elapsed
    }

    pub closed spec fn spec_last_mistap_at(&self) -> Option<u64> {
        self.last_mistap_at
    }

    /// Which repetition this is (counting from 0) and how many there are.
    pub closed spec fn spec_repetition(&self) -> (u32, u32) {
        (self.rep_index, self.total_reps)
    }

    /// A repetition that has just begun: every note pending, the playhead
    /// at the start of the count-in.
    pub fn new(
        bpm: u32,
        pattern: Pattern,
        count_in_duration: u64,
        rep_index: u32,
        total_reps: u32,
    ) -> (state: Self)
        requires
            bpm > 0,
        ensures
            state.wf(),
            state.spec_bpm() == bpm,
            state.spec_pattern() == pattern@,
            state.spec_note_states() == Seq::new(pattern@.len(), |i: int| NoteState::Pending),
            state.spec_count_in() == count_in_duration,
            state.spec_elapsed() == 0,
            state.spec_last_mistap_at() is None,
            state.spec_repetition() == (rep_index, total_reps),
    {
        let mut cursor: u128 = 0;
        let mut note_starts: Vec<u128> = Vec::new();
        let mut note_states: Vec<NoteState> = Vec::new();
        let mut i: usize = 0;
        while i < pattern.len()
            invariant
                i <= pattern@.len(),
                cursor == pattern_ticks(pattern@.take(i as int)),
                note_starts@.len() == i,
                note_states@.len() == i,
                forall|k: int| 0 <= k < i ==> #[trigger] note_starts@[k] == pattern_ticks(
                    pattern@.take(k),
                ),
                forall|k: int| 0 <= k < i ==> #[trigger] note_states@[k] == NoteState::Pending,
            decreases pattern@.len() - i,
        {
            proof {
                crate::schedules::rhythm_reader::lemma_pattern_ticks_bound(pattern@.take(i as int));
            }
            note_starts.push(cursor);
            note_states.push(NoteState::Pending);
            assert(pattern@.take(i + 1).drop_last() == pattern@.take(i as int));
            cursor = cursor + pattern[i].value.duration_beats() as u128;
            i = i + 1;
        }
        let state = RhythmReaderState {
            bpm,
            pattern,
            note_starts,
            note_states,
            count_in_duration,
            rep_index,
            total_reps,
            elapsed: 0,
            last_mistap_at: None,
        };
        assert(state.spec_note_states() == Seq::new(state.pattern@.len(), |i: int| NoteState::Pending));
        state
    }

    /// Moves the playhead to `elapsed` (nanoseconds since the repetition
    /// started). Any pending note more than half a beat behind it becomes
    /// missed for display purposes; the scored miss count comes from the
    /// session's own tally after the repetition.
    pub fn update_playhead(&mut self, elapsed: u64)
        requires
            old(self).wf(),
        ensures
            final(self).wf(),
            final(self).spec_elapsed() == elapsed,
            final(self).spec_pattern() == old(self).spec_pattern(),
            final(self).spec_bpm() == old(self).spec_bpm(),
            final(self).spec_count_in() == old(self).spec_count_in(),
            final(self).spec_last_mistap_at() == old(self).spec_last_mistap_at(),
            final(self).spec_repetition() == old(self).spec_repetition(),
            final(self).spec_note_states() == states_after_playhead(
                old(self).spec_pattern(),
                old(self).spec_note_states(),
                elapsed,
                old(self).spec_count_in(),
                old(self).spec_bpm(),
            ),
    {
        self.elapsed = elapsed;
        let ghost before = self.note_states@;
        let since = if elapsed >= self.count_in_duration {
            elapsed - self.count_in_duration
        } else {
            0
        };
        assert(4 * since as u128 * self.bpm as u128 <= 4 * 0x1_0000_0000_0000_0000u128 * 0x1_0000_0000u128)
            by (nonlinear_arith)
            requires
                since <= u64::MAX,
                self.bpm <= u32::MAX,
        ;
        let lhs = 4 * since as u128 * self.bpm as u128;
        let mut idx: usize = 0;
        while idx < self.note_states.len()
            invariant
                self.wf(),
                self.elapsed == elapsed,
                self.pattern@ == old(self).pattern@,
                self.bpm == old(self).bpm,
                self.count_in_duration == old(self).count_in_duration,
                self.last_mistap_at == old(self).last_mistap_at,
                self.rep_index == old(self).rep_index,
                self.total_reps == old(self).total_reps,
                idx <= self.note_states@.len(),
                before.len() == self.note_states@.len(),
                since == gap(elapsed, self.count_in_duration),
                lhs == 4 * since * self.bpm,
                forall|k: int|
                    0 <= k < idx ==> #[trigger] self.note_states@[k] == states_after_playhead(
                        self.pattern@,
                        before,
                        elapsed,
                        self.count_in_duration,
                        self.bpm,
                    )[k],
                forall|k: int| idx <= k < before.len() ==> #[trigger] self.note_states@[k] == before[k],
            decreases before.len() - idx,
        {
            proof {
                crate::schedules::rhythm_reader::lemma_pattern_ticks_bound(
                    self.pattern@.take(idx as int),
                );
            }
            let start = self.note_starts[idx];
            assert(note_starts(self.pattern@)[idx as int] == start);
            assert(start <= 6 * 0x1_0000_0000_0000_0000u128);
            assert((start + 2) * 60_000_000_000u128 <= (6 * 0x1_0000_0000_0000_0000u128 + 2) * 60_000_000_000u128)
                by (nonlinear_arith)
                requires
                    start <= 6 * 0x1_0000_0000_0000_0000u128,
            ;
            if !self.pattern[idx].is_rest && self.note_states[idx] == NoteState::Pending
                && lhs > (start + 2) * NANOS_PER_MINUTE as u128 {
                self.note_states.set(idx, NoteState::Missed);
            }
            idx = idx + 1;
        }
        assert(self.note_states@ == states_after_playhead(
            self.pattern@,
            before,
            elapsed,
            self.count_in_duration,
            self.bpm,
        ));
    }

    /// Marks the note that `result` was matched to as hit: the first note
    /// whose position lies within a thousandth of a beat of the result's
    /// expected time. Nothing changes if there is none.
    pub fn push_result(&mut self, result: TapResult)
        requires
            old(self).wf(),
        ensures
            final(self).wf(),
            final(self).spec_elapsed() == old(self).spec_elapsed(),
            final(self).spec_pattern() == old(self).spec_pattern(),
            final(self).spec_bpm() == old(self).spec_bpm(),
            final(self).spec_count_in() == old(self).spec_count_in(),
            final(self).spec_last_mistap_at() == old(self).spec_last_mistap_at(),
            final(self).spec_repetition() == old(self).spec_repetition(),
            final(self).spec_note_states() == states_after_result(
                old(self).spec_pattern(),
                old(self).spec_note_states(),
                result.expected.at,
                old(self).spec_count_in(),
                old(self).spec_bpm(),
            ),
    {
        let at = result.expected.at;
        let since = if at >= self.count_in_duration {
            at - self.count_in_duration
        } else {
            0
        };
        assert(4000 * since as u128 * self.bpm as u128 <= 4000 * 0x1_0000_0000_0000_0000u128 * 0x1_0000_0000u128)
            by (nonlinear_arith)
            requires
                since <= u64::MAX,
                self.bpm <= u32::MAX,
        ;
        let rhs = 4000 * since as u128 * self.bpm as u128;
        let window = 4 * NANOS_PER_MINUTE as u128;
        let ghost starts = note_starts(self.pattern@);
        let mut idx: usize = 0;
        while idx < self.note_starts.len()
            invariant
                self.wf(),
                self.pattern@ == old(self).pattern@,
                self.bpm == old(self).bpm,
                self.count_in_duration == old(self).count_in_duration,
                self.last_mistap_at == old(self).last_mistap_at,
                self.rep_index == old(self).rep_index,
                self.total_reps == old(self).total_reps,
                self.elapsed == old(self).elapsed,
                self.note_states@ == old(self).note_states@,
                idx <= self.note_starts@.len(),
                starts == note_starts(self.pattern@),
                at == result.expected.at,
                since == gap(at, self.count_in_duration),
                rhs == 4000 * since * self.bpm,
                window == 4 * NANOS_PER_MINUTE,
                matching_note_from(starts, at, self.count_in_duration, self.bpm, 0)
                    == matching_note_from(starts, at, self.count_in_duration, self.bpm, idx as int),
            decreases self.note_starts@.len() - idx,
        {
            proof {
                crate::schedules::rhythm_reader::lemma_pattern_ticks_bound(
                    self.pattern@.take(idx as int),
                );
            }
            let start = self.note_starts[idx];
            assert(starts[idx as int] == start);
            assert(start <= 6 * 0x1_0000_0000_0000_0000u128);
            assert(1000 * start * 60_000_000_000u128 <= 1000 * (6 * 0x1_0000_0000_0000_0000u128) * 60_000_000_000u128)
                by (nonlinear_arith)
                requires
                    start <= 6 * 0x1_0000_0000_0000_0000u128,
            ;
            let lhs = 1000 * start * NANOS_PER_MINUTE as u128;
            let close = if lhs >= rhs {
                lhs - rhs < window
            } else {
                rhs - lhs < window
            };
            assert(close == result_matches_note(at, self.count_in_duration, self.bpm, starts[idx as int]));
            if close {
                assert(starts.len() == self.note_starts@.len());
                assert(matching_note_from(starts, at, self.count_in_duration, self.bpm, idx as int)
                    == Some(idx as int));
                self.note_states.set(idx, NoteState::Hit);
                return;
            }
            assert(matching_note_from(starts, at, self.count_in_duration, self.bpm, idx as int)
                == matching_note_from(starts, at, self.count_in_duration, self.bpm, idx + 1));
            idx = idx + 1;
        }
    }

    /// Records a mistap at `at` (nanoseconds since the repetition started),
    /// which is flagged for a short while.
    pub fn push_mistap(&mut self, at: u64)
        ensures
            final(self).spec_last_mistap_at() == Some(at),
            final(self).spec_elapsed() == old(self).spec_elapsed(),
            final(self).spec_pattern() == old(self).spec_pattern(),
            final(self).spec_note_states() == old(self).spec_note_states(),
            final(self).spec_bpm() == old(self).spec_bpm(),
            final(self).spec_count_in() == old(self).spec_count_in(),
            final(self).spec_repetition() == old(self).spec_repetition(),
            old(self).wf() ==> final(self).wf(),
    {
        self.last_mistap_at = Some(at);
    }

    /// Whether the last mistap is still being flagged at the playhead.
    pub fn mistap_flashing(&self) -> (flashing: bool)
        ensures
            flashing == match self.spec_last_mistap_at() {
                Some(t) => gap(self.spec_elapsed(), t) < MISTAP_FLASH_DURATION_NS,
                None => false,
            },
    {
        match self.last_mistap_at {
            Some(t) => {
                let since = if self.elapsed >= t {
                    self.elapsed - t
                } else {
                    0
                };
                since < MISTAP_FLASH_DURATION_NS
            },
            None => false,
        }
    }

    /// Playhead position since the start of the pattern itself (count-in
    /// subtracted, 0 during the count-in), in nanoseconds.
    pub fn playhead_ns(&self) -> (position: u64)
        ensures
            position == gap(self.spec_elapsed(), self.spec_count_in()),
    {
        if self.elapsed >= self.count_in_duration {
            self.elapsed - self.count_in_duration
        } else {
            0
        }
    }

    /// Whether the playhead is still in the count-in.
    pub fn in_count_in(&self) -> (counting_in: bool)
        ensures
            counting_in == (self.spec_elapsed() < self.spec_count_in()),
    {
        self.elapsed < self.count_in_duration
    }

    pub fn bpm(&self) -> (bpm: u32)
        ensures
            bpm == self.spec_bpm(),
    {
        self.bpm
    }

    pub fn pattern(&self) -> (pattern: &Pattern)
        ensures
            pattern@ == self.spec_pattern(),
    {
        &self.pattern
    }

    /// The state of note `index`.
    pub fn note_state(&self, index: usize) -> (state: NoteState)
        requires
            self.wf(),
            index < self.spec_pattern().len(),
        ensures
            state == self.spec_note_states()[index as int],
    {
        self.note_states[index]
    }

    /// Which repetition this is (from 0), and how many there are.
    pub fn repetition(&self) -> (rep: (u32, u32))
        ensures
            rep == self.spec_repetition(),
    {
        (self.rep_index, self.total_reps)
    }
}

/// Number of character rows of a note glyph: upper flag, lower flag, stem,
/// notehead.
pub const GLYPH_ROWS: usize = 4;

/// Character width of each note glyph.
pub const GLYPH_WIDTH: usize = 2;

/// The glyph of a note or rest, top row first.
pub open spec fn glyph_of(note: PatternNote) -> Seq<Seq<char>> {
    match (note.value, note.is_rest) {
        (NoteValue::Quarter, false) => seq!["  "@, "│ "@, "│ "@, "● "@],
        (NoteValue::Eighth, false) => seq!["  "@, "│╮"@, "│ "@, "● "@],
        (NoteValue::Sixteenth, false) => seq!["│╮"@, "│╮"@, "│ "@, "● "@],
        (NoteValue::DottedQuarter, false) => seq!["  "@, "│ "@, "│ "@, "●."@],
        (NoteValue::Quarter, true) => seq![" ╱"@, "╱ "@, "  "@, "╲ "@],
        (NoteValue::Eighth, true) => seq!["  "@, " ●"@, "  "@, "╱ "@],
        (NoteValue::Sixteenth, true) => seq![" ●"@, " ●"@, "  "@, "╱ "@],
        (NoteValue::DottedQuarter, true) => seq![" ╱"@, "╱ "@, "  "@, "╲."@],
    }
}

/// A note or rest drawn as a few rows of stem/flag/notehead characters
/// (top to bottom: upper flag, lower flag, stem, notehead or dot) instead of
/// a single Unicode music symbol, which renders too small at normal terminal
/// font sizes. Sixteenths get two flags, eighths one, quarters a bare stem,
/// a dotted quarter a trailing dot. Rests keep the same canvas but leave the
/// stem row blank and draw a zigzag or dot shape, with their mark on the
/// bottom row in place of a notehead.
pub fn note_glyph_rows(note: &PatternNote) -> (rows: [&'static str; 4])
    ensures
        rows@.map_values(|row: &str| row@) == glyph_of(*note),
{
    let rows = match (note.value, note.is_rest) {
        (NoteValue::Quarter, false) => ["  ", "│ ", "│ ", "● "],
        (NoteValue::Eighth, false) => ["  ", "│╮", "│ ", "● "],
        (NoteValue::Sixteenth, false) => ["│╮", "│╮", "│ ", "● "],
        (NoteValue::DottedQuarter, false) => ["  ", "│ ", "│ ", "●."],
        (NoteValue::Quarter, true) => [" ╱", "╱ ", "  ", "╲ "],
        (NoteValue::Eighth, true) => ["  ", " ●", "  ", "╱ "],
        (NoteValue::Sixteenth, true) => [" ●", " ●", "  ", "╱ "],
        (NoteValue::DottedQuarter, true) => [" ╱", "╱ ", "  ", "╲."],
    };
    assert(rows@.map_values(|row: &str| row@) == glyph_of(*note));
    rows
}

/// Every glyph row is two characters wide; a rest leaves the stem row
/// blank and has no notehead on the bottom row.
pub proof fn lemma_rest_glyph_layout(note: PatternNote)
    ensures
        glyph_of(note).len() == GLYPH_ROWS,
        forall|r: int| 0 <= r < GLYPH_ROWS ==> (#[trigger] glyph_of(note)[r]).len() == GLYPH_WIDTH,
        note.is_rest ==> glyph_of(note)[2] == "  "@,
        note.is_rest ==> !glyph_of(note)[3].contains('●'),
{
    reveal_strlit("  ");
    reveal_strlit(" ╱");
    reveal_strlit("╱ ");
    reveal_strlit("╲ ");
    reveal_strlit("╲.");
    reveal_strlit(" ●");
    reveal_strlit("│ ");
    reveal_strlit("│╮");
    reveal_strlit("● ");
    reveal_strlit("●.");
    if note.is_rest {
        let last = glyph_of(note)[3];
        assert(!last.contains('●')) by {
            if last.contains('●') {
                let k = choose|k: int| 0 <= k < last.len() && last[k] == '●';
                assert(last[k] == '●');
            }
        }
    }
}

} // verus!
