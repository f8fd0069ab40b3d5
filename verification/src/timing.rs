//! Units and tempo arithmetic shared by every schedule.

use vstd::prelude::*;

use crate::schedule::ClickEvent;

verus! {

/// Nanoseconds in one millisecond.
pub const NANOS_PER_MILLI: u64 = 1_000_000;

/// Nanoseconds in one minute.
pub const NANOS_PER_MINUTE: u64 = 60_000_000_000;

/// Length of one beat, in nanoseconds, at `bpm` beats per minute (rounded
/// down to a whole nanosecond).
pub open spec fn beat_ns(bpm: u32) -> u64 {
    (NANOS_PER_MINUTE / (bpm as u64)) as u64
}

/// Length of one beat, in nanoseconds, at `bpm` beats per minute.
pub fn beat_duration_ns(bpm: u32) -> (beat: u64)
    requires
        bpm > 0,
    ensures
        beat == beat_ns(bpm),
        beat >= 13,
        beat <= NANOS_PER_MINUTE,
{
    let beat = NANOS_PER_MINUTE / (bpm as u64);
    assert(beat >= 13) by (nonlinear_arith)
        requires
            beat == 60_000_000_000u64 / (bpm as u64),
            0 < bpm <= 4_294_967_295u64,
    ;
    beat
}

/// The indices `0..count`.
pub open spec fn beat_indices(count: nat) -> Seq<int> {
    Seq::new(count, |k: int| k)
}

/// Beat `i` of a steady pulse with period `beat` as a click, if it is at or
/// before `session_duration`.
pub open spec fn pulse_click(beat: u64, session_duration: u64) -> spec_fn(int) -> Option<
    ClickEvent,
> {
    |i: int|
        if i * beat <= session_duration {
            Some(ClickEvent { at: (i * beat) as u64 })
        } else {
            None
        }
}

/// When every index below `n` maps to something, `filter_map` keeps them
/// all, one for one and in order.
pub proof fn lemma_all_kept<B>(n: nat, f: spec_fn(int) -> Option<B>)
    requires
        forall|k: int| 0 <= k < n ==> (#[trigger] f(k)) is Some,
    ensures
        beat_indices(n).filter_map(f).len() == n,
        forall|k: int| 0 <= k < n ==> #[trigger] beat_indices(n).filter_map(f)[k] == f(k)->0,
    decreases n,
{
    if n > 0 {
        lemma_all_kept((n - 1) as nat, f);
        assert(beat_indices(n).drop_last() == beat_indices((n - 1) as nat));
        assert(f(beat_indices(n).last()) is Some);
    }
}

/// An index that maps to something keeps its value in `filter_map`.
pub proof fn lemma_kept_is_contained<B>(n: nat, f: spec_fn(int) -> Option<B>, k: int)
    requires
        0 <= k < n,
        f(k) is Some,
    ensures
        beat_indices(n).filter_map(f).contains(f(k)->0),
    decreases n,
{
    assert(beat_indices(n).drop_last() == beat_indices((n - 1) as nat));
    assert(beat_indices(n).last() == n - 1);
    let rest = beat_indices((n - 1) as nat).filter_map(f);
    if k == n - 1 {
        let all = rest + seq![f(k)->0];
        assert(all[rest.len() as int] == f(k)->0);
    } else {
        lemma_kept_is_contained((n - 1) as nat, f, k);
        let j = choose|j: int| 0 <= j < rest.len() && rest[j] == f(k)->0;
        if f(n - 1) is Some {
            let all = rest + seq![f(n - 1)->0];
            assert(all[j] == f(k)->0);
        }
    }
}

/// When the indices that map to something are exactly those below `m`,
/// `filter_map` keeps exactly those, one for one and in order.
pub proof fn lemma_prefix_kept<B>(n: nat, m: nat, f: spec_fn(int) -> Option<B>)
    requires
        m <= n,
        forall|k: int| 0 <= k < n ==> ((#[trigger] f(k)) is Some <==> k < m),
    ensures
        beat_indices(n).filter_map(f).len() == m,
        forall|k: int| 0 <= k < m ==> #[trigger] beat_indices(n).filter_map(f)[k] == f(k)->0,
    decreases n,
{
    if n == m {
        lemma_all_kept(n, f);
    } else {
        lemma_prefix_kept((n - 1) as nat, m, f);
        assert(beat_indices(n).drop_last() == beat_indices((n - 1) as nat));
        assert(beat_indices(n).last() == n - 1);
        assert(f(n - 1) is None);
    }
}

/// A beat is the longest whole number of nanoseconds that `bpm` of fit in
/// a minute.
pub proof fn lemma_beat_fills_a_minute(bpm: u32)
    requires
        bpm > 0,
    ensures
        beat_ns(bpm) * bpm <= NANOS_PER_MINUTE < (beat_ns(bpm) + 1) * bpm,
        beat_ns(bpm) >= 13,
{
    vstd::arithmetic::div_mod::lemma_fundamental_div_mod(NANOS_PER_MINUTE as int, bpm as int);
    let q = (NANOS_PER_MINUTE as int) / (bpm as int);
    let r = (NANOS_PER_MINUTE as int) % (bpm as int);
    assert(q * bpm <= NANOS_PER_MINUTE < (q + 1) * bpm) by (nonlinear_arith)
        requires
            NANOS_PER_MINUTE == bpm * q + r,
            0 <= r < bpm,
    ;
    assert(q >= 13) by (nonlinear_arith)
        requires
            q == 60_000_000_000int / (bpm as int),
            0 < bpm <= 4_294_967_295u32,
    ;
}

} // verus!
