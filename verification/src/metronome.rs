//! Metronome bookkeeping: where each click falls in the audio stream's
//! frames, and which clicks start at a given frame. The audio stream and
//! the synthesis of the click sound run in the application.

use vstd::prelude::*;

use std::sync::atomic::{AtomicU64, Ordering};
use std::sync::Arc;

use crate::schedule::ClickEvent;

verus! {

/// Shared, lock-free handle to the audio backend's most recently reported
/// output latency (nanoseconds between the data callback being invoked and
/// the samples it wrote reaching the speakers). The audio thread keeps
/// setting it while the stream runs; the display reads it. It is a
/// fallback estimate: the offset that compensates taps comes from
/// calibration.
#[derive(Clone)]
pub struct LatencyEstimate(Arc<AtomicU64>);

impl LatencyEstimate {
    /// An estimate that reads 0 until the audio thread reports a latency.
    pub fn new() -> Self {
        LatencyEstimate(Arc::new(AtomicU64::new(0)))
    }

    /// Publishes a newly reported latency (nanoseconds).
    pub fn set(&self, latency_ns: u64) {
        self.0.store(latency_ns, Ordering::Relaxed);
    }

    /// The latest latency published by any clone of this handle
    /// (nanoseconds), or 0 if none was published yet. Another thread may
    /// publish at any moment, so nothing is promised of the value read.
    pub fn get(&self) -> u64 {
        self.0.load(Ordering::Relaxed)
    }
}

/// Nanoseconds in one second.
pub const NANOS_PER_SECOND: u64 = 1_000_000_000;

/// Number of audio frames (at `sample_rate` frames per second) in `at`
/// nanoseconds, rounded down and capped at `u64::MAX`.
pub open spec fn frames_in(at: u64, sample_rate: u32) -> int {
    let exact = (at * sample_rate) / (NANOS_PER_SECOND as int);
    if exact <= u64::MAX {
        exact
    } else {
        u64::MAX as int
    }
}

/// The audio frame at which a point `at` nanoseconds into the stream falls.
pub fn duration_to_frames(at: u64, sample_rate: u32) -> (frames: u64)
    ensures
        frames == frames_in(at, sample_rate),
{
    assert(at as u128 * sample_rate as u128 <= 0x1_0000_0000_0000_0000u128 * 0x1_0000_0000u128)
        by (nonlinear_arith)
        requires
            at <= u64::MAX,
            sample_rate <= u32::MAX,
    ;
    let exact = at as u128 * sample_rate as u128 / NANOS_PER_SECOND as u128;
    if exact <= u64::MAX as u128 {
        exact as u64
    } else {
        u64::MAX
    }
}

pub open spec fn is_sorted(s: Seq<u64>) -> bool {
    forall|i: int, j: int| 0 <= i <= j < s.len() ==> s[i] <= s[j]
}

/// Inserting into a sequence adds one occurrence to its multiset.
proof fn lemma_insert_to_multiset<A>(s: Seq<A>, i: int, x: A)
    requires
        0 <= i <= s.len(),
    ensures
        s.insert(i, x).to_multiset() == s.to_multiset().insert(x),
{
    broadcast use vstd::seq_lib::group_to_multiset_ensures;

    let t = s.insert(i, x);
    assert(t.remove(i) == s);
    assert(t.to_multiset().remove(x) == s.to_multiset());
    assert(t.contains(x)) by {
        assert(t[i] == x);
    }
}

/// `v` in ascending order.
fn sort_frames(v: Vec<u64>) -> (sorted: Vec<u64>)
    ensures
        is_sorted(sorted@),
        sorted@.to_multiset() == v@.to_multiset(),
{
    let mut sorted: Vec<u64> = Vec::new();
    let mut i: usize = 0;
    assert(v@.take(0) == sorted@);
    while i < v.len()
        invariant
            i <= v@.len(),
            is_sorted(sorted@),
            sorted@.to_multiset() == v@.take(i as int).to_multiset(),
        decreases v@.len() - i,
    {
        let x = v[i];
        let mut pos: usize = sorted.len();
        while pos > 0 && sorted[pos - 1] > x
            invariant
                pos <= sorted@.len(),
                forall|j: int| pos <= j < sorted@.len() ==> sorted@[j] > x,
            decreases pos,
        {
            pos = pos - 1;
        }
        let ghost before = sorted@;
        sorted.insert(pos, x);
        assert forall|a: int, b: int| 0 <= a <= b < sorted@.len() implies sorted@[a] <= sorted@[b] by {
            if a < pos && b > pos {
                assert(sorted@[a] == before[a]);
                assert(sorted@[b] == before[b - 1]);
            } else if a < pos && b == pos {
                assert(before[a] <= before[pos - 1]);
            }
        }
        proof {
            lemma_insert_to_multiset(before, pos as int, x);
            v@.take(i as int).to_multiset_ensures();
        }
        assert(v@.take(i + 1) == v@.take(i as int).push(x));
        i = i + 1;
    }
    assert(v@.take(v@.len() as int) == v@);
    sorted
}

/// The click start frames of a stream, in order, and how many of them
/// have already started.
pub struct ClickTrigger {
    frames: Vec<u64>,
    next: usize,
}

impl ClickTrigger {
    pub closed spec fn spec_frames(&self) -> Seq<u64> {
        self.frames@
    }

    pub closed spec fn spec_next(&self) -> int {
        self.next as int
    }

    pub closed spec fn wf(&self) -> bool {
        &&& is_sorted(self.frames@)
        &&& self.next <= self.frames@.len()
    }

    /// The start frames of `clicks` at `sample_rate`, sorted; none started.
    pub fn new(clicks: &[ClickEvent], sample_rate: u32) -> (trigger: Self)
        ensures
            trigger.wf(),
            trigger.spec_next() == 0,
            trigger.spec_frames().to_multiset() == clicks@.map_values(
                |c: ClickEvent| frames_in(c.at, sample_rate) as u64,
            ).to_multiset(),
    {
        let mut frames: Vec<u64> = Vec::new();
        let mut i: usize = 0;
        while i < clicks.len()
            invariant
                i <= clicks@.len(),
                frames@ == clicks@.take(i as int).map_values(
                    |c: ClickEvent| frames_in(c.at, sample_rate) as u64,
                ),
            decreases clicks@.len() - i,
        {
            frames.push(duration_to_frames(clicks[i].at, sample_rate));
            assert(clicks@.take(i + 1) == clicks@.take(i as int).push(clicks@[i as int]));
            i = i + 1;
        }
        assert(clicks@.take(clicks@.len() as int) == clicks@);
        ClickTrigger { frames: sort_frames(frames), next: 0 }
    }

    /// Number of clicks that start at `frame`: every not yet started click
    /// whose start frame is at or before `frame` starts now.
    pub fn due(&mut self, frame: u64) -> (started: usize)
        requires
            old(self).wf(),
        ensures
            final(self).wf(),
            final(self).spec_frames() == old(self).spec_frames(),
            final(self).spec_next() == old(self).spec_next() + started,
            forall|j: int|
                old(self).spec_next() <= j < final(self).spec_next() ==> #[trigger] old(
                    self,
                ).spec_frames()[j] <= frame,
            final(self).spec_next() == old(self).spec_frames().len() || old(
                self,
            ).spec_frames()[final(self).spec_next()] > frame,
    {
        let start = self.next;
        while self.next < self.frames.len() && self.frames[self.next] <= frame
            invariant
                is_sorted(self.frames@),
                self.frames@ == old(self).frames@,
                start == old(self).next,
                start <= self.next <= self.frames@.len(),
                forall|j: int| start <= j < self.next ==> #[trigger] self.frames@[j] <= frame,
            decreases self.frames@.len() - self.next,
        {
            self.next = self.next + 1;
        }
        self.next - start
    }
}

} // verus!
