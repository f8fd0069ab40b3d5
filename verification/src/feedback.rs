//! Per-tap feedback kept for the live display: accuracy bands and the
//! recent-tap history with its running band counts. Colors and layout are
//! chosen in the application.

use vstd::prelude::*;

use crate::evaluator::TapResult;

verus! {

/// How many recent tap results stay visible in the history list.
pub const HISTORY_LEN: usize = 10;

/// Largest deviation (nanoseconds, either way) that counts as on time.
pub const ON_TIME_NS: i128 = 15_000_000;

/// Largest deviation (nanoseconds, either way) that counts as close.
pub const CLOSE_NS: i128 = 40_000_000;

/// Accuracy band of a tap: on time (within 15 ms), close (within 40 ms) or
/// off.
#[derive(Debug, Clone, Copy, PartialEq, Eq, Structural)]
pub enum AccuracyBand {
    OnTime,
    Close,
    Off,
}

pub open spec fn abs(x: int) -> int {
    if x < 0 {
        -x
    } else {
        x
    }
}

/// The band of a deviation (nanoseconds).
pub open spec fn band_of(deviation_ns: i128) -> AccuracyBand {
    if abs(deviation_ns as int) <= ON_TIME_NS {
        AccuracyBand::OnTime
    } else if abs(deviation_ns as int) <= CLOSE_NS {
        AccuracyBand::Close
    } else {
        AccuracyBand::Off
    }
}

/// The accuracy band of a deviation (nanoseconds).
pub fn accuracy_band(deviation_ns: i128) -> (band: AccuracyBand)
    ensures
        band == band_of(deviation_ns),
{
    if -ON_TIME_NS <= deviation_ns && deviation_ns <= ON_TIME_NS {
        AccuracyBand::OnTime
    } else if -CLOSE_NS <= deviation_ns && deviation_ns <= CLOSE_NS {
        AccuracyBand::Close
    } else {
        AccuracyBand::Off
    }
}

/// `n + 1`, saturating at `usize::MAX`.
pub open spec fn bump(n: usize) -> usize {
    if n < usize::MAX {
        (n + 1) as usize
    } else {
        n
    }
}

/// The recent list after `result` joins it: appended at the end, and the
/// oldest dropped once more than [`HISTORY_LEN`] would be kept.
pub open spec fn recent_after(recent: Seq<TapResult>, result: TapResult) -> Seq<TapResult> {
    if recent.len() + 1 > HISTORY_LEN {
        recent.push(result).drop_first()
    } else {
        recent.push(result)
    }
}

/// The recent list never grows past [`HISTORY_LEN`], always ends with the
/// newest result, and keeps the results before it in order.
pub proof fn lemma_history_stays_short(recent: Seq<TapResult>, result: TapResult)
    requires
        recent.len() <= HISTORY_LEN,
    ensures
        recent_after(recent, result).len() <= HISTORY_LEN,
        recent_after(recent, result).len() > 0,
        recent_after(recent, result).last() == result,
        recent_after(recent, result).drop_last() == if recent.len() == HISTORY_LEN {
            recent.drop_first()
        } else {
            recent
        },
{
    if recent.len() == HISTORY_LEN {
        assert(recent.push(result).drop_first().drop_last() == recent.drop_first());
    } else {
        assert(recent.push(result).drop_last() == recent);
    }
}

/// The band depends on how far off a tap is, not on which side: early and
/// late by the same amount land in the same band; within 15 ms is on time
/// and beyond 40 ms is off.
pub proof fn lemma_band_ignores_direction(deviation_ns: i128)
    requires
        deviation_ns > i128::MIN,
    ensures
        band_of(deviation_ns) == band_of((-deviation_ns) as i128),
        abs(deviation_ns as int) <= ON_TIME_NS ==> band_of(deviation_ns) == AccuracyBand::OnTime,
        abs(deviation_ns as int) > CLOSE_NS ==> band_of(deviation_ns) == AccuracyBand::Off,
{
}

/// The most recent tap results (oldest first, at most [`HISTORY_LEN`]) and
/// the number of scored taps in each accuracy band over the whole session.
#[derive(Debug, Clone)]
pub struct TapHistory {
    pub recent: Vec<TapResult>,
    pub on_time: usize,
    pub close: usize,
    pub off: usize,
}

impl TapHistory {
    /// An empty history.
    pub fn new() -> (history: Self)
        ensures
            history.recent@.len() == 0,
            history.on_time == 0,
            history.close == 0,
            history.off == 0,
    {
        TapHistory { recent: Vec::new(), on_time: 0, close: 0, off: 0 }
    }

    /// Adds a result: it joins the recent list (dropping the oldest once
    /// more than [`HISTORY_LEN`] are kept), and if it is scored, its band's
    /// count goes up by one.
    pub fn push_result(&mut self, result: TapResult)
        ensures
            final(self).recent@ == recent_after(old(self).recent@, result),
            final(self).on_time == if !result.expected.informational && band_of(result.deviation_ns)
                == AccuracyBand::OnTime {
                bump(old(self).on_time)
            } else {
                old(self).on_time
            },
            final(self).close == if !result.expected.informational && band_of(result.deviation_ns)
                == AccuracyBand::Close {
                bump(old(self).close)
            } else {
                old(self).close
            },
            final(self).off == if !result.expected.informational && band_of(result.deviation_ns)
                == AccuracyBand::Off {
                bump(old(self).off)
            } else {
                old(self).off
            },
    {
        if result.is_scored() {
            match accuracy_band(result.deviation_ns) {
                AccuracyBand::OnTime => {
                    if self.on_time < usize::MAX {
                        self.on_time = self.on_time + 1;
                    }
                },
                AccuracyBand::Close => {
                    if self.close < usize::MAX {
                        self.close = self.close + 1;
                    }
                },
                AccuracyBand::Off => {
                    if self.off < usize::MAX {
                        self.off = self.off + 1;
                    }
                },
            }
        }
        self.recent.push(result);
        if self.recent.len() > HISTORY_LEN {
            self.recent.remove(0);
            assert(self.recent@ == old(self).recent@.push(result).drop_first());
        }
    }
}

/// Widths (in columns) of the on-time, close and off segments of a bar
/// `width` columns wide that shows how the scored taps split into the three
/// bands: each of the first two is its share of the width, rounded down,
/// and the off segment takes what is left, so the bar is never short.
pub open spec fn distribution_of(on_time: int, close: int, off: int, width: int) -> (int, int, int) {
    let total = on_time + close + off;
    let on_time_w = (on_time * width) / total;
    let close_w = (close * width) / total;
    (on_time_w, close_w, width - on_time_w - close_w)
}

/// Two shares of a width, each rounded down, never add up to more than the
/// width.
proof fn lemma_shares_fit(a: int, b: int, total: int, width: int)
    requires
        total > 0,
        a >= 0,
        b >= 0,
        a + b <= total,
        width >= 0,
    ensures
        0 <= (a * width) / total,
        0 <= (b * width) / total,
        (a * width) / total + (b * width) / total <= width,
        a * width <= total * width,
        b * width <= total * width,
{
    assert(a * width <= total * width && b * width <= total * width && (a + b) * width <= total
        * width && 0 <= a * width && 0 <= b * width && a * width + b * width == (a + b) * width)
        by (nonlinear_arith)
        requires
            a >= 0,
            b >= 0,
            a + b <= total,
            width >= 0,
    ;
    vstd::arithmetic::div_mod::lemma_div_pos_is_pos(a * width, total);
    vstd::arithmetic::div_mod::lemma_div_pos_is_pos(b * width, total);
    assert((a * width) / total + (b * width) / total <= width) by (nonlinear_arith)
        requires
            total > 0,
            a * width >= 0,
            b * width >= 0,
            (a + b) * width <= total * width,
            a * width + b * width == (a + b) * width,
    {
        vstd::arithmetic::div_mod::lemma_fundamental_div_mod(a * width, total);
        vstd::arithmetic::div_mod::lemma_fundamental_div_mod(b * width, total);
    }
}

/// The segment widths of the accuracy distribution bar (see
/// [`distribution_of`]); there must be at least one scored tap.
pub fn distribution_widths(on_time: usize, close: usize, off: usize, width: usize) -> (widths: (
    usize,
    usize,
    usize,
))
    requires
        on_time + close + off > 0,
    ensures
        (widths.0 as int, widths.1 as int, widths.2 as int) == distribution_of(
            on_time as int,
            close as int,
            off as int,
            width as int,
        ),
{
    let total: u128 = on_time as u128 + close as u128 + off as u128;
    proof {
        lemma_shares_fit(on_time as int, close as int, total as int, width as int);
        assert(on_time * width <= 0xffff_ffff_ffff_ffffint * 0xffff_ffff_ffff_ffffint
            && close * width <= 0xffff_ffff_ffff_ffffint * 0xffff_ffff_ffff_ffffint)
            by (nonlinear_arith)
            requires
                0 <= on_time <= 0xffff_ffff_ffff_ffffint,
                0 <= close <= 0xffff_ffff_ffff_ffffint,
                0 <= width <= 0xffff_ffff_ffff_ffffint,
        ;
    }
    let on_time_w = on_time as u128 * width as u128 / total;
    let close_w = close as u128 * width as u128 / total;
    let on_time_w = on_time_w as usize;
    let close_w = close_w as usize;
    (on_time_w, close_w, width - on_time_w - close_w)
}

/// The three segments fill the bar exactly, and the on-time and close
/// segments are each their band's share of the width, rounded down.
pub proof fn lemma_distribution_fills_the_bar(on_time: int, close: int, off: int, width: int)
    requires
        on_time >= 0,
        close >= 0,
        off >= 0,
        width >= 0,
        on_time + close + off > 0,
    ensures
        ({
            let (a, b, c) = distribution_of(on_time, close, off, width);
            let total = on_time + close + off;
            &&& a + b + c == width
            &&& a >= 0 && b >= 0 && c >= 0
            &&& a * total <= on_time * width < (a + 1) * total
            &&& b * total <= close * width < (b + 1) * total
        }),
{
    let total = on_time + close + off;
    lemma_shares_fit(on_time, close, total, width);
    vstd::arithmetic::div_mod::lemma_fundamental_div_mod(on_time * width, total);
    vstd::arithmetic::div_mod::lemma_fundamental_div_mod(close * width, total);
    let a = (on_time * width) / total;
    let b = (close * width) / total;
    assert(a * total <= on_time * width < (a + 1) * total) by (nonlinear_arith)
        requires
            on_time * width == total * a + (on_time * width) % total,
            0 <= (on_time * width) % total < total,
    ;
    assert(b * total <= close * width < (b + 1) * total) by (nonlinear_arith)
        requires
            close * width == total * b + (close * width) % total,
            0 <= (close * width) % total < total,
    ;
}

} // verus!
