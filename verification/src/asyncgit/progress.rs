//! Progress in percent.
use vstd::prelude::*;

verus! {

/// Progress in percent.
#[derive(Clone, Copy, Debug, PartialEq, Eq, Structural)]
pub struct ProgressPercent {
    /// from 0 to 100
    pub progress: u8,
}

/// The share of `current` in `total` in percent, to the nearest; all of it if
/// there is nothing, and never more than all.
pub open spec fn percent(current: int, total: int) -> int {
    let whole = if current > total {
        current
    } else {
        total
    };
    if whole <= 0 {
        100
    } else {
        (200 * current + whole) / (2 * whole)
    }
}

proof fn lemma_percent_bounds(current: int, whole: int)
    by (nonlinear_arith)
    requires
        0 <= current <= whole,
        0 < whole,
    ensures
        0 <= (200 * current + whole) / (2 * whole) <= 100,
{
}

impl ProgressPercent {
    /// The progress of `current` out of `total`.
    pub fn new(current: usize, total: usize) -> (r: ProgressPercent)
        ensures
            r.progress == percent(current as int, total as int),
            r.progress <= 100,
    {
        let whole: usize = if current > total {
            current
        } else {
            total
        };
        if whole == 0 {
            return ProgressPercent { progress: 100 };
        }
        proof {
            lemma_percent_bounds(current as int, whole as int);
        }
        let n: u128 = 200 * (current as u128) + whole as u128;
        let p: u128 = n / (2 * (whole as u128));
        ProgressPercent { progress: p as u8 }
    }

    /// No progress yet.
    pub fn empty() -> (r: ProgressPercent)
        ensures
            r.progress == 0,
    {
        ProgressPercent { progress: 0 }
    }

    /// All done.
    pub fn full() -> (r: ProgressPercent)
        ensures
            r.progress == 100,
    {
        ProgressPercent { progress: 100 }
    }
}

/// Take in progress. Tells whether it changed, so that only then anyone is told.
pub fn set_progress(progress: &mut ProgressPercent, p: ProgressPercent) -> (changed: bool)
    ensures
        *final(progress) == p,
        changed == (*old(progress) != p),
{
    if *progress == p {
        false
    } else {
        *progress = p;
        true
    }
}

/// More done is never shown as less.
pub proof fn lemma_progress_is_monotone(a: int, b: int, total: int)
    requires
        0 <= a <= b <= total,
        0 < total,
    ensures
        percent(a, total) <= percent(b, total),
{
    assert((200 * a + total) / (2 * total) <= (200 * b + total) / (2 * total)) by (nonlinear_arith)
        requires
            0 <= a <= b,
            0 < total,
    ;
}

/// Nothing done is nothing, all done is a hundred, and in between the share is
/// rounded to the nearest number; no share is more than a hundred.
pub proof fn lemma_shares(current: int, total: int)
    requires
        0 <= current <= total,
        0 < total,
    ensures
        percent(0, total) == 0,
        percent(total, total) == 100,
        0 <= percent(current, total) <= 100,
        -total <= 2 * (percent(current, total) * total - 100 * current) <= total,
{
    let p = percent(current, total);
    assert(-total <= 2 * (p * total - 100 * current) <= total && 0 <= p <= 100)
        by (nonlinear_arith)
        requires
            p == (200 * current + total) / (2 * total),
            0 <= current <= total,
            0 < total,
    ;
    assert((200 * 0 + total) / (2 * total) == 0) by (nonlinear_arith)
        requires
            0 < total,
    ;
    assert((200 * total + total) / (2 * total) == 100) by (nonlinear_arith)
        requires
            0 < total,
    ;
}

/// Where there is nothing to do, all is done; and more than all counts as all.
pub proof fn lemma_shares_beyond_the_whole(current: int)
    requires
        0 < current,
    ensures
        percent(0, 0) == 100,
        percent(current, 0) == 100,
{
    assert((200 * current + current) / (2 * current) == 100) by (nonlinear_arith)
        requires
            0 < current,
    ;
}

} // verus!
