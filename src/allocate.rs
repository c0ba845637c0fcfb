//! Narrowing of column widths until they fit a total.

use vstd::prelude::*;
use crate::peaker::{Peaker, eligible};

verus! {

/// The sum of a sequence of widths.
pub open spec fn sum(s: Seq<usize>) -> int
    decreases s.len(),
{
    if s.len() == 0 {
        0
    } else {
        sum(s.drop_last()) + s.last()
    }
}

/// The widths after `steps` rounds of asking `p` for a column and narrowing
/// it by one; the rounds stop early when `p` finds no column to narrow.
pub open spec fn shrink<P: Peaker>(p: P, widths: Seq<usize>, mins: Seq<usize>, steps: nat) -> Seq<
    usize,
>
    decreases steps,
{
    if steps == 0 {
        widths
    } else {
        match p.pick(widths, mins) {
            Some(i) => shrink(
                p.advance(widths, mins),
                widths.update(i as int, (widths[i as int] - 1) as usize),
                mins,
                (steps - 1) as nat,
            ),
            None => widths,
        }
    }
}

/// The widths that narrowing `widths` towards a total of `target` under the
/// policy `p` ends with; nothing changes when they already fit.
pub open spec fn allocation<P: Peaker>(p: P, widths: Seq<usize>, mins: Seq<usize>, target: int) -> Seq<
    usize,
> {
    if target < sum(widths) {
        shrink(p, widths, mins, (sum(widths) - target) as nat)
    } else {
        widths
    }
}

proof fn lemma_sum_update(s: Seq<usize>, i: int, v: usize)
    requires
        0 <= i < s.len(),
    ensures
        sum(s.update(i, v)) == sum(s) - s[i] + v,
    decreases s.len(),
{
    let t = s.update(i, v);
    assert(t.drop_last() =~= if i == s.len() - 1 {
        s.drop_last()
    } else {
        s.drop_last().update(i, v)
    });
    if i < s.len() - 1 {
        lemma_sum_update(s.drop_last(), i, v);
    }
}

proof fn lemma_sum_le(a: Seq<usize>, b: Seq<usize>)
    requires
        a.len() == b.len(),
        forall|i: int| 0 <= i < a.len() ==> a[i] <= b[i],
    ensures
        sum(a) <= sum(b),
    decreases a.len(),
{
    if a.len() > 0 {
        lemma_sum_le(a.drop_last(), b.drop_last());
    }
}

proof fn lemma_shrink<P: Peaker>(p: P, widths: Seq<usize>, mins: Seq<usize>, steps: nat)
    requires
        widths.len() == mins.len(),
        widths.len() <= usize::MAX,
        forall|i: int| 0 <= i < widths.len() ==> widths[i] >= mins[i],
    ensures
        shrink(p, widths, mins, steps).len() == widths.len(),
        forall|i: int|
            0 <= i < widths.len() ==> #[trigger] shrink(p, widths, mins, steps)[i] >= mins[i]
                && shrink(p, widths, mins, steps)[i] <= widths[i],
        sum(shrink(p, widths, mins, steps)) == if sum(widths) - steps >= sum(mins) {
            sum(widths) - steps
        } else {
            sum(mins)
        },
    decreases steps,
{
    lemma_sum_le(mins, widths);
    if steps > 0 {
        p.lemma_pick(widths, mins);
        match p.pick(widths, mins) {
            Some(i) => {
                let w2 = widths.update(i as int, (widths[i as int] - 1) as usize);
                lemma_sum_update(widths, i as int, (widths[i as int] - 1) as usize);
                lemma_shrink(p.advance(widths, mins), w2, mins, (steps - 1) as nat);
            },
            None => {
                assert forall|i: int| 0 <= i < widths.len() implies widths[i] == mins[i] by {
                    assert(!eligible(widths, mins, i));
                }
                assert(widths =~= mins);
            },
        }
    }
}

/// After an allocation towards a total below the current one, the columns
/// add up to that total, or to the sum of the minimums when those alone
/// exceed it.
pub proof fn lemma_allocation_total<P: Peaker>(
    p: P,
    widths: Seq<usize>,
    mins: Seq<usize>,
    target: int,
)
    requires
        widths.len() == mins.len(),
        widths.len() <= usize::MAX,
        forall|i: int| 0 <= i < widths.len() ==> widths[i] >= mins[i],
        0 <= target < sum(widths),
    ensures
        sum(allocation(p, widths, mins, target)) == if target >= sum(mins) {
            target
        } else {
            sum(mins)
        },
{
    lemma_shrink(p, widths, mins, (sum(widths) - target) as nat);
}

/// An allocation never takes a column below its minimum, nor widens one.
pub proof fn lemma_allocation_floor<P: Peaker>(
    p: P,
    widths: Seq<usize>,
    mins: Seq<usize>,
    target: int,
)
    requires
        widths.len() == mins.len(),
        widths.len() <= usize::MAX,
        forall|i: int| 0 <= i < widths.len() ==> widths[i] >= mins[i],
    ensures
        allocation(p, widths, mins, target).len() == widths.len(),
        forall|i: int|
            0 <= i < widths.len() ==> mins[i] <= #[trigger] allocation(p, widths, mins, target)[i]
                <= widths[i],
{
    if target < sum(widths) {
        lemma_shrink(p, widths, mins, (sum(widths) - target) as nat);
    }
}

/// Narrows `widths`, one unit at a time in the order `peaker` chooses, until
/// they add up to `width` or every column is at its minimum.
pub fn decrease_widths<P: Peaker>(
    widths: &mut Vec<usize>,
    min_widths: &Vec<usize>,
    total_width: usize,
    width: usize,
    peaker: P,
)
    requires
        old(widths)@.len() == min_widths@.len(),
        sum(old(widths)@) == total_width,
    ensures
        final(widths)@ == allocation(peaker, old(widths)@, min_widths@, width as int),
        final(widths)@.len() == old(widths)@.len(),
{
    let ghost w0 = widths@;
    let ghost p0 = peaker;
    let mut p = peaker;
    let mut total = total_width;
    let mut done = false;
    let n = widths.len();
    while !done && total > width
        invariant
            widths@.len() == min_widths@.len(),
            widths@.len() == n,
            sum(widths@) == total,
            total_width > width ==> total >= width,
            total_width > width ==> allocation(p0, w0, min_widths@, width as int) == if done {
                widths@
            } else {
                shrink(p, widths@, min_widths@, (total - width) as nat)
            },
            total_width <= width ==> widths@ == w0 && total == total_width && !done,
        decreases total, (if done {
            0int
        } else {
            1int
        }),
    {
        let ghost p_before = p;
        let ghost w_before = widths@;
        match p.peak(min_widths.as_slice(), widths.as_slice()) {
            Some(col) => {
                proof {
                    p_before.lemma_pick(w_before, min_widths@);
                    lemma_sum_update(w_before, col as int, (w_before[col as int] - 1) as usize);
                }
                let v = widths[col] - 1;
                widths.set(col, v);
                total -= 1;
            },
            None => {
                done = true;
            },
        }
    }
}

} // verus!
