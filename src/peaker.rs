//! Policies that choose which column to narrow next.

use vstd::prelude::*;

verus! {

/// Whether column `i` is still wider than its minimum.
pub open spec fn eligible(widths: Seq<usize>, mins: Seq<usize>, i: int) -> bool {
    0 <= i < widths.len() && i < mins.len() && widths[i] > mins[i]
}

/// A policy that picks the next column to narrow by one unit.
///
/// `pick` is the column it returns for the given widths and minimums, and
/// `advance` the state it moves to when asked; each picked column is still
/// above its minimum, and `None` comes only when no column is.
pub trait Peaker: Sized {
    spec fn initial() -> Self;

    spec fn pick(&self, widths: Seq<usize>, mins: Seq<usize>) -> Option<usize>;

    spec fn advance(&self, widths: Seq<usize>, mins: Seq<usize>) -> Self;

    fn create() -> (r: Self)
        ensures
            r == Self::initial(),
    ;

    fn peak(&mut self, min_widths: &[usize], widths: &[usize]) -> (r: Option<usize>)
        requires
            min_widths@.len() == widths@.len(),
        ensures
            r == old(self).pick(widths@, min_widths@),
            *final(self) == old(self).advance(widths@, min_widths@),
    ;

    proof fn lemma_pick(&self, widths: Seq<usize>, mins: Seq<usize>)
        requires
            widths.len() == mins.len(),
            widths.len() <= usize::MAX,
        ensures
            match self.pick(widths, mins) {
                Some(i) => eligible(widths, mins, i as int),
                None => forall|i: int| 0 <= i < widths.len() ==> !eligible(widths, mins, i),
            },
    ;
}

/// The index visited `k` steps after `start` when going round `n` columns.
pub open spec fn cyclic_index(start: nat, k: nat, n: nat) -> nat {
    if start + k < n {
        start + k
    } else {
        (start + k - n) as nat
    }
}

/// The first eligible column met going round from `start`, skipping the
/// first `k` steps.
pub open spec fn cyclic_pick(widths: Seq<usize>, mins: Seq<usize>, start: nat, k: nat) -> Option<
    usize,
>
    decreases widths.len() - k,
{
    if k >= widths.len() {
        None
    } else {
        let j = cyclic_index(start, k, widths.len());
        if eligible(widths, mins, j as int) {
            Some(j as usize)
        } else {
            cyclic_pick(widths, mins, start, k + 1)
        }
    }
}

proof fn lemma_cyclic_pick(widths: Seq<usize>, mins: Seq<usize>, start: nat, k: nat)
    requires
        widths.len() == mins.len(),
        widths.len() <= usize::MAX,
        start < widths.len(),
    ensures
        match cyclic_pick(widths, mins, start, k) {
            Some(i) => eligible(widths, mins, i as int),
            None => forall|k2: nat|
                k <= k2 < widths.len() ==> !eligible(
                    widths,
                    mins,
                    cyclic_index(start, k2, widths.len()) as int,
                ),
        },
    decreases widths.len() - k,
{
    if k < widths.len() {
        lemma_cyclic_pick(widths, mins, start, k + 1);
        let j = cyclic_index(start, k, widths.len());
        if cyclic_pick(widths, mins, start, k) is None {
            assert forall|k2: nat| k <= k2 < widths.len() implies !eligible(
                widths,
                mins,
                cyclic_index(start, k2, widths.len()) as int,
            ) by {
                if k2 > k {
                    assert(k + 1 <= k2);
                }
            }
        }
    }
}

/// Narrows the columns one after another, left to right, and starts over;
/// `i` is the column at which the next search begins.
pub struct PriorityNone {
    pub i: usize,
}

impl PriorityNone {
    /// The column at which the next search starts.
    pub open spec fn start_for(&self, n: nat) -> nat {
        if (self.i as nat) < n {
            self.i as nat
        } else {
            0
        }
    }
}

impl Peaker for PriorityNone {
    open spec fn initial() -> Self {
        PriorityNone { i: 0 }
    }

    open spec fn pick(&self, widths: Seq<usize>, mins: Seq<usize>) -> Option<usize> {
        cyclic_pick(widths, mins, self.start_for(widths.len()), 0)
    }

    open spec fn advance(&self, widths: Seq<usize>, mins: Seq<usize>) -> Self {
        match self.pick(widths, mins) {
            Some(j) => PriorityNone { i: if j + 1 < widths.len() { (j + 1) as usize } else { 0 } },
            None => *self,
        }
    }

    fn create() -> (r: Self) {
        PriorityNone { i: 0 }
    }

    fn peak(&mut self, min_widths: &[usize], widths: &[usize]) -> (r: Option<usize>) {
        let n = widths.len();
        if n == 0 {
            return None;
        }
        let start = if self.i < n {
            self.i
        } else {
            0
        };
        let mut k: usize = 0;
        while k < n
            invariant
                n == widths@.len(),
                n == min_widths@.len(),
                start < n,
                start == self.start_for(n as nat),
                *self == *old(self),
                k <= n,
                cyclic_pick(widths@, min_widths@, start as nat, 0) == cyclic_pick(
                    widths@,
                    min_widths@,
                    start as nat,
                    k as nat,
                ),
            decreases n - k,
        {
            let j = if k < n - start {
                start + k
            } else {
                k - (n - start)
            };
            if widths[j] > min_widths[j] {
                self.i = if j + 1 < n {
                    j + 1
                } else {
                    0
                };
                return Some(j);
            }
            k += 1;
        }
        None
    }

    proof fn lemma_pick(&self, widths: Seq<usize>, mins: Seq<usize>) {
        let n = widths.len();
        if n > 0 {
            let start = self.start_for(n);
            lemma_cyclic_pick(widths, mins, start, 0);
            if self.pick(widths, mins) is None {
                assert forall|i: int| 0 <= i < n implies !eligible(widths, mins, i) by {
                    let k2: nat = if i >= start {
                        (i - start) as nat
                    } else {
                        (i + n - start) as nat
                    };
                    assert(cyclic_index(start, k2, n) == i);
                }
            }
        }
    }
}

/// The widest eligible column among the first `n`, the leftmost on a tie.
pub open spec fn max_pick(widths: Seq<usize>, mins: Seq<usize>, n: nat) -> Option<usize>
    decreases n,
{
    if n == 0 {
        None
    } else {
        let best = max_pick(widths, mins, (n - 1) as nat);
        let j = n - 1;
        if eligible(widths, mins, j) && (match best {
            Some(b) => widths[j] > widths[b as int],
            None => true,
        }) {
            Some(j as usize)
        } else {
            best
        }
    }
}

/// The narrowest eligible column among the first `n`, the leftmost on a tie.
pub open spec fn min_pick(widths: Seq<usize>, mins: Seq<usize>, n: nat) -> Option<usize>
    decreases n,
{
    if n == 0 {
        None
    } else {
        let best = min_pick(widths, mins, (n - 1) as nat);
        let j = n - 1;
        if eligible(widths, mins, j) && (match best {
            Some(b) => widths[j] < widths[b as int],
            None => true,
        }) {
            Some(j as usize)
        } else {
            best
        }
    }
}

/// `max_pick` returns the widest eligible column, the leftmost of equals, and
/// `None` only when no column is eligible.
pub proof fn lemma_max_pick(widths: Seq<usize>, mins: Seq<usize>, n: nat)
    requires
        n <= widths.len(),
        widths.len() == mins.len(),
        widths.len() <= usize::MAX,
    ensures
        match max_pick(widths, mins, n) {
            Some(i) => i < n && eligible(widths, mins, i as int) && forall|j: int|
                0 <= j < n && eligible(widths, mins, j) ==> widths[j] < widths[i as int] || (
                widths[j] == widths[i as int] && i <= j),
            None => forall|j: int| 0 <= j < n ==> !eligible(widths, mins, j),
        },
    decreases n,
{
    if n > 0 {
        let m = (n - 1) as nat;
        lemma_max_pick(widths, mins, m);
        let best = max_pick(widths, mins, m);
        let r = max_pick(widths, mins, n);
        if let Some(i) = r {
            assert forall|j: int| 0 <= j < n && eligible(widths, mins, j) implies widths[j] < widths[i as int] || (
                widths[j] == widths[i as int] && i <= j) by {
                if j < m {
                } else {
                    assert(j == m);
                }
            }
        } else {
            assert forall|j: int| 0 <= j < n implies !eligible(widths, mins, j) by {
                if j < m {
                } else {
                    assert(j == m);
                }
            }
        }
    }
}

/// `min_pick` returns the narrowest eligible column, the leftmost of equals,
/// and `None` only when no column is eligible.
pub proof fn lemma_min_pick(widths: Seq<usize>, mins: Seq<usize>, n: nat)
    requires
        n <= widths.len(),
        widths.len() == mins.len(),
        widths.len() <= usize::MAX,
    ensures
        match min_pick(widths, mins, n) {
            Some(i) => i < n && eligible(widths, mins, i as int) && forall|j: int|
                0 <= j < n && eligible(widths, mins, j) ==> widths[j] > widths[i as int] || (
                widths[j] == widths[i as int] && i <= j),
            None => forall|j: int| 0 <= j < n ==> !eligible(widths, mins, j),
        },
    decreases n,
{
    if n > 0 {
        let m = (n - 1) as nat;
        lemma_min_pick(widths, mins, m);
        let best = min_pick(widths, mins, m);
        let r = min_pick(widths, mins, n);
        if let Some(i) = r {
            assert forall|j: int| 0 <= j < n && eligible(widths, mins, j) implies widths[j] > widths[i as int] || (
                widths[j] == widths[i as int] && i <= j) by {
                if j < m {
                } else {
                    assert(j == m);
                }
            }
        } else {
            assert forall|j: int| 0 <= j < n implies !eligible(widths, mins, j) by {
                if j < m {
                } else {
                    assert(j == m);
                }
            }
        }
    }
}

/// Narrows the widest column that can still shrink first, the leftmost of
/// equals.
pub struct PriorityMax;

impl Peaker for PriorityMax {
    open spec fn initial() -> Self {
        PriorityMax
    }

    open spec fn pick(&self, widths: Seq<usize>, mins: Seq<usize>) -> Option<usize> {
        max_pick(widths, mins, widths.len())
    }

    open spec fn advance(&self, widths: Seq<usize>, mins: Seq<usize>) -> Self {
        *self
    }

    fn create() -> (r: Self) {
        PriorityMax
    }

    fn peak(&mut self, min_widths: &[usize], widths: &[usize]) -> (r: Option<usize>) {
        let n = widths.len();
        let mut best: Option<usize> = None;
        let mut j: usize = 0;
        while j < n
            invariant
                n == widths@.len(),
                n == min_widths@.len(),
                j <= n,
                best == max_pick(widths@, min_widths@, j as nat),
                forall|b: usize| best == Some(b) ==> b < j,
            decreases n - j,
        {
            if widths[j] > min_widths[j] {
                let better = match best {
                    Some(b) => widths[j] > widths[b],
                    None => true,
                };
                if better {
                    best = Some(j);
                }
            }
            j += 1;
        }
        best
    }

    proof fn lemma_pick(&self, widths: Seq<usize>, mins: Seq<usize>) {
        lemma_max_pick(widths, mins, widths.len());
    }
}

/// Narrows the narrowest column that can still shrink first, the leftmost of
/// equals.
pub struct PriorityMin;

impl Peaker for PriorityMin {
    open spec fn initial() -> Self {
        PriorityMin
    }

    open spec fn pick(&self, widths: Seq<usize>, mins: Seq<usize>) -> Option<usize> {
        min_pick(widths, mins, widths.len())
    }

    open spec fn advance(&self, widths: Seq<usize>, mins: Seq<usize>) -> Self {
        *self
    }

    fn create() -> (r: Self) {
        PriorityMin
    }

    fn peak(&mut self, min_widths: &[usize], widths: &[usize]) -> (r: Option<usize>) {
        let n = widths.len();
        let mut best: Option<usize> = None;
        let mut j: usize = 0;
        while j < n
            invariant
                n == widths@.len(),
                n == min_widths@.len(),
                j <= n,
                best == min_pick(widths@, min_widths@, j as nat),
                forall|b: usize| best == Some(b) ==> b < j,
            decreases n - j,
        {
            if widths[j] > min_widths[j] {
                let better = match best {
                    Some(b) => widths[j] < widths[b],
                    None => true,
                };
                if better {
                    best = Some(j);
                }
            }
            j += 1;
        }
        best
    }

    proof fn lemma_pick(&self, widths: Seq<usize>, mins: Seq<usize>) {
        lemma_min_pick(widths, mins, widths.len());
    }
}

} // verus!
