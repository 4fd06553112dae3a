//! Iteration over the sites of a multi-dimensional grid, described by the
//! number of positions along each dimension.

use vstd::prelude::*;

verus! {

/// Counts through all index tuples of a grid, first dimension fastest.
#[derive(Debug)]
pub struct SiteIterator {
    pub current: Vec<usize>,
    pub max: Vec<usize>,
    pub _carry: usize,
}

/// The smallest position at or after `i` whose digit can still be bumped
/// without overflowing its dimension, or the length when every remaining
/// digit is at its last value.
pub open spec fn first_free(cur: Seq<usize>, max: Seq<usize>, i: int) -> int
    decreases cur.len() - i,
{
    if i < 0 || i >= cur.len() {
        cur.len() as int
    } else if cur[i] + 1 < max[i] {
        i
    } else {
        first_free(cur, max, i + 1)
    }
}

/// The digits after one odometer step: everything below the first free
/// position wraps to zero, the free position is bumped, the rest stays.
pub open spec fn stepped(cur: Seq<usize>, max: Seq<usize>) -> Seq<usize> {
    let j = first_free(cur, max, 0);
    cur.map(|k: int, v: usize| if k < j {
        0usize
    } else if k == j {
        (v + 1) as usize
    } else {
        v
    })
}

/// The first free position lies between the starting point and the length,
/// its digit can be bumped, and every digit before it is at its last value.
pub proof fn lemma_first_free_props(cur: Seq<usize>, max: Seq<usize>, i: int)
    requires
        0 <= i <= cur.len(),
    ensures
        i <= first_free(cur, max, i) <= cur.len(),
        first_free(cur, max, i) < cur.len()
            ==> cur[first_free(cur, max, i)] + 1 < max[first_free(cur, max, i)],
        forall|j: int| i <= j < first_free(cur, max, i) ==> !(cur[j] + 1 < max[j]),
    decreases cur.len() - i,
{
    if i < cur.len() && !(cur[i] + 1 < max[i]) {
        lemma_first_free_props(cur, max, i + 1);
    }
}

impl SiteIterator {
    /// The digits stay paired with their dimensions and within them.
    pub open spec fn inv(&self) -> bool {
        &&& self.current.len() == self.max.len()
        &&& forall|k: int| 0 <= k < self.max@.len() && self.max@[k] > 0
            ==> self.current@[k] < self.max@[k]
    }

    /// Whether some dimension is empty, which makes the whole grid empty.
    pub open spec fn has_empty_dimension(&self) -> bool {
        exists|k: int| 0 <= k < self.max@.len() && self.max@[k] == 0
    }

    /// A fresh counter over the grid with the given dimensions, starting at
    /// the all-zero tuple.
    pub fn new(max: Vec<usize>) -> (r: SiteIterator)
        ensures
            r.max@ == max@,
            r.current@ == Seq::new(max@.len(), |k: int| 0usize),
            r._carry == 0,
    {
        let n = max.len();
        let mut current: Vec<usize> = Vec::new();
        for i in 0..n
            invariant
                current@ == Seq::new(i as nat, |k: int| 0usize),
        {
            current.push(0);
            proof {
                assert(current@ =~= Seq::new(i as nat + 1, |k: int| 0usize));
            }
        }
        SiteIterator { current, max, _carry: 0 }
    }

    /// The current index tuple, stepping the counter forward; nothing once
    /// the grid is exhausted, empty, or zero-dimensional.
    pub fn next(&mut self) -> (r: Option<Vec<usize>>)
        requires
            old(self).inv(),
        ensures
            final(self).inv(),
            final(self).max@ == old(self).max@,
            r is Some <==> (old(self)._carry == 0 && old(self).current.len() > 0
                && !old(self).has_empty_dimension()),
            r is Some ==> {
                &&& r.unwrap()@ == old(self).current@
                &&& final(self).current@ == stepped(old(self).current@, old(self).max@)
                &&& final(self)._carry == if first_free(
                    old(self).current@, old(self).max@, 0)
                    < old(self).current@.len() as int { 0int } else { 1int }
            },
            r is None ==> *final(self) == *old(self),
    {
        if self._carry > 0 || self.current.len() == 0 {
            return None;
        }
        let n = self.max.len();
        let mut k: usize = 0;
        while k < n
            invariant
                *self == *old(self),
                old(self).inv(),
                old(self)._carry == 0,
                n == self.max.len(),
                0 <= k <= n,
                forall|j: int| 0 <= j < k ==> self.max@[j] > 0,
            decreases n - k,
        {
            if self.max[k] == 0 {
                return None;
            }
            k = k + 1;
        }

        let old_current = self.current.clone();
        let mut i: usize = 0;
        let mut carried: bool = true;
        while i < n
            invariant
                old(self).inv(),
                !old(self).has_empty_dimension(),
                old(self).current.len() == n == old(self).max.len(),
                self.max@ == old(self).max@,
                self.current.len() == n,
                0 <= i <= n,
                carried ==> first_free(old(self).current@, old(self).max@, 0)
                    == first_free(old(self).current@, old(self).max@, i as int),
                !carried ==> first_free(old(self).current@, old(self).max@, 0) < i,
                forall|j: int| 0 <= j < self.current@.len() ==> self.current@[j]
                    == stepped(old(self).current@, old(self).max@)[j]
                    || (i as int <= j && self.current@[j] == old(self).current@[j]),
                forall|j: int| i as int <= j < n ==> self.current@[j]
                    == old(self).current@[j],
            decreases n - i,
        {
            proof {
                assert(old(self).max@[i as int] > 0);
                lemma_first_free_props(old(self).current@, old(self).max@, i as int);
                lemma_first_free_props(old(self).current@, old(self).max@, i + 1 as int);
                lemma_first_free_props(old(self).current@, old(self).max@, 0);
            }
            if carried {
                let c = self.current[i];
                if c + 1 < self.max[i] {
                    self.current.set(i, c + 1);
                    carried = false;
                } else {
                    self.current.set(i, 0);
                }
            }
            i = i + 1;
        }
        self._carry = if carried {
            1
        } else {
            0
        };
        proof {
            lemma_first_free_props(old(self).current@, old(self).max@, 0);
            assert(self.current@ =~= stepped(old(self).current@, old(self).max@));
            assert forall|k: int| 0 <= k < self.max@.len() && self.max@[k] > 0
                implies self.current@[k] < self.max@[k] by {
                assert(old(self).max@[k] > 0);
            }
        }
        Some(old_current)
    }
}

} // verus!
