//! Normalized answer sets.
//!
//! An answer is the set of option indices a test-taker selected for one
//! question. The indices are stored de-duplicated and in ascending order,
//! so that two answers naming the same options compare equal.

use vstd::prelude::*;

verus! {

/// A sequence of indices is strictly ascending (hence duplicate-free).
pub open spec fn strictly_sorted(s: Seq<usize>) -> bool {
    forall|i: int, j: int| 0 <= i < j < s.len() ==> s[i] < s[j]
}

/// The option indices selected for one question, de-duplicated and in
/// ascending order.
#[derive(Debug, PartialEq, Eq)]
pub struct Answer {
    answers: Vec<usize>,
}

impl View for Answer {
    type V = Seq<usize>;

    closed spec fn view(&self) -> Seq<usize> {
        self.answers@
    }
}

impl Answer {
    /// The stored indices are strictly ascending.
    pub open spec fn wf(&self) -> bool {
        strictly_sorted(self@)
    }

    /// Normalizes a selection: the result holds exactly the indices of the
    /// input, each once, in ascending order.
    pub fn new(answer: Vec<usize>) -> (r: Answer)
        ensures
            r.wf(),
            forall|y: usize| r@.contains(y) <==> answer@.contains(y),
    {
        let mut v: Vec<usize> = Vec::new();
        let mut i: usize = 0;
        while i < answer.len()
            invariant
                i <= answer@.len(),
                strictly_sorted(v@),
                forall|y: usize| v@.contains(y) <==> answer@.take(i as int).contains(y),
            decreases answer@.len() - i,
        {
            let ghost prev = v@;
            insert_unique_sorted(&mut v, answer[i]);
            proof {
                let t0 = answer@.take(i as int);
                let t1 = answer@.take(i + 1);
                assert(t1.drop_last() =~= t0);
                assert forall|y: usize| t1.contains(y) implies v@.contains(y) by {
                    let w = choose|w: int| 0 <= w < t1.len() && t1[w] == y;
                    if w < t0.len() {
                        assert(t0.contains(y));
                    } else {
                        assert(y == answer@[i as int]);
                    }
                }
                assert forall|y: usize| v@.contains(y) implies t1.contains(y) by {
                    if y == answer@[i as int] {
                        assert(t1[i as int] == y);
                    } else {
                        assert(prev.contains(y));
                        assert(t0.contains(y));
                        let w = choose|w: int| 0 <= w < t0.len() && t0[w] == y;
                        assert(t1[w] == y);
                    }
                }
            }
            i = i + 1;
        }
        proof {
            assert(answer@.take(answer@.len() as int) =~= answer@);
        }
        Answer { answers: v }
    }

    /// Adds one more selected index, keeping the normalized order.
    pub fn push(&mut self, answer: usize)
        requires
            old(self).wf(),
        ensures
            final(self).wf(),
            forall|y: usize| final(self)@.contains(y) <==> old(self)@.contains(y) || y == answer,
    {
        insert_unique_sorted(&mut self.answers, answer);
    }

    /// The selected indices, in ascending order.
    pub fn as_array(&self) -> (r: Vec<usize>)
        ensures
            r@ == self@,
    {
        let mut r: Vec<usize> = Vec::new();
        let mut i: usize = 0;
        while i < self.answers.len()
            invariant
                i <= self@.len(),
                r@ == self@.take(i as int),
            decreases self@.len() - i,
        {
            r.push(self.answers[i]);
            proof {
                assert(self@.take(i + 1).drop_last() =~= self@.take(i as int));
                assert(r@ =~= self@.take(i + 1));
            }
            i = i + 1;
        }
        proof {
            assert(self@.take(self@.len() as int) =~= self@);
        }
        r
    }

    /// An exact copy, with a contract (a derived `Clone` would say nothing).
    pub fn duplicate(&self) -> (r: Answer)
        ensures
            r@ == self@,
    {
        Answer { answers: self.as_array() }
    }

    pub fn len(&self) -> (r: usize)
        ensures
            r == self@.len(),
    {
        self.answers.len()
    }

    pub fn get(&self, i: usize) -> (r: usize)
        requires
            i < self@.len(),
        ensures
            r == self@[i as int],
    {
        self.answers[i]
    }

    /// Whether the given option index was selected.
    pub fn contains(&self, x: usize) -> (r: bool)
        ensures
            r == self@.contains(x),
    {
        let mut i: usize = 0;
        while i < self.answers.len()
            invariant
                i <= self@.len(),
                forall|j: int| 0 <= j < i ==> self@[j] != x,
            decreases self@.len() - i,
        {
            if self.answers[i] == x {
                return true;
            }
            i = i + 1;
        }
        false
    }
}

/// Normalization is canonical: two normalized answers that name the same
/// option indices are the same sequence. So two answers built from any
/// orderings or duplications of the same selection compare equal.
pub proof fn lemma_normalized_unique(a: Seq<usize>, b: Seq<usize>)
    requires
        strictly_sorted(a),
        strictly_sorted(b),
        forall|y: usize| a.contains(y) <==> b.contains(y),
    ensures
        a == b,
    decreases a.len(),
{
    if a.len() == 0 {
        if b.len() > 0 {
            assert(b.contains(b[0]));
            assert(a.contains(b[0]));
        }
        assert(a =~= b);
    } else {
        assert(a.contains(a[0]));
        assert(b.contains(a[0]));
        let i = choose|i: int| 0 <= i < b.len() && b[i] == a[0];
        if i > 0 {
            assert(b[0] < b[i]);
            assert(b.contains(b[0]));
            assert(a.contains(b[0]));
            let j = choose|j: int| 0 <= j < a.len() && a[j] == b[0];
            if j > 0 {
                assert(a[0] < a[j]);
            }
        }
        assert(b[0] == a[0]);
        let at = a.drop_first();
        let bt = b.drop_first();
        assert forall|y: usize| at.contains(y) implies bt.contains(y) by {
            let k = choose|k: int| 0 <= k < at.len() && at[k] == y;
            assert(a[k + 1] == y);
            assert(a[0] < y);
            assert(b.contains(y));
            let l = choose|l: int| 0 <= l < b.len() && b[l] == y;
            assert(l > 0);
            assert(bt[l - 1] == y);
        }
        assert forall|y: usize| bt.contains(y) implies at.contains(y) by {
            let k = choose|k: int| 0 <= k < bt.len() && bt[k] == y;
            assert(b[k + 1] == y);
            assert(b[0] < y);
            assert(a.contains(y));
            let l = choose|l: int| 0 <= l < a.len() && a[l] == y;
            assert(l > 0);
            assert(at[l - 1] == y);
        }
        assert(strictly_sorted(at)) by {
            assert(forall|p: int, q: int|
                0 <= p < q < at.len() ==> at[p] == a[p + 1] && at[q] == a[q + 1]);
        }
        assert(strictly_sorted(bt)) by {
            assert(forall|p: int, q: int|
                0 <= p < q < bt.len() ==> bt[p] == b[p + 1] && bt[q] == b[q + 1]);
        }
        lemma_normalized_unique(at, bt);
        assert(a.len() == b.len());
        assert forall|k: int| 0 <= k < a.len() implies a[k] == b[k] by {
            if k > 0 {
                assert(at[k - 1] == bt[k - 1]);
                assert(a[k] == at[k - 1]);
                assert(b[k] == bt[k - 1]);
            }
        }
        assert(a =~= b);
    }
}

/// Inserts `x` into a strictly sorted vector, keeping it strictly sorted;
/// a duplicate is dropped.
fn insert_unique_sorted(v: &mut Vec<usize>, x: usize)
    requires
        strictly_sorted(old(v)@),
    ensures
        strictly_sorted(final(v)@),
        forall|y: usize| final(v)@.contains(y) <==> old(v)@.contains(y) || y == x,
{
    let mut i: usize = 0;
    while i < v.len() && v[i] < x
        invariant
            i <= v@.len(),
            strictly_sorted(v@),
            v@ == old(v)@,
            forall|j: int| 0 <= j < i ==> v@[j] < x,
        decreases v@.len() - i,
    {
        i = i + 1;
    }
    if i < v.len() && v[i] == x {
        proof {
            assert(v@.contains(x));
        }
        return ;
    }
    let ghost prev = v@;
    v.insert(i, x);
    proof {
        let n = v@;
        assert(forall|j: int| 0 <= j < i ==> n[j] == prev[j]);
        assert(n[i as int] == x);
        assert(forall|j: int| i < j < n.len() ==> n[j] == prev[j - 1]);
        assert(forall|j: int| i as int <= j < prev.len() ==> prev[j] >= x && prev[j] != x);
        assert forall|p: int, q: int| 0 <= p < q < n.len() implies n[p] < n[q] by {
            if p < i && q < i {
            } else if p < i && q == i {
            } else if p < i && q > i {
                assert(prev[q - 1] >= x && prev[q - 1] != x);
            } else if p == i {
                assert(prev[q - 1] >= x && prev[q - 1] != x);
            } else {
            }
        }
        assert forall|y: usize| n.contains(y) implies prev.contains(y) || y == x by {
            let w = choose|w: int| 0 <= w < n.len() && n[w] == y;
            if w < i {
                assert(prev[w] == y);
            } else if w > i {
                assert(prev[w - 1] == y);
            }
        }
        assert forall|y: usize| prev.contains(y) || y == x implies n.contains(y) by {
            if y == x {
                assert(n[i as int] == y);
            } else {
                let w = choose|w: int| 0 <= w < prev.len() && prev[w] == y;
                if w < i {
                    assert(n[w] == y);
                } else {
                    assert(n[w + 1] == y);
                }
            }
        }
    }
}

} // verus!
