//! Questions and partial-credit scoring.

use vstd::prelude::*;

use crate::answer::Answer;
use crate::score::Score;

verus! {

/// One multiple-choice question: prompt text, ordered option texts, and the
/// normalized set of correct option indices.
#[derive(Debug, PartialEq, Eq)]
pub struct Question {
    pub question: String,
    pub answers: Vec<String>,
    pub correct_answer: Answer,
}

impl Question {
    /// A question can be scored: its correct set is normalized, non-empty,
    /// and names only existing options.
    pub open spec fn wf(&self) -> bool {
        &&& self.correct_answer.wf()
        &&& self.correct_answer@.len() >= 1
        &&& forall|i: int|
            0 <= i < self.correct_answer@.len() ==> self.correct_answer@[i]
                < self.answers@.len()
    }

    /// An exact copy, with a contract (a derived `Clone` would say nothing).
    pub fn duplicate(&self) -> (r: Question)
        ensures
            r.question@ == self.question@,
            r.answers@.len() == self.answers@.len(),
            forall|i: int| 0 <= i < self.answers@.len() ==> r.answers@[i]@ == self.answers@[i]@,
            r.answers.deep_view() == self.answers.deep_view(),
            r.correct_answer@ == self.correct_answer@,
    {
        Question {
            question: self.question.clone(),
            answers: clone_strings(&self.answers),
            correct_answer: self.correct_answer.duplicate(),
        }
    }

    /// Checks that the question is scorable; the runtime counterpart of
    /// `wf` for questions handed in by the configuration collaborator.
    pub fn validate(&self) -> (r: bool)
        ensures
            r == self.wf(),
    {
        if self.correct_answer.len() == 0 {
            proof {
                assert(!self.wf());
            }
            return false;
        }
        if !sorted_check(&self.correct_answer) {
            return false;
        }
        let mut i: usize = 0;
        while i < self.correct_answer.len()
            invariant
                i <= self.correct_answer@.len(),
                self.correct_answer.wf(),
                self.correct_answer@.len() >= 1,
                forall|j: int| 0 <= j < i ==> self.correct_answer@[j] < self.answers@.len(),
            decreases self.correct_answer@.len() - i,
        {
            if self.correct_answer.get(i) >= self.answers.len() {
                return false;
            }
            i = i + 1;
        }
        true
    }
}

/// Copies a vector of strings, text for text.
pub fn clone_strings(v: &Vec<String>) -> (r: Vec<String>)
    ensures
        r@.len() == v@.len(),
        forall|i: int| 0 <= i < v@.len() ==> r@[i]@ == v@[i]@,
        r.deep_view() == v.deep_view(),
{
    let mut r: Vec<String> = Vec::new();
    let mut i: usize = 0;
    while i < v.len()
        invariant
            i <= v@.len(),
            r@.len() == i,
            forall|j: int| 0 <= j < i ==> r@[j]@ == v@[j]@,
        decreases v@.len() - i,
    {
        r.push(v[i].clone());
        i = i + 1;
    }
    proof {
        assert(r.deep_view() =~= v.deep_view());
    }
    r
}

/// Runtime check that an answer's indices are strictly ascending.
fn sorted_check(a: &Answer) -> (r: bool)
    ensures
        r == a.wf(),
{
    let mut i: usize = 1;
    if a.len() == 0 {
        return true;
    }
    while i < a.len()
        invariant
            1 <= i,
            i <= a@.len() || a@.len() == 0,
            forall|j: int| 0 <= j < i - 1 && j + 1 < a@.len() ==> #[trigger] a@[j] < a@[j + 1],
        decreases a@.len() - i,
    {
        if a.get(i - 1) >= a.get(i) {
            proof {
                assert(!crate::answer::strictly_sorted(a@));
            }
            return false;
        }
        i = i + 1;
    }
    proof {
        assert forall|p: int, q: int| 0 <= p < q < a@.len() implies a@[p] < a@[q] by {
            lemma_adjacent_sorted(a@, p, q);
        }
    }
    true
}

/// Adjacent order implies full order.
proof fn lemma_adjacent_sorted(s: Seq<usize>, p: int, q: int)
    requires
        forall|j: int| 0 <= j && j + 1 < s.len() ==> #[trigger] s[j] < s[j + 1],
        0 <= p < q < s.len(),
    ensures
        s[p] < s[q],
    decreases q - p,
{
    if p + 1 < q {
        lemma_adjacent_sorted(s, p + 1, q);
    }
}

/// How many of the selected indices are correct.
pub open spec fn count_hits(a: Seq<usize>, c: Seq<usize>) -> int
    decreases a.len(),
{
    if a.len() == 0 {
        0
    } else {
        count_hits(a.drop_last(), c) + if c.contains(a.last()) {
            1int
        } else {
            0int
        }
    }
}

/// The clamped numerator of a question's score: each correct selection
/// earns one point, each wrong selection cancels one, and the result is
/// clamped to `[0, |c|]`. Over the denominator `|c|` this is exactly the
/// partial-credit rule.
pub open spec fn question_points(a: Seq<usize>, c: Seq<usize>) -> int {
    let diff = 2 * count_hits(a, c) - a.len();
    if diff < 0 {
        0
    } else if diff > c.len() {
        c.len() as int
    } else {
        diff
    }
}

/// Scores one question: for each selected index, add `1/n` if it is
/// correct and subtract `1/n` otherwise, where `n` is the number of correct
/// options; the result is clamped to `[0, 1]`. Returned as the exact
/// fraction `points / n`.
pub fn check_answer(answer: &Answer, correct_answer: &Answer) -> (r: Score)
    requires
        answer.wf(),
        correct_answer.wf(),
        correct_answer@.len() >= 1,
    ensures
        r.wf(),
        r.den == correct_answer@.len(),
        r.num == question_points(answer@, correct_answer@),
        r.num <= r.den,
{
    let mut hits: usize = 0;
    let mut i: usize = 0;
    while i < answer.len()
        invariant
            i <= answer@.len(),
            hits <= i,
            hits == count_hits(answer@.take(i as int), correct_answer@),
        decreases answer@.len() - i,
    {
        let ghost t0 = answer@.take(i as int);
        let ghost t1 = answer@.take(i + 1);
        proof {
            assert(t1.drop_last() =~= t0);
            assert(t1.last() == answer@[i as int]);
        }
        if correct_answer.contains(answer.get(i)) {
            hits = hits + 1;
        }
        i = i + 1;
    }
    proof {
        assert(answer@.take(answer@.len() as int) =~= answer@);
    }
    let h = hits as u128;
    let l = answer.len() as u128;
    let n = correct_answer.len() as u128;
    let num: u128 = if 2 * h < l {
        0
    } else if 2 * h - l > n {
        n
    } else {
        2 * h - l
    };
    Score { num: num as u64, den: correct_answer.len() as u64 }
}

} // verus!
