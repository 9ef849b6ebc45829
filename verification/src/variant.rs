//! Open exam sessions.
//!
//! A variant is one user's randomly drawn attempt at a test: the questions
//! drawn for it, the answers submitted so far (one per answered question,
//! in question order), the time the first question was issued, and the
//! final score once computed.

use vstd::prelude::*;

use crate::answer::Answer;
use crate::question::{question_points, Question};
use crate::score::Score;

verus! {

/// One user's open exam session.
#[derive(Debug, PartialEq)]
pub struct Variant {
    pub username: String,
    pub testname: String,
    /// When the first question was issued, in seconds; `None` until then.
    /// A variant that never issued a question is never expired.
    pub start_timestamp: Option<u64>,
    /// The questions drawn for this attempt, in presentation order.
    pub questions: Vec<Question>,
    /// The answers submitted so far; entry `i` answers question `i`. The
    /// next unanswered question is always `answers.len()`.
    pub answers: Vec<Answer>,
    /// The final score, once computed by a finalization attempt.
    pub result: Option<Score>,
}

impl Variant {
    pub open spec fn wf(&self) -> bool {
        &&& self.answers@.len() <= self.questions@.len()
        &&& forall|i: int| 0 <= i < self.questions@.len() ==> (#[trigger] self.questions@[i]).wf()
        &&& forall|i: int| 0 <= i < self.answers@.len() ==> (#[trigger] self.answers@[i]).wf()
    }

    /// All questions answered.
    pub open spec fn complete(&self) -> bool {
        self.answers@.len() == self.questions@.len()
    }

    /// The first question has been issued.
    pub open spec fn started(&self) -> bool {
        self.start_timestamp is Some
    }

    /// The time limit has elapsed: only a started variant can expire.
    pub open spec fn expired(&self, now: u64, duration_minutes: u64) -> bool {
        match self.start_timestamp {
            Some(ts) => now > ts && now - ts > duration_minutes * 60,
            None => false,
        }
    }

    /// The per-question scores of the answers given so far; an unanswered
    /// question contributes nothing, exactly as an empty answer would.
    pub open spec fn scores(&self) -> Seq<Score> {
        scores_of(self.questions@, self.answers@)
    }
}

/// The per-question scores of `answers`, each over its question's correct
/// set.
pub open spec fn scores_of(questions: Seq<Question>, answers: Seq<Answer>) -> Seq<Score> {
    Seq::new(
        answers.len(),
        |i: int|
            Score {
                num: question_points(answers[i]@, questions[i].correct_answer@) as u64,
                den: questions[i].correct_answer@.len() as u64,
            },
    )
}

/// Computes the per-question scores of a variant's submitted answers.
pub fn variant_scores(v: &Variant) -> (r: Vec<Score>)
    requires
        v.wf(),
    ensures
        r@ == v.scores(),
        forall|i: int| 0 <= i < r@.len() ==> (#[trigger] r@[i]).wf(),
{
    let mut r: Vec<Score> = Vec::new();
    let mut i: usize = 0;
    while i < v.answers.len()
        invariant
            v.wf(),
            i <= v.answers@.len(),
            r@.len() == i,
            forall|j: int| 0 <= j < i ==> r@[j] == v.scores()[j],
            forall|j: int| 0 <= j < i ==> (#[trigger] r@[j]).wf(),
        decreases v.answers@.len() - i,
    {
        let s = crate::question::check_answer(&v.answers[i], &v.questions[i].correct_answer);
        r.push(s);
        i = i + 1;
    }
    proof {
        assert(r@ =~= v.scores());
    }
    r
}

} // verus!
