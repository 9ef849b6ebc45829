//! The exam engine.
//!
//! The examiner owns the session table — the map from user identity to at
//! most one open variant — and is the only component that mutates it. All
//! its operations assume they are called one at a time, in arrival order;
//! the work-queue front in this crate's manager module guarantees that.

use vstd::prelude::*;

use crate::answer::Answer;
use crate::config::{Config, TestSettings};
use crate::db::Database;
use crate::network::{marks_match, Marks, Response};
use crate::question::clone_strings;
use crate::score::Score;
use crate::variant::{scores_of, variant_scores, Variant};

verus! {

/// The session table as a map from user identity to the user's open
/// variant. Later entries would win, but the examiner keeps usernames
/// unique.
pub open spec fn table_of(s: Seq<Variant>) -> Map<Seq<char>, Variant>
    decreases s.len(),
{
    if s.len() == 0 {
        Map::empty()
    } else {
        table_of(s.drop_last()).insert(s.last().username@, s.last())
    }
}

/// No two stored variants belong to the same user.
pub open spec fn unique_users(s: Seq<Variant>) -> bool {
    forall|i: int, j: int|
        0 <= i < j < s.len() ==> s[i].username@ != s[j].username@
}

/// The exam engine: the single logical owner of the session table,
/// consulting the configuration and the mark store through their traits.
pub struct Examiner<C: Config, D: Database> {
    config: C,
    db: D,
    variants: Vec<Variant>,
}

impl<C: Config, D: Database> Examiner<C, D> {
    /// The configuration collaborator, for contracts.
    pub closed spec fn cfg(&self) -> C {
        self.config
    }

    /// The mark store collaborator, for contracts.
    pub closed spec fn store(&self) -> D {
        self.db
    }

    /// The session table, for contracts.
    pub closed spec fn table(&self) -> Map<Seq<char>, Variant> {
        table_of(self.variants@)
    }

    /// Internal validity: unique users, and every stored variant is well
    /// formed.
    pub closed spec fn wf(&self) -> bool {
        &&& unique_users(self.variants@)
        &&& forall|i: int| 0 <= i < self.variants@.len() ==> (#[trigger] self.variants@[i]).wf()
    }

    /// The mark store is unchanged in every observable way.
    pub open spec fn store_unchanged(pre: &Self, post: &Self) -> bool {
        forall|u: Seq<char>, t: Seq<char>| #[trigger]
            post.store().spec_marks(u, t) == pre.store().spec_marks(u, t)
    }

    /// The user has an open variant, and it is for this test.
    pub open spec fn open_for(&self, u: Seq<char>, t: Seq<char>) -> bool {
        self.table().contains_key(u) && self.table()[u].testname@ == t
    }

    /// The user may still start a new attempt: zero configured attempts
    /// means unlimited, otherwise fewer marks must be recorded than the
    /// limit allows.
    pub open spec fn attempts_left(&self, u: Seq<char>, t: Seq<char>, st: TestSettings) -> bool {
        st.number_of_attempts == 0 || self.store().spec_marks(u, t).len()
            < st.number_of_attempts as nat
    }

    pub fn new(config: C, db: D) -> (r: Examiner<C, D>)
        ensures
            r.wf(),
            r.cfg() == config,
            r.store() == db,
            r.table() == Map::<Seq<char>, Variant>::empty(),
    {
        Examiner { config, db, variants: Vec::new() }
    }

    /// How a returned banner relates to the configured one: the configured
    /// text, or empty when the configuration has none.
    pub open spec fn banner_matches(banner: Seq<char>, configured: Option<String>) -> bool {
        match configured {
            Some(b) => banner == b@,
            None => banner == Seq::<char>::empty(),
        }
    }

    /// What showing a banner does: nothing to the state; the response is
    /// the banner after the access and attempt checks.
    pub open spec fn banner_post(pre: Self, post: Self, u: Seq<char>, t: Seq<char>, r: Response) -> bool {
        let c = pre.cfg();
        &&& Self::unchanged(pre, post)
        &&& if !c.spec_has_access(u, t) {
            r == Response::NotAllowedUser
        } else {
            match c.spec_test_settings(t) {
                None => r == Response::ServerError,
                Some(st) => if !pre.attempts_left(u, t, st) {
                    r matches Response::End { marks } && marks_match(
                        marks,
                        pre.store().spec_marks(u, t),
                        Some(st),
                    )
                } else {
                    r matches Response::TestStarted { banner } && Self::banner_matches(
                        banner@,
                        c.spec_test_banner(t),
                    )
                },
            }
        }
    }

    /// Shows the test description before a start, after checking access and
    /// remaining attempts. Never touches the session table.
    pub fn banner_to_start_test(&mut self, username: &String, testname: &String) -> (r: Response)
        requires
            old(self).wf(),
        ensures
            final(self).wf(),
            Self::banner_post(*old(self), *final(self), username@, testname@, r),
    {
        if !self.config.has_access(username, testname) {
            return Response::NotAllowedUser;
        }
        let st = match self.config.test_settings(testname) {
            Some(st) => st,
            None => { return Response::ServerError },
        };
        if !Self::has_attempt(&mut self.db, &st, username, testname) {
            let marks = Self::get_marks(&self.config, &mut self.db, username, testname);
            return Response::End { marks };
        }
        let banner = match self.config.test_banner(testname) {
            Some(b) => b,
            None => String::new(),
        };
        Response::TestStarted { banner }
    }

    /// What listing the available tests does: nothing to the state; the
    /// response names every test the user may take, with its displayable
    /// result history.
    pub open spec fn avaliable_tests_post(pre: Self, post: Self, u: Seq<char>, r: Response) -> bool {
        let c = pre.cfg();
        &&& Self::unchanged(pre, post)
        &&& if !c.spec_has_user(u) {
            r == Response::NotAllowedUser
        } else {
            let list = c.spec_user_tests_list(u);
            r matches Response::AvaliableTests { tests } && tests@.len() == list.len()
                && forall|i: int|
                0 <= i < list.len() ==> (#[trigger] tests@[i]).0@ == list[i] && marks_match(
                    tests@[i].1,
                    pre.store().spec_marks(u, list[i]),
                    c.spec_test_settings(list[i]),
                )
        }
    }

    /// Lists the tests the user may take, each with its displayable result
    /// history. Fails when the user is unknown to the configuration.
    pub fn avaliable_tests(&mut self, username: &String) -> (r: Response)
        requires
            old(self).wf(),
        ensures
            final(self).wf(),
            Self::avaliable_tests_post(*old(self), *final(self), username@, r),
    {
        if !self.config.has_user(username) {
            return Response::NotAllowedUser;
        }
        let user_tests = self.config.user_tests_list(username);
        let mut tests: Vec<(String, Marks)> = Vec::new();
        let mut i: usize = 0;
        while i < user_tests.len()
            invariant
                old(self).wf(),
                self.wf(),
                self.cfg() == old(self).cfg(),
                self.table() == old(self).table(),
                Self::store_unchanged(old(self), self),
                user_tests.deep_view() == old(self).cfg().spec_user_tests_list(username@),
                i <= user_tests@.len(),
                tests@.len() == i,
                forall|j: int|
                    0 <= j < i ==> (#[trigger] tests@[j]).0@ == user_tests.deep_view()[j]
                        && marks_match(
                        tests@[j].1,
                        old(self).store().spec_marks(username@, user_tests.deep_view()[j]),
                        old(self).cfg().spec_test_settings(user_tests.deep_view()[j]),
                    ),
            decreases user_tests@.len() - i,
        {
            let ghost pre = *self;
            let m = Self::get_marks(&self.config, &mut self.db, username, &user_tests[i]);
            proof {
                assert forall|u2: Seq<char>, t2: Seq<char>| #[trigger]
                    self.store().spec_marks(u2, t2) == old(self).store().spec_marks(u2, t2) by {
                    assert(self.store().spec_marks(u2, t2) == pre.store().spec_marks(u2, t2));
                }
                assert(user_tests.deep_view()[i as int] == user_tests@[i as int]@);
                assert(pre.store().spec_marks(username@, user_tests@[i as int]@) == old(
                    self,
                ).store().spec_marks(username@, user_tests@[i as int]@));
                assert(marks_match(
                    m,
                    old(self).store().spec_marks(username@, user_tests.deep_view()[i as int]),
                    old(self).cfg().spec_test_settings(user_tests.deep_view()[i as int]),
                ));
            }
            tests.push((user_tests[i].clone(), m));
            i = i + 1;
        }
        Response::AvaliableTests { tests }
    }

    /// Whether the user may still start a new attempt on this test.
    fn has_attempt(db: &mut D, st: &TestSettings, username: &String, testname: &String) -> (b:
        bool)
        ensures
            b == (st.number_of_attempts == 0 || old(db).spec_marks(username@, testname@).len()
                < st.number_of_attempts as nat),
            forall|u: Seq<char>, t: Seq<char>| #[trigger]
                final(db).spec_marks(u, t) == old(db).spec_marks(u, t),
    {
        st.number_of_attempts == 0 || db.attempts_counter(username, testname)
            < st.number_of_attempts
    }

    /// Builds the displayable result history for one (user, test) pair.
    fn get_marks(config: &C, db: &mut D, username: &String, testname: &String) -> (m: Marks)
        ensures
            marks_match(
                m,
                old(db).spec_marks(username@, testname@),
                config.spec_test_settings(testname@),
            ),
            forall|u: Seq<char>, t: Seq<char>| #[trigger]
                final(db).spec_marks(u, t) == old(db).spec_marks(u, t),
    {
        let marks = db.marks(username, testname);
        if marks.len() == 0 {
            return Marks::Empty;
        }
        match config.test_settings(testname) {
            Some(st) => if st.show_results {
                Marks::Marks { marks }
            } else {
                Marks::Done
            },
            None => Marks::Done,
        }
    }

    /// Nothing observable changed: same configuration, same session table,
    /// same recorded marks.
    pub open spec fn unchanged(pre: Self, post: Self) -> bool {
        &&& post.cfg() == pre.cfg()
        &&& post.table() == pre.table()
        &&& Self::store_unchanged(&pre, &post)
    }

    /// A freshly drawn variant for (u, t): nothing answered, no timestamp,
    /// and `min(sample size, pool size)` distinct pool questions.
    pub open spec fn fresh_variant(c: C, v: Variant, u: Seq<char>, t: Seq<char>, st: TestSettings) -> bool {
        &&& v.wf()
        &&& v.username@ == u
        &&& v.testname@ == t
        &&& v.start_timestamp is None
        &&& v.answers@.len() == 0
        &&& v.result is None
        &&& match c.spec_questions_count(t) {
            Some(pool) => {
                &&& v.questions@.len() == if st.questions_number <= pool {
                    st.questions_number as int
                } else {
                    pool as int
                }
                &&& exists|idxs: Seq<usize>|
                    {
                        &&& #[trigger] idxs.no_duplicates()
                        &&& idxs.len() == v.questions@.len()
                        &&& forall|i: int|
                            0 <= i < idxs.len() ==> (#[trigger] idxs[i]) < pool
                                && c.spec_question(t, idxs[i] as int) == Some(v.questions@[i])
                    }
            },
            None => false,
        }
    }

    /// The question pool cannot be sampled at all: unknown or empty.
    pub open spec fn pool_invalid(c: C, t: Seq<char>) -> bool {
        match c.spec_questions_count(t) {
            Some(pool) => pool == 0,
            None => true,
        }
    }

    /// Every question of the pool exists and is scorable, so drawing a
    /// variant must succeed whatever indices come up.
    pub open spec fn pool_fully_valid(c: C, t: Seq<char>) -> bool {
        match c.spec_questions_count(t) {
            Some(pool) => pool >= 1 && forall|i: int|
                0 <= i < pool ==> match #[trigger] c.spec_question(t, i) {
                    Some(q) => q.wf(),
                    None => false,
                },
            None => false,
        }
    }

    /// A new open variant for `u` was stored; nothing else changed.
    pub open spec fn created(pre: Self, post: Self, u: Seq<char>, t: Seq<char>, st: TestSettings) -> bool {
        &&& post.cfg() == pre.cfg()
        &&& Self::store_unchanged(&pre, &post)
        &&& exists|v: Variant|
            post.table() == #[trigger] pre.table().insert(u, v) && Self::fresh_variant(
                pre.cfg(),
                v,
                u,
                t,
                st,
            )
    }

    /// `v2` is `v` after a finalization attempt that could not persist:
    /// identical, except that the computed score may now be cached.
    pub open spec fn retained_variant(v: Variant, v2: Variant) -> bool {
        &&& v2.username@ == v.username@
        &&& v2.testname@ == v.testname@
        &&& v2.start_timestamp == v.start_timestamp
        &&& v2.questions@ == v.questions@
        &&& v2.answers@ == v.answers@
        &&& (v2.result == v.result || exists|m: Score|
            #[trigger] m.is_sum_of(v.scores()) && m.wf() && v2.result == Some(m))
    }

    /// A finalization of variant `v` from state `pre`: either the exact
    /// total score was persisted, `v` left the table and the caller sees
    /// the updated history; or persisting failed, everything observable is
    /// unchanged but for `v`'s cached score, and the caller sees a server
    /// error, so a later call can retry.
    pub open spec fn finalize_from(pre: Self, post: Self, v: Variant, st: TestSettings, r: Response) -> bool {
        let u = v.username@;
        let t = v.testname@;
        ||| {
            &&& post.cfg() == pre.cfg()
            &&& post.table() == pre.table().remove(u)
            &&& exists|m: Score|
                #[trigger] m.is_sum_of(v.scores()) && m.wf() && post.store().spec_marks(u, t)
                    == pre.store().spec_marks(u, t).push(m)
            &&& forall|u2: Seq<char>, t2: Seq<char>|
                !(u2 == u && t2 == t) ==> #[trigger] post.store().spec_marks(u2, t2)
                    == pre.store().spec_marks(u2, t2)
            &&& r matches Response::End { marks } && marks_match(
                marks,
                post.store().spec_marks(u, t),
                Some(st),
            )
        }
        ||| {
            &&& post.cfg() == pre.cfg()
            &&& Self::store_unchanged(&pre, &post)
            &&& r == Response::ServerError
            &&& exists|v2: Variant|
                post.table() == #[trigger] pre.table().insert(u, v2) && Self::retained_variant(
                    v,
                    v2,
                )
        }
    }

    /// `v2` is `v` with its first-access timestamp set: untouched when it
    /// was already set, `now` when this is the first question fetched.
    pub open spec fn started_from(v: Variant, now: u64, v2: Variant) -> bool {
        &&& v2.username@ == v.username@
        &&& v2.testname@ == v.testname@
        &&& v2.questions@ == v.questions@
        &&& v2.answers@ == v.answers@
        &&& v2.result == v.result
        &&& v2.start_timestamp == if v.start_timestamp is Some {
            v.start_timestamp
        } else {
            Some(now)
        }
    }

    /// The full state machine of one `next_question` call, which subsumes
    /// "start" and "continue": access and attempt checks, drawing a fresh
    /// variant, expiry, serving the next unanswered question, and
    /// finalizing a finished attempt.
    pub open spec fn next_question_post(
        pre: Self,
        post: Self,
        u: Seq<char>,
        t: Seq<char>,
        now: u64,
        r: Response,
    ) -> bool {
        let c = pre.cfg();
        if !c.spec_has_access(u, t) {
            r == Response::NotAllowedUser && Self::unchanged(pre, post)
        } else {
            match c.spec_test_settings(t) {
                None => r == Response::ServerError && Self::unchanged(pre, post),
                Some(st) => if pre.table().contains_key(u) && pre.table()[u].testname@ != t {
                    r == Response::ServerError && Self::unchanged(pre, post)
                } else if !pre.table().contains_key(u) {
                    if !pre.attempts_left(u, t, st) {
                        &&& Self::unchanged(pre, post)
                        &&& r matches Response::End { marks } && marks_match(
                            marks,
                            pre.store().spec_marks(u, t),
                            Some(st),
                        )
                    } else {
                        &&& {
                            ||| r == Response::ServerError && Self::unchanged(pre, post)
                            ||| r matches Response::TestStarted { banner }
                                && Self::banner_matches(banner@, c.spec_test_banner(t))
                                && Self::created(pre, post, u, t, st)
                        }
                        &&& (Self::pool_invalid(c, t) ==> r == Response::ServerError)
                        &&& (Self::pool_fully_valid(c, t) ==> r != Response::ServerError)
                    }
                } else {
                    let v = pre.table()[u];
                    if v.expired(now, st.test_duration_minutes) || v.complete() {
                        Self::finalize_from(pre, post, v, st, r)
                    } else {
                        &&& post.cfg() == pre.cfg()
                        &&& Self::store_unchanged(&pre, &post)
                        &&& r matches Response::NextQuestion { question, answers } && {
                            let q = v.questions@[v.answers@.len() as int];
                            question@ == q.question@ && answers.deep_view()
                                == q.answers.deep_view()
                        }
                        &&& exists|v2: Variant|
                            post.table() == #[trigger] pre.table().insert(u, v2)
                                && Self::started_from(v, now, v2)
                    }
                }
            }
        }
    }

    /// `v2` is `v` with one more submitted answer: all fields unchanged,
    /// except that `a` (by its selected indices) now answers the first
    /// previously unanswered question.
    pub open spec fn answered_variant(v: Variant, a: Answer, v2: Variant) -> bool {
        &&& v2.username@ == v.username@
        &&& v2.testname@ == v.testname@
        &&& v2.start_timestamp == v.start_timestamp
        &&& v2.questions@ == v.questions@
        &&& v2.result == v.result
        &&& v2.answers@.len() == v.answers@.len() + 1
        &&& forall|j: int| 0 <= j < v.answers@.len() ==> v2.answers@[j] == v.answers@[j]
        &&& v2.answers@.last()@ == a@
        &&& v2.answers@.last().wf()
    }

    /// The full state machine of one `SubmitAnswer` call: access check,
    /// the attempt check when no variant is open, rejection when no
    /// question was fetched yet, appending the answer, and finalizing once
    /// the last question is answered.
    pub open spec fn put_answer_post(
        pre: Self,
        post: Self,
        u: Seq<char>,
        t: Seq<char>,
        a: Answer,
        now: u64,
        r: Response,
    ) -> bool {
        let c = pre.cfg();
        if !c.spec_has_access(u, t) {
            r == Response::NotAllowedUser && Self::unchanged(pre, post)
        } else {
            match c.spec_test_settings(t) {
                None => r == Response::ServerError && Self::unchanged(pre, post),
                Some(st) => if !pre.open_for(u, t) {
                    if !pre.attempts_left(u, t, st) {
                        &&& Self::unchanged(pre, post)
                        &&& r matches Response::End { marks } && marks_match(
                            marks,
                            pre.store().spec_marks(u, t),
                            Some(st),
                        )
                    } else {
                        r == Response::ServerError && Self::unchanged(pre, post)
                    }
                } else {
                    let v = pre.table()[u];
                    if !v.started() {
                        r == Response::ServerError && Self::unchanged(pre, post)
                    } else if v.complete() {
                        Self::finalize_from(pre, post, v, st, r)
                    } else if v.answers@.len() + 1 == v.questions@.len() {
                        exists|v2: Variant|
                            #[trigger] Self::answered_variant(v, a, v2) && Self::finalize_from(
                                pre,
                                post,
                                v2,
                                st,
                                r,
                            )
                    } else {
                        &&& r == Response::Ack
                        &&& post.cfg() == pre.cfg()
                        &&& Self::store_unchanged(&pre, &post)
                        &&& exists|v2: Variant|
                            post.table() == #[trigger] pre.table().insert(u, v2)
                                && Self::answered_variant(v, a, v2)
                    }
                },
            }
        }
    }

    /// Serves one `SubmitAnswer` operation: stores the answer on the open
    /// variant's first unanswered question, acknowledges it, and finalizes
    /// the attempt once every question is answered.
    pub fn put_answer(&mut self, username: &String, testname: &String, answer: &Answer, now: u64)
        -> (r: Response)
        requires
            old(self).wf(),
            answer.wf(),
        ensures
            final(self).wf(),
            Self::put_answer_post(
                *old(self),
                *final(self),
                username@,
                testname@,
                *answer,
                now,
                r,
            ),
    {
        if !self.config.has_access(username, testname) {
            return Response::NotAllowedUser;
        }
        let st = match self.config.test_settings(testname) {
            Some(st) => st,
            None => { return Response::ServerError },
        };
        let found = self.find_index(username);
        let open_idx: Option<usize> = match found {
            Some(i) => {
                proof {
                    lemma_table_of_index(self.variants@, i as int);
                }
                if self.variants[i].testname.eq(testname) {
                    Some(i)
                } else {
                    None
                }
            },
            None => {
                proof {
                    lemma_table_of_not_contains(self.variants@, username@);
                }
                None
            },
        };
        match open_idx {
            None => {
                if !Self::has_attempt(&mut self.db, &st, username, testname) {
                    let marks = Self::get_marks(&self.config, &mut self.db, username, testname);
                    Response::End { marks }
                } else {
                    Response::ServerError
                }
            },
            Some(i) => {
                if self.variants[i].start_timestamp.is_none() {
                    return Response::ServerError;
                }
                let complete = self.variants[i].answers.len() == self.variants[i].questions.len();
                let ghost v0 = self.variants@[i as int];
                proof {
                    lemma_table_of_remove(self.variants@, i as int);
                    lemma_vec_remove_facts(self.variants@, i as int);
                }
                let mut v = self.variants.remove(i);
                if !complete {
                    v.answers.push(answer.duplicate());
                    proof {
                        assert(Self::answered_variant(v0, *answer, v));
                    }
                }
                let ghost v1 = v;
                let complete_now = v.answers.len() == v.questions.len();
                if complete_now {
                    let ghost mid = *self;
                    match self.try_finalize(v, now) {
                        None => {
                            let ghost fin = *self;
                            let marks = Self::get_marks(
                                &self.config,
                                &mut self.db,
                                username,
                                testname,
                            );
                            proof {
                                assert(self.table() == old(self).table().remove(username@));
                                let m = choose|m: Score|
                                    m.is_sum_of(v1.scores()) && m.wf() && fin.store().spec_marks(
                                        v1.username@,
                                        v1.testname@,
                                    ) == mid.store().spec_marks(v1.username@, v1.testname@).push(
                                        m,
                                    );
                                assert(self.store().spec_marks(v1.username@, v1.testname@)
                                    == fin.store().spec_marks(v1.username@, v1.testname@));
                                assert(m.is_sum_of(v1.scores()) && m.wf()
                                    && self.store().spec_marks(v1.username@, v1.testname@) == old(
                                    self,
                                ).store().spec_marks(v1.username@, v1.testname@).push(m));
                                assert forall|u2: Seq<char>, t2: Seq<char>|
                                    !(u2 == v1.username@ && t2 == v1.testname@) implies #[trigger]
                                    self.store().spec_marks(u2, t2) == old(self).store().spec_marks(
                                    u2,
                                    t2,
                                ) by {
                                    assert(fin.store().spec_marks(u2, t2) == mid.store().spec_marks(
                                        u2,
                                        t2,
                                    ));
                                }
                                let ghost rr = Response::End { marks };
                                assert(Self::finalize_from(*old(self), *self, v1, st, rr));
                                assert(Self::put_answer_post(
                                    *old(self),
                                    *self,
                                    username@,
                                    testname@,
                                    *answer,
                                    now,
                                    rr,
                                ));
                            }
                            Response::End { marks }
                        },
                        Some(v2) => {
                            proof {
                                lemma_table_of_push(self.variants@, v2);
                                lemma_table_of_contains(self.variants@, username@);
                                assert(!self.table().contains_key(username@));
                            }
                            let ghost before_push = self.variants@;
                            self.variants.push(v2);
                            proof {
                                assert forall|p: int, q: int|
                                    0 <= p < q < self.variants@.len() implies self.variants@[p].username@ != self.variants@[q].username@ by {
                                    if q == self.variants@.len() - 1 {
                                        assert(before_push[p].username@ != username@);
                                    }
                                }
                                assert(old(self).table().remove(username@).insert(
                                    username@,
                                    v2,
                                ) =~= old(self).table().insert(username@, v2));
                                let ghost rr = Response::ServerError;
                                assert(Self::finalize_from(*old(self), *self, v1, st, rr));
                                assert(Self::put_answer_post(
                                    *old(self),
                                    *self,
                                    username@,
                                    testname@,
                                    *answer,
                                    now,
                                    rr,
                                ));
                            }
                            Response::ServerError
                        },
                    }
                } else {
                    proof {
                        lemma_table_of_push(self.variants@, v);
                        lemma_table_of_contains(self.variants@, username@);
                        assert(!self.table().contains_key(username@));
                    }
                    let ghost before_push = self.variants@;
                    self.variants.push(v);
                    proof {
                        assert forall|p: int, q: int|
                            0 <= p < q < self.variants@.len() implies self.variants@[p].username@
                            != self.variants@[q].username@ by {
                            if q == self.variants@.len() - 1 {
                                assert(before_push[p].username@ != username@);
                            }
                        }
                        assert(old(self).table().remove(username@).insert(
                            username@,
                            v1,
                        ) =~= old(self).table().insert(username@, v1));
                        assert(Self::put_answer_post(
                            *old(self),
                            *self,
                            username@,
                            testname@,
                            *answer,
                            now,
                            Response::Ack,
                        ));
                    }
                    Response::Ack
                }
            },
        }
    }

    /// Serves one `RequestQuestion` operation: starts the test when no
    /// variant is open (returning the banner), finalizes an expired or
    /// finished variant, and otherwise hands out the next unanswered
    /// question, stamping the start time on first access. A request for a
    /// different test while one is open is refused, so no open session is
    /// ever evicted by a new start.
    pub fn next_question(&mut self, username: &String, testname: &String, now: u64) -> (r:
        Response)
        requires
            old(self).wf(),
        ensures
            final(self).wf(),
            Self::next_question_post(*old(self), *final(self), username@, testname@, now, r),
    {
        if !self.config.has_access(username, testname) {
            return Response::NotAllowedUser;
        }
        let st = match self.config.test_settings(testname) {
            Some(st) => st,
            None => { return Response::ServerError },
        };
        let found = self.find_index(username);
        match found {
            None => {
                proof {
                    lemma_table_of_not_contains(self.variants@, username@);
                }
                if !Self::has_attempt(&mut self.db, &st, username, testname) {
                    let marks = Self::get_marks(&self.config, &mut self.db, username, testname);
                    return Response::End { marks };
                }
                let v = match Self::generate_variant(&self.config, username, testname, &st) {
                    Some(v) => v,
                    None => { return Response::ServerError },
                };
                let banner = match self.config.test_banner(testname) {
                    Some(b) => b,
                    None => String::new(),
                };
                proof {
                    lemma_table_of_push(self.variants@, v);
                }
                let ghost pre_vec = self.variants@;
                self.variants.push(v);
                proof {
                    assert forall|p: int, q: int|
                        0 <= p < q < self.variants@.len() implies self.variants@[p].username@
                        != self.variants@[q].username@ by {
                        if q == self.variants@.len() - 1 {
                            assert(pre_vec[p].username@ != username@);
                        }
                    }
                    assert(forall|j: int|
                        0 <= j < pre_vec.len() ==> self.variants@[j] == pre_vec[j]);
                }
                Response::TestStarted { banner }
            },
            Some(i) => {
                proof {
                    lemma_table_of_index(self.variants@, i as int);
                }
                if !self.variants[i].testname.eq(testname) {
                    return Response::ServerError;
                }
                let expired = match self.variants[i].start_timestamp {
                    Some(ts) => now > ts && ((now - ts) as u128) > (st.test_duration_minutes
                        as u128) * 60,
                    None => false,
                };
                let complete = self.variants[i].answers.len() == self.variants[i].questions.len();
                let ghost pre_vec = self.variants@;
                let ghost v0 = self.variants@[i as int];
                proof {
                    lemma_table_of_remove(self.variants@, i as int);
                    lemma_vec_remove_facts(self.variants@, i as int);
                }
                let v = self.variants.remove(i);
                if expired || complete {
                    let ghost mid = *self;
                    match self.try_finalize(v, now) {
                        None => {
                            let ghost fin = *self;
                            let marks = Self::get_marks(
                                &self.config,
                                &mut self.db,
                                username,
                                testname,
                            );
                            proof {
                                assert(self.table() == old(self).table().remove(username@));
                                let m = choose|m: Score|
                                    m.is_sum_of(v0.scores()) && m.wf() && fin.store().spec_marks(
                                        v0.username@,
                                        v0.testname@,
                                    ) == mid.store().spec_marks(v0.username@, v0.testname@).push(
                                        m,
                                    );
                                assert(self.store().spec_marks(v0.username@, v0.testname@)
                                    == fin.store().spec_marks(v0.username@, v0.testname@));
                                assert(mid.store().spec_marks(v0.username@, v0.testname@) == old(
                                    self,
                                ).store().spec_marks(v0.username@, v0.testname@));
                                assert(m.is_sum_of(v0.scores()) && m.wf()
                                    && self.store().spec_marks(v0.username@, v0.testname@) == old(
                                    self,
                                ).store().spec_marks(v0.username@, v0.testname@).push(m));
                                assert forall|u2: Seq<char>, t2: Seq<char>|
                                    !(u2 == v0.username@ && t2 == v0.testname@) implies #[trigger]
                                    self.store().spec_marks(u2, t2) == old(self).store().spec_marks(
                                    u2,
                                    t2,
                                ) by {
                                    assert(fin.store().spec_marks(u2, t2) == mid.store().spec_marks(
                                        u2,
                                        t2,
                                    ));
                                }
                                assert(self.cfg() == old(self).cfg());
                                assert(self.table() == old(self).table().remove(v0.username@));
                                assert(exists|m2: Score|
                                    #[trigger] m2.is_sum_of(v0.scores()) && m2.wf()
                                        && self.store().spec_marks(v0.username@, v0.testname@)
                                        == old(self).store().spec_marks(
                                        v0.username@,
                                        v0.testname@,
                                    ).push(m2));
                                assert(marks_match(
                                    marks,
                                    self.store().spec_marks(v0.username@, v0.testname@),
                                    Some(st),
                                ));
                                assert(old(self).table()[username@] == v0);
                                let ghost rr = Response::End { marks };
                                assert(Self::finalize_from(*old(self), *self, v0, st, rr));
                                assert(Self::next_question_post(
                                    *old(self),
                                    *self,
                                    username@,
                                    testname@,
                                    now,
                                    rr,
                                ));
                            }
                            Response::End { marks }
                        },
                        Some(v2) => {
                            proof {
                                lemma_table_of_push(self.variants@, v2);
                                lemma_table_of_contains(self.variants@, username@);
                                assert(!self.table().contains_key(username@));
                            }
                            let ghost before_push = self.variants@;
                            self.variants.push(v2);
                            proof {
                                assert forall|p: int, q: int|
                                    0 <= p < q < self.variants@.len() implies self.variants@[p].username@ != self.variants@[q].username@ by {
                                    if q == self.variants@.len() - 1 {
                                        assert(before_push[p].username@ != username@);
                                    }
                                }
                                assert(old(self).table().remove(username@).insert(
                                    username@,
                                    v2,
                                ) =~= old(self).table().insert(username@, v2));
                            }
                            Response::ServerError
                        },
                    }
                } else {
                    let mut v = v;
                    if v.start_timestamp.is_none() {
                        v.start_timestamp = Some(now);
                    }
                    let qi = v.answers.len();
                    let question = v.questions[qi].question.clone();
                    let answers = clone_strings(&v.questions[qi].answers);
                    proof {
                        lemma_table_of_push(self.variants@, v);
                    }
                    let ghost before_push = self.variants@;
                    self.variants.push(v);
                    proof {
                        assert forall|p: int, q: int|
                            0 <= p < q < self.variants@.len() implies self.variants@[p].username@
                            != self.variants@[q].username@ by {
                            if q == self.variants@.len() - 1 {
                                assert(before_push[p].username@ != v0.username@);
                            }
                        }
                        assert(old(self).table().remove(username@).insert(
                            username@,
                            self.variants@.last(),
                        ) =~= old(self).table().insert(username@, self.variants@.last()));
                        assert(Self::started_from(v0, now, self.variants@.last()));
                    }
                    Response::NextQuestion { question, answers }
                }
            },
        }
    }

    /// Draws a fresh variant for (u, t): samples the pool and copies the
    /// drawn questions. Fails on an unknown or empty pool, or when a drawn
    /// question is missing or unscorable; succeeds whenever the whole pool
    /// is valid.
    fn generate_variant(config: &C, username: &String, testname: &String, st: &TestSettings) -> (r:
        Option<Variant>)
        ensures
            r matches Some(v) ==> Self::fresh_variant(*config, v, username@, testname@, *st),
            Self::pool_invalid(*config, testname@) ==> r is None,
            Self::pool_fully_valid(*config, testname@) ==> r is Some,
    {
        let pool = match config.questions_count(testname) {
            Some(p) => p,
            None => { return None },
        };
        if pool == 0 {
            return None;
        }
        let idxs = crate::generator::generate(pool, st.questions_number);
        let mut questions: Vec<crate::question::Question> = Vec::new();
        let mut j: usize = 0;
        while j < idxs.len()
            invariant
                j <= idxs@.len(),
                questions@.len() == j,
                pool >= 1,
                config.spec_questions_count(testname@) == Some(pool),
                idxs@.no_duplicates(),
                forall|i: int| 0 <= i < idxs@.len() ==> (#[trigger] idxs@[i]) < pool,
                forall|i: int|
                    0 <= i < j ==> config.spec_question(testname@, (#[trigger] idxs@[i]) as int)
                        == Some(questions@[i]),
                forall|i: int| 0 <= i < j ==> (#[trigger] questions@[i]).wf(),
            decreases idxs@.len() - j,
        {
            let q = match config.question(testname, idxs[j]) {
                Some(q) => q,
                None => {
                    proof {
                        assert(!Self::pool_fully_valid(*config, testname@));
                    }
                    return None;
                },
            };
            if !q.validate() {
                proof {
                    assert(!Self::pool_fully_valid(*config, testname@));
                }
                return None;
            }
            questions.push(q);
            j = j + 1;
        }
        let v = Variant {
            username: username.clone(),
            testname: testname.clone(),
            start_timestamp: None,
            questions,
            answers: Vec::new(),
            result: None,
        };
        proof {
            assert(Self::fresh_variant(*config, v, username@, testname@, *st)) by {
                assert(idxs@.no_duplicates());
                assert(idxs@.len() == v.questions@.len());
            }
        }
        Some(v)
    }

    /// Scores the owned variant and tries to persist the result. On
    /// success the variant is consumed; on failure (an unrepresentable
    /// total, or the store refusing the write) it is handed back, with the
    /// computed score cached, so the caller can keep it for a retry.
    fn try_finalize(&mut self, v: Variant, now: u64) -> (r: Option<Variant>)
        requires
            v.wf(),
            old(self).wf(),
        ensures
            final(self).wf(),
            final(self).cfg() == old(self).cfg(),
            final(self).table() == old(self).table(),
            r is None ==> {
                &&& exists|m: Score|
                    #[trigger] m.is_sum_of(v.scores()) && m.wf() && final(self).store().spec_marks(
                        v.username@,
                        v.testname@,
                    ) == old(self).store().spec_marks(v.username@, v.testname@).push(m)
                &&& forall|u2: Seq<char>, t2: Seq<char>|
                    !(u2 == v.username@ && t2 == v.testname@) ==> #[trigger] final(self).store().spec_marks(u2, t2) == old(self).store().spec_marks(u2, t2)
            },
            r matches Some(v2) ==> Self::store_unchanged(old(self), final(self))
                && Self::retained_variant(v, v2) && v2.wf(),
    {
        let scores = variant_scores(&v);
        let total = match crate::score::total_score(&scores) {
            Some(m) => m,
            None => { return Some(v) },
        };
        let start_s = crate::report::decimal_string(
            match v.start_timestamp {
                Some(ts) => ts,
                None => 0,
            },
        );
        let end_s = crate::report::decimal_string(now);
        let ok = self.db.append_mark(&v.username, &v.testname, &total, &start_s, &end_s);
        if ok {
            None
        } else {
            let mut v2 = v;
            v2.result = Some(total);
            Some(v2)
        }
    }

    /// The sweep must finalize this variant now: its test's settings are
    /// known and its time limit has elapsed. A variant that never issued a
    /// question has no timestamp and is never due.
    pub open spec fn sweep_due(c: C, v: Variant, now: u64) -> bool {
        match c.spec_test_settings(v.testname@) {
            Some(st) => v.expired(now, st.test_duration_minutes),
            None => false,
        }
    }

    /// A finalization of `v` by the sweep: the exact total was recorded
    /// and the session removed, or persisting failed and the session is
    /// retained for a later retry, the store untouched.
    pub open spec fn swept(pre: Self, post: Self, v: Variant) -> bool {
        let u = v.username@;
        let t = v.testname@;
        ||| {
            &&& post.table() == pre.table().remove(u)
            &&& exists|m: Score|
                #[trigger] m.is_sum_of(v.scores()) && m.wf() && post.store().spec_marks(u, t)
                    == pre.store().spec_marks(u, t).push(m)
            &&& forall|u2: Seq<char>, t2: Seq<char>|
                !(u2 == u && t2 == t) ==> #[trigger] post.store().spec_marks(u2, t2)
                    == pre.store().spec_marks(u2, t2)
        }
        ||| {
            &&& Self::store_unchanged(&pre, &post)
            &&& exists|v2: Variant|
                post.table() == #[trigger] pre.table().insert(u, v2) && Self::retained_variant(
                    v,
                    v2,
                )
        }
    }

    /// What one sweep step does to one user: nothing unless the user has
    /// an open, due variant; that one is finalized.
    pub open spec fn sweep_one_post(pre: Self, post: Self, u: Seq<char>, now: u64) -> bool {
        if pre.table().contains_key(u) && Self::sweep_due(pre.cfg(), pre.table()[u], now) {
            Self::swept(pre, post, pre.table()[u])
        } else {
            post.table() == pre.table() && Self::store_unchanged(&pre, &post)
        }
    }

    /// The per-user effect of a whole sweep, relative to the state at its
    /// start: a due variant is finalized (recorded and removed, or
    /// retained when persisting failed); any other variant is untouched.
    pub open spec fn user_outcome(pre: Self, post: Self, u: Seq<char>, now: u64) -> bool {
        pre.table().contains_key(u) ==> {
            let v = pre.table()[u];
            if Self::sweep_due(pre.cfg(), v, now) {
                ||| {
                    &&& !post.table().contains_key(u)
                    &&& exists|m: Score|
                        #[trigger] m.is_sum_of(v.scores()) && m.wf() && post.store().spec_marks(
                            u,
                            v.testname@,
                        ) == pre.store().spec_marks(u, v.testname@).push(m)
                }
                ||| {
                    &&& post.table().contains_key(u)
                    &&& Self::retained_variant(v, post.table()[u])
                    &&& post.store().spec_marks(u, v.testname@) == pre.store().spec_marks(
                        u,
                        v.testname@,
                    )
                }
            } else {
                post.table().contains_key(u) && post.table()[u] == v
            }
        }
    }

    /// The whole sweep: no session appears, every session is handled per
    /// `user_outcome`, and the store changes at most by one recorded mark
    /// per due session.
    pub open spec fn sweep_post(pre: Self, post: Self, now: u64) -> bool {
        &&& forall|u: Seq<char>| #[trigger]
            post.table().contains_key(u) ==> pre.table().contains_key(u)
        &&& forall|u: Seq<char>| #[trigger]
            pre.table().contains_key(u) ==> Self::user_outcome(pre, post, u, now)
        &&& forall|u: Seq<char>, t: Seq<char>|
            !(pre.table().contains_key(u) && pre.table()[u].testname@ == t && Self::sweep_due(
                pre.cfg(),
                pre.table()[u],
                now,
            )) ==> #[trigger] post.store().spec_marks(u, t) == pre.store().spec_marks(u, t)
    }

    /// Finalizes every open variant whose time limit has elapsed, even if
    /// its owner never reconnects. Side effect only: no response.
    pub fn variant_collector(&mut self, now: u64)
        requires
            old(self).wf(),
        ensures
            final(self).wf(),
            final(self).cfg() == old(self).cfg(),
            Self::sweep_post(*old(self), *final(self), now),
    {
        let ghost pre = *old(self);
        let names = self.collect_usernames();
        let ghost pre_vec = self.variants@;
        proof {
            assert forall|j: int, l: int| 0 <= j < l < names@.len() implies names@[j]@
                != names@[l]@ by {
                assert(pre_vec[j].username@ != pre_vec[l].username@);
            }
            assert forall|j: int| 0 <= j < names@.len() implies Self::user_untouched(
                pre,
                *self,
                names@[j]@,
            ) by {
                lemma_table_of_index(pre_vec, j);
            }
        }
        let mut k: usize = 0;
        while k < names.len()
            invariant
                self.wf(),
                self.cfg() == pre.cfg(),
                k <= names@.len(),
                names@.len() == pre_vec.len(),
                forall|j: int| 0 <= j < names@.len() ==> (#[trigger] names@[j])@
                    == pre_vec[j].username@,
                forall|j: int, l: int| 0 <= j < l < names@.len() ==> names@[j]@ != names@[l]@,
                pre.table() == table_of(pre_vec),
                forall|j: int|
                    0 <= j < k ==> Self::user_outcome(pre, *self, (#[trigger] names@[j])@, now),
                forall|j: int|
                    k <= j < names@.len() ==> Self::user_untouched(
                        pre,
                        *self,
                        (#[trigger] names@[j])@,
                    ),
                forall|u: Seq<char>| #[trigger]
                    self.table().contains_key(u) ==> pre.table().contains_key(u),
                forall|u: Seq<char>, t: Seq<char>|
                    !(pre.table().contains_key(u) && pre.table()[u].testname@ == t
                        && Self::sweep_due(pre.cfg(), pre.table()[u], now)) ==> #[trigger]
                        self.store().spec_marks(u, t) == pre.store().spec_marks(u, t),
            decreases names@.len() - k,
        {
            let ghost prev = *self;
            let ghost uk = names@[k as int]@;
            self.sweep_one(&names[k], now);
            proof {
                // The processed user's outcome, relative to the sweep's start.
                assert(Self::sweep_one_post(prev, *self, uk, now));
                assert(Self::user_untouched(pre, prev, uk));
                if pre.table().contains_key(uk) {
                    assert(prev.table()[uk] == pre.table()[uk]);
                    assert(Self::user_outcome(pre, *self, uk, now)) by {
                        let v = pre.table()[uk];
                        if Self::sweep_due(pre.cfg(), v, now) {
                            assert(Self::swept(prev, *self, v));
                            if !self.table().contains_key(uk) {
                                let m = choose|m: Score|
                                    m.is_sum_of(v.scores()) && m.wf()
                                        && self.store().spec_marks(uk, v.testname@)
                                        == prev.store().spec_marks(uk, v.testname@).push(m);
                                assert(m.is_sum_of(v.scores()) && m.wf()
                                    && self.store().spec_marks(uk, v.testname@)
                                    == pre.store().spec_marks(uk, v.testname@).push(m));
                            }
                        }
                    }
                }
                // Everyone else is exactly as before this step.
                assert forall|j: int| 0 <= j < k implies Self::user_outcome(
                    pre,
                    *self,
                    (#[trigger] names@[j])@,
                    now,
                ) by {
                    assert(names@[j]@ != uk);
                    assert(Self::user_outcome(pre, prev, names@[j]@, now));
                }
                assert forall|j: int| k + 1 <= j < names@.len() implies Self::user_untouched(
                    pre,
                    *self,
                    (#[trigger] names@[j])@,
                ) by {
                    assert(names@[j]@ != uk);
                    assert(Self::user_untouched(pre, prev, names@[j]@));
                }
                assert forall|u: Seq<char>, t: Seq<char>|
                    !(pre.table().contains_key(u) && pre.table()[u].testname@ == t
                        && Self::sweep_due(pre.cfg(), pre.table()[u], now)) implies #[trigger]
                    self.store().spec_marks(u, t) == pre.store().spec_marks(u, t) by {
                    if u != uk {
                        assert(self.store().spec_marks(u, t) == prev.store().spec_marks(u, t));
                    } else {
                        if prev.table().contains_key(uk) && Self::sweep_due(
                            prev.cfg(),
                            prev.table()[uk],
                            now,
                        ) {
                            assert(Self::swept(prev, *self, prev.table()[uk]));
                            assert(prev.table()[uk] == pre.table()[uk]);
                            assert(self.store().spec_marks(u, t) == prev.store().spec_marks(
                                u,
                                t,
                            ));
                        } else {
                            assert(self.store().spec_marks(u, t) == prev.store().spec_marks(
                                u,
                                t,
                            ));
                        }
                    }
                }
            }
            k = k + 1;
        }
        proof {
            assert forall|u: Seq<char>| #[trigger]
                pre.table().contains_key(u) implies Self::user_outcome(pre, *self, u, now) by {
                lemma_table_of_contains(pre_vec, u);
                let j = choose|j: int| 0 <= j < pre_vec.len() && (#[trigger] pre_vec[j]).username@
                    == u;
                assert(names@[j]@ == u);
            }
        }
    }

    /// A session untouched so far by the sweep: still present, unchanged,
    /// its mark history unchanged.
    pub open spec fn user_untouched(pre: Self, cur: Self, u: Seq<char>) -> bool {
        pre.table().contains_key(u) ==> {
            &&& cur.table().contains_key(u)
            &&& cur.table()[u] == pre.table()[u]
            &&& cur.store().spec_marks(u, pre.table()[u].testname@) == pre.store().spec_marks(
                u,
                pre.table()[u].testname@,
            )
        }
    }

    /// One sweep step: finalizes the named user's variant when it is due,
    /// touching nothing else.
    fn sweep_one(&mut self, username: &String, now: u64)
        requires
            old(self).wf(),
        ensures
            final(self).wf(),
            final(self).cfg() == old(self).cfg(),
            forall|u2: Seq<char>|
                u2 != username@ ==> ((final(self).table().contains_key(u2) <==> old(self).table().contains_key(u2)) && (old(self).table().contains_key(u2) ==> final(self).table()[u2] == old(self).table()[u2])),
            forall|u2: Seq<char>, t2: Seq<char>|
                u2 != username@ ==> #[trigger] final(self).store().spec_marks(u2, t2) == old(self).store().spec_marks(u2, t2),
            forall|u2: Seq<char>| #[trigger]
                final(self).table().contains_key(u2) ==> old(self).table().contains_key(u2),
            Self::sweep_one_post(*old(self), *final(self), username@, now),
    {
        let found = self.find_index(username);
        let i = match found {
            Some(i) => i,
            None => {
                proof {
                    lemma_table_of_not_contains(self.variants@, username@);
                }
                return ;
            },
        };
        proof {
            lemma_table_of_index(self.variants@, i as int);
        }
        let st = match self.config.test_settings(&self.variants[i].testname) {
            Some(st) => st,
            None => { return },
        };
        let expired = match self.variants[i].start_timestamp {
            Some(ts) => now > ts && ((now - ts) as u128) > (st.test_duration_minutes as u128)
                * 60,
            None => false,
        };
        if !expired {
            return ;
        }
        let ghost v0 = self.variants@[i as int];
        proof {
            lemma_table_of_remove(self.variants@, i as int);
            lemma_vec_remove_facts(self.variants@, i as int);
        }
        let v = self.variants.remove(i);
        let ghost mid = *self;
        match self.try_finalize(v, now) {
            None => {
                proof {
                    assert(self.table() == old(self).table().remove(username@));
                    let m = choose|m: Score|
                        m.is_sum_of(v0.scores()) && m.wf() && self.store().spec_marks(
                            v0.username@,
                            v0.testname@,
                        ) == mid.store().spec_marks(v0.username@, v0.testname@).push(m);
                    assert(m.is_sum_of(v0.scores()) && m.wf() && self.store().spec_marks(
                        v0.username@,
                        v0.testname@,
                    ) == old(self).store().spec_marks(v0.username@, v0.testname@).push(m));
                    assert forall|u2: Seq<char>, t2: Seq<char>|
                        !(u2 == v0.username@ && t2 == v0.testname@) implies #[trigger]
                        self.store().spec_marks(u2, t2) == old(self).store().spec_marks(
                        u2,
                        t2,
                    ) by {
                        assert(self.store().spec_marks(u2, t2) == mid.store().spec_marks(u2, t2));
                    }
                    assert(Self::swept(*old(self), *self, v0));
                }
            },
            Some(v2) => {
                let ghost fin = *self;
                proof {
                    lemma_table_of_push(self.variants@, v2);
                    lemma_table_of_contains(self.variants@, username@);
                    assert(!self.table().contains_key(username@));
                }
                let ghost before_push = self.variants@;
                self.variants.push(v2);
                proof {
                    assert forall|p: int, q: int|
                        0 <= p < q < self.variants@.len() implies self.variants@[p].username@
                        != self.variants@[q].username@ by {
                        if q == self.variants@.len() - 1 {
                            assert(before_push[p].username@ != username@);
                        }
                    }
                    assert(old(self).table().remove(username@).insert(username@, v2) =~= old(
                        self,
                    ).table().insert(username@, v2));
                    assert forall|u2: Seq<char>, t2: Seq<char>| #[trigger]
                        self.store().spec_marks(u2, t2) == old(self).store().spec_marks(
                        u2,
                        t2,
                    ) by {
                        assert(self.store() == fin.store());
                        assert(fin.store().spec_marks(u2, t2) == mid.store().spec_marks(u2, t2));
                    }
                    assert(Self::swept(*old(self), *self, v0));
                }
            },
        }
    }

    /// The usernames of all open variants, in table order.
    fn collect_usernames(&self) -> (r: Vec<String>)
        ensures
            r@.len() == self.variants@.len(),
            forall|j: int| 0 <= j < r@.len() ==> (#[trigger] r@[j])@ == self.variants@[j].username@,
    {
        let mut r: Vec<String> = Vec::new();
        let mut i: usize = 0;
        while i < self.variants.len()
            invariant
                i <= self.variants@.len(),
                r@.len() == i,
                forall|j: int| 0 <= j < i ==> (#[trigger] r@[j])@ == self.variants@[j].username@,
            decreases self.variants@.len() - i,
        {
            r.push(self.variants[i].username.clone());
            i = i + 1;
        }
        r
    }

    /// Finds the position of the user's open variant, if any.
    fn find_index(&self, username: &String) -> (r: Option<usize>)
        ensures
            r matches Some(i) ==> i < self.variants@.len() && self.variants@[i as int].username@
                == username@,
            r is None ==> forall|i: int|
                0 <= i < self.variants@.len() ==> (#[trigger] self.variants@[i]).username@
                    != username@,
    {
        let mut i: usize = 0;
        while i < self.variants.len()
            invariant
                i <= self.variants@.len(),
                forall|j: int|
                    0 <= j < i ==> (#[trigger] self.variants@[j]).username@ != username@,
            decreases self.variants@.len() - i,
        {
            if self.variants[i].username.eq(username) {
                return Some(i);
            }
            i = i + 1;
        }
        None
    }
}

/// A user without access can change nothing: both request-question and
/// submit-answer refuse, and the session table and the mark store stay
/// exactly as they were.
pub proof fn lemma_access_denied_mutates_nothing<C: Config, D: Database>(
    pre: Examiner<C, D>,
    post_q: Examiner<C, D>,
    post_a: Examiner<C, D>,
    u: Seq<char>,
    t: Seq<char>,
    a: Answer,
    now: u64,
    rq: Response,
    ra: Response,
)
    requires
        !pre.cfg().spec_has_access(u, t),
        Examiner::<C, D>::next_question_post(pre, post_q, u, t, now, rq),
        Examiner::<C, D>::put_answer_post(pre, post_a, u, t, a, now, ra),
    ensures
        rq == Response::NotAllowedUser,
        ra == Response::NotAllowedUser,
        post_q.table() == pre.table(),
        post_a.table() == pre.table(),
        Examiner::<C, D>::store_unchanged(&pre, &post_q),
        Examiner::<C, D>::store_unchanged(&pre, &post_a),
{
}

/// A user whose attempts are exhausted, with no open variant, gets the
/// recorded history back and no new variant is created.
pub proof fn lemma_attempts_exhausted_no_variant<C: Config, D: Database>(
    pre: Examiner<C, D>,
    post: Examiner<C, D>,
    u: Seq<char>,
    t: Seq<char>,
    st: TestSettings,
    now: u64,
    r: Response,
)
    requires
        pre.cfg().spec_has_access(u, t),
        pre.cfg().spec_test_settings(t) == Some(st),
        st.number_of_attempts > 0,
        pre.store().spec_marks(u, t).len() >= st.number_of_attempts as nat,
        !pre.table().contains_key(u),
        Examiner::<C, D>::next_question_post(pre, post, u, t, now, r),
    ensures
        r matches Response::End { marks } && crate::network::marks_match(
            marks,
            pre.store().spec_marks(u, t),
            Some(st),
        ),
        post.table() == pre.table(),
        Examiner::<C, D>::store_unchanged(&pre, &post),
{
}

/// Finalization happens at most once per variant: once no variant is open
/// for the user, a further request-question call never records another
/// mark; it can only answer, refuse, or open a fresh, empty variant.
pub proof fn lemma_finalize_once<C: Config, D: Database>(
    pre: Examiner<C, D>,
    post: Examiner<C, D>,
    u: Seq<char>,
    t: Seq<char>,
    now: u64,
    r: Response,
)
    requires
        !pre.table().contains_key(u),
        Examiner::<C, D>::next_question_post(pre, post, u, t, now, r),
    ensures
        Examiner::<C, D>::store_unchanged(&pre, &post),
        post.table().contains_key(u) ==> {
            let v = post.table()[u];
            &&& v.answers@.len() == 0
            &&& v.start_timestamp is None
            &&& v.result is None
        },
{
    if pre.cfg().spec_has_access(u, t) {
        match pre.cfg().spec_test_settings(t) {
            Some(st) => {
                if pre.attempts_left(u, t, st) {
                    if r matches Response::TestStarted { banner } {
                        let v = choose|v: Variant|
                            post.table() == #[trigger] pre.table().insert(u, v)
                                && Examiner::<C, D>::fresh_variant(pre.cfg(), v, u, t, st);
                        assert(post.table()[u] == v);
                    }
                }
            },
            None => {},
        }
    }
}

/// Sweep correctness: a variant whose timestamp is set and whose time
/// limit has elapsed is handled by the very next sweep — its exact total
/// is recorded and it leaves the table, or, when persisting fails, it is
/// retained unchanged for a retry. A variant that never issued a question
/// has no timestamp and is never swept.
pub proof fn lemma_sweep_correct<C: Config, D: Database>(
    pre: Examiner<C, D>,
    post: Examiner<C, D>,
    now: u64,
    u: Seq<char>,
)
    requires
        pre.table().contains_key(u),
        Examiner::<C, D>::sweep_post(pre, post, now),
    ensures
        Examiner::<C, D>::sweep_due(pre.cfg(), pre.table()[u], now) ==> {
            let v = pre.table()[u];
            ||| {
                &&& !post.table().contains_key(u)
                &&& exists|m: Score|
                    #[trigger] m.is_sum_of(v.scores()) && m.wf() && post.store().spec_marks(
                        u,
                        v.testname@,
                    ) == pre.store().spec_marks(u, v.testname@).push(m)
            }
            ||| {
                &&& post.table().contains_key(u)
                &&& Examiner::<C, D>::retained_variant(v, post.table()[u])
                &&& post.store().spec_marks(u, v.testname@) == pre.store().spec_marks(
                    u,
                    v.testname@,
                )
            }
        },
        pre.table()[u].start_timestamp is None ==> post.table().contains_key(u)
            && post.table()[u] == pre.table()[u],
{
    assert(Examiner::<C, D>::user_outcome(pre, post, u, now));
}

/// Membership in the session table is exactly membership in the vector.
pub proof fn lemma_table_of_contains(s: Seq<Variant>, u: Seq<char>)
    ensures
        table_of(s).contains_key(u) <==> exists|i: int|
            0 <= i < s.len() && (#[trigger] s[i]).username@ == u,
    decreases s.len(),
{
    if s.len() > 0 {
        lemma_table_of_contains(s.drop_last(), u);
        if s.last().username@ == u {
            assert(s[s.len() - 1].username@ == u);
        } else if table_of(s).contains_key(u) {
            let i = choose|i: int| 0 <= i < s.len() - 1 && (#[trigger] s.drop_last()[i]).username@
                == u;
            assert(s[i].username@ == u);
        } else {
            assert forall|i: int| 0 <= i < s.len() implies (#[trigger] s[i]).username@ != u by {
                if i < s.len() - 1 {
                    assert(s.drop_last()[i] == s[i]);
                }
            }
        }
    }
}

/// With unique users, the table maps each stored username to its variant.
pub proof fn lemma_table_of_index(s: Seq<Variant>, i: int)
    requires
        unique_users(s),
        0 <= i < s.len(),
    ensures
        table_of(s).contains_key(s[i].username@),
        table_of(s)[s[i].username@] == s[i],
    decreases s.len(),
{
    if i == s.len() - 1 {
        assert(s.last() == s[i]);
    } else {
        lemma_table_of_index(s.drop_last(), i);
        assert(s.drop_last()[i] == s[i]);
        assert(s.last().username@ != s[i].username@);
    }
}

/// Appending a variant for a fresh user inserts it into the table.
pub proof fn lemma_table_of_push(s: Seq<Variant>, v: Variant)
    ensures
        table_of(s.push(v)) == table_of(s).insert(v.username@, v),
{
    assert(s.push(v).drop_last() =~= s);
    assert(s.push(v).last() == v);
}

/// Removing the variant at one index removes its username from the table.
pub proof fn lemma_table_of_remove(s: Seq<Variant>, i: int)
    requires
        unique_users(s),
        0 <= i < s.len(),
    ensures
        table_of(s.remove(i)) == table_of(s).remove(s[i].username@),
    decreases s.len(),
{
    let s2 = s.remove(i);
    if i == s.len() - 1 {
        assert(s2 =~= s.drop_last());
        lemma_table_of_not_contains(s.drop_last(), s[i].username@);
        assert(table_of(s.drop_last()) =~= table_of(s.drop_last()).insert(
            s.last().username@,
            s.last(),
        ).remove(s[i].username@));
    } else {
        lemma_table_of_remove(s.drop_last(), i);
        assert(s2.drop_last() =~= s.drop_last().remove(i));
        assert(s2.last() == s.last());
        assert(table_of(s2) == table_of(s.drop_last()).remove(s[i].username@).insert(
            s.last().username@,
            s.last(),
        ));
        assert(s.last().username@ != s[i].username@);
        assert(table_of(s.drop_last()).remove(s[i].username@).insert(
            s.last().username@,
            s.last(),
        ) =~= table_of(s.drop_last()).insert(s.last().username@, s.last()).remove(
            s[i].username@,
        ));
    }
}

/// Removing one element keeps usernames unique and elements well formed,
/// and no element with the removed username remains.
pub proof fn lemma_vec_remove_facts(s: Seq<Variant>, i: int)
    requires
        unique_users(s),
        forall|j: int| 0 <= j < s.len() ==> (#[trigger] s[j]).wf(),
        0 <= i < s.len(),
    ensures
        unique_users(s.remove(i)),
        forall|j: int| 0 <= j < s.remove(i).len() ==> (#[trigger] s.remove(i)[j]).wf(),
        forall|j: int|
            0 <= j < s.remove(i).len() ==> (#[trigger] s.remove(i)[j]).username@
                != s[i].username@,
{
    let s2 = s.remove(i);
    assert forall|j: int| 0 <= j < s2.len() implies (#[trigger] s2[j]).wf() && s2[j].username@
        != s[i].username@ by {
        if j < i {
            assert(s2[j] == s[j]);
        } else {
            assert(s2[j] == s[j + 1]);
        }
    }
    assert forall|p: int, q: int| 0 <= p < q < s2.len() implies s2[p].username@
        != s2[q].username@ by {
        if q < i {
        } else if p < i {
            assert(s2[p] == s[p] && s2[q] == s[q + 1]);
        } else {
            assert(s2[p] == s[p + 1] && s2[q] == s[q + 1]);
        }
    }
}

/// A username stored by no variant is absent from the table.
pub proof fn lemma_table_of_not_contains(s: Seq<Variant>, u: Seq<char>)
    requires
        forall|i: int| 0 <= i < s.len() ==> (#[trigger] s[i]).username@ != u,
    ensures
        !table_of(s).contains_key(u),
{
    lemma_table_of_contains(s, u);
}

} // verus!
