//! The work-queue front of the engine.
//!
//! Two producers exist: the transport enqueues client requests, a timer
//! enqueues sweep ticks. The engine processes work items strictly one at a
//! time, in arrival order, so no two operations ever interleave on the
//! session table; `start_server` states exactly that, as the sequential
//! composition of the per-operation contracts.

use vstd::prelude::*;

use crate::config::Config;
use crate::db::Database;
use crate::examiner::Examiner;
use crate::network::{Command, Request, Response};

verus! {

/// What the engine needs from its transport: one request out of the
/// queue, one response back. Implementations live outside the verified
/// crate, next to their sockets.
pub trait Server {
    /// Takes the next pending request, if any.
    fn pop_request(&mut self) -> Option<Request>;

    /// Routes a response back to the requester.
    fn push_response(&mut self, response: Response);
}

/// One unit of routed work: a client request, or the timer's sweep tick.
#[derive(Debug, PartialEq)]
pub enum Tick {
    CollectCompletedTests,
    Request { request: Request },
}

/// A work item as the engine loop dequeues it: the tick and the wall-clock
/// second at which it is processed.
#[derive(Debug, PartialEq)]
pub struct WorkItem {
    pub tick: Tick,
    pub now: u64,
}

impl Request {
    /// A submitted answer is normalized; other commands carry nothing.
    pub open spec fn wf(&self) -> bool {
        match self.command {
            Command::PutAnswer { answer } => answer.wf(),
            _ => true,
        }
    }
}

impl Tick {
    pub open spec fn wf(&self) -> bool {
        match self {
            Tick::Request { request } => request.wf(),
            Tick::CollectCompletedTests => true,
        }
    }
}

impl WorkItem {
    pub open spec fn wf(&self) -> bool {
        self.tick.wf()
    }
}

impl<C: Config, D: Database> Examiner<C, D> {
    /// What one request does, by its command: exactly the contract of the
    /// operation it names.
    pub open spec fn serve_post(
        pre: Self,
        post: Self,
        request: Request,
        now: u64,
        r: Response,
    ) -> bool {
        match request.command {
            Command::GetAvaliableTests => Self::avaliable_tests_post(
                pre,
                post,
                request.user@,
                r,
            ),
            Command::StartTest => Self::banner_post(pre, post, request.user@, request.test@, r),
            Command::GetNextQuestion => Self::next_question_post(
                pre,
                post,
                request.user@,
                request.test@,
                now,
                r,
            ),
            Command::PutAnswer { answer } => Self::put_answer_post(
                pre,
                post,
                request.user@,
                request.test@,
                answer,
                now,
                r,
            ),
        }
    }

    /// What one work item does: a sweep tick runs the collector and yields
    /// no response; a request yields exactly one.
    pub open spec fn step_post(pre: Self, post: Self, item: WorkItem, r: Option<Response>) -> bool {
        match item.tick {
            Tick::CollectCompletedTests => r is None && Self::sweep_post(pre, post, item.now),
            Tick::Request { request } => r matches Some(resp) && Self::serve_post(
                pre,
                post,
                request,
                item.now,
                resp,
            ),
        }
    }

    /// The engine processed the work items one at a time, in order:
    /// `states` is the chain of engine states, and each consecutive pair
    /// is exactly one work item's contract. Work item `i` got reply
    /// `outs[i]`: one response per request, none for a sweep tick.
    pub open spec fn trace_ok(
        pre: Self,
        post: Self,
        states: Seq<Self>,
        work: Seq<WorkItem>,
        outs: Seq<Option<Response>>,
    ) -> bool {
        &&& states.len() == work.len() + 1
        &&& outs.len() == work.len()
        &&& states[0] == pre
        &&& states[states.len() - 1] == post
        &&& forall|i: int| 0 <= i < work.len() ==> (#[trigger] states[i + 1]).wf()
        &&& forall|i: int|
            0 <= i < work.len() ==> Self::step_post(
                states[i],
                states[i + 1],
                work[i],
                #[trigger] outs[i],
            )
    }

    /// The observable effect of the engine loop is that of processing the
    /// enqueued work items strictly in order, one at a time: some chain of
    /// states steps through the per-item contracts.
    pub open spec fn runs(pre: Self, post: Self, work: Seq<WorkItem>, outs: Seq<Option<Response>>) -> bool {
        exists|states: Seq<Self>| #[trigger] Self::trace_ok(pre, post, states, work, outs)
    }

    /// Dispatches one client request to the operation it names.
    pub fn serve_request(&mut self, request: Request, now: u64) -> (r: Response)
        requires
            old(self).wf(),
            request.wf(),
        ensures
            final(self).wf(),
            Self::serve_post(*old(self), *final(self), request, now, r),
    {
        let Request { user, test, command } = request;
        match command {
            Command::GetAvaliableTests => self.avaliable_tests(&user),
            Command::StartTest => self.banner_to_start_test(&user, &test),
            Command::GetNextQuestion => self.next_question(&user, &test, now),
            Command::PutAnswer { answer } => self.put_answer(&user, &test, &answer, now),
        }
    }
}

/// The engine loop, on an already received queue: processes every work
/// item strictly in arrival order, one at a time, and returns the
/// responses, one per request. However the producers interleaved while
/// enqueuing, the observable effect is that of this sequential processing.
/// The engine loop, on an already received queue: processes every work
/// item strictly in arrival order, one at a time, and returns the replies,
/// one slot per item — a response for each request, none for a sweep tick.
/// However the producers interleaved while enqueuing, the observable
/// effect is exactly that of this sequential processing: no update is
/// lost, and no session is finalized twice.
pub fn start_server<C: Config, D: Database>(
    examiner: &mut Examiner<C, D>,
    work: Vec<WorkItem>,
) -> (responses: Vec<Option<Response>>)
    requires
        old(examiner).wf(),
        forall|i: int| 0 <= i < work@.len() ==> (#[trigger] work@[i]).wf(),
    ensures
        final(examiner).wf(),
        responses@.len() == work@.len(),
        Examiner::<C, D>::runs(*old(examiner), *final(examiner), work@, responses@),
{
    let ghost orig = work@;
    let mut work = work;
    let mut responses: Vec<Option<Response>> = Vec::new();
    let ghost mut done: Seq<WorkItem> = Seq::empty();
    let ghost mut states: Seq<Examiner<C, D>> = seq![*examiner];
    while work.len() > 0
        invariant
            examiner.wf(),
            done + work@ == orig,
            forall|i: int| 0 <= i < work@.len() ==> (#[trigger] work@[i]).wf(),
            Examiner::<C, D>::trace_ok(*old(examiner), *examiner, states, done, responses@),
        decreases work@.len(),
    {
        proof {
            assert(work@[0].wf());
        }
        let item = work.remove(0);
        let ghost prev = *examiner;
        let ghost pre_resp = responses@;
        let ghost pre_done = done;
        let ghost gitem: WorkItem;
        let r: Option<Response>;
        match item.tick {
            Tick::CollectCompletedTests => {
                proof {
                    gitem = WorkItem { tick: Tick::CollectCompletedTests, now: item.now };
                }
                examiner.variant_collector(item.now);
                r = None;
            },
            Tick::Request { request } => {
                proof {
                    gitem = WorkItem { tick: Tick::Request { request }, now: item.now };
                }
                let resp = examiner.serve_request(request, item.now);
                r = Some(resp);
            },
        }
        let ghost gr = r;
        responses.push(r);
        proof {
            done = pre_done.push(gitem);
            states = states.push(*examiner);
            assert(Examiner::<C, D>::step_post(prev, *examiner, gitem, gr));
            assert forall|i: int| 0 <= i < done.len() implies Examiner::<C, D>::step_post(
                states[i],
                states[i + 1],
                done[i],
                #[trigger] responses@[i],
            ) by {
                if i < pre_done.len() {
                    assert(Examiner::<C, D>::step_post(
                        states[i],
                        states[i + 1],
                        pre_done[i],
                        pre_resp[i],
                    ));
                }
            }
            assert(Examiner::<C, D>::trace_ok(*old(examiner), *examiner, states, done, responses@));
            assert(done + work@ =~= orig);
        }
    }
    proof {
        assert(done =~= orig);
        assert(Examiner::<C, D>::trace_ok(*old(examiner), *examiner, states, orig, responses@));
    }
    responses
}

} // verus!
