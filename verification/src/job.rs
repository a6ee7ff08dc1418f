//! Jobs: host work in progress.
//!
//! A job is a list of steps. Whoever works it off performs the action of the first step, hands
//! the host's reply back, and goes on until no step is left. What a reply leads to is decided
//! here: which steps come next, what is undone, and whether the work has failed.

use crate::follow;
use crate::step;
use crate::step::{Action, Block, Cause, Failure, Next, Reply, Step};
use vstd::prelude::*;

verus! {

/// Host work in progress.
#[derive(Debug, PartialEq, Eq)]
pub struct Job {
    /// What is still to be done; the first step is the one at hand.
    pub todo: Vec<Step>,
    /// What undoes the work where a step says so.
    pub undo: Vec<Step>,
    /// What is done in place of the work where it fails, if anything.
    pub instead: Option<Vec<Step>>,
    /// What went wrong first.
    pub failure: Option<Failure>,
}

/// What a [`Job`] is.
pub struct JobView {
    pub todo: Seq<step::StepView>,
    pub undo: Seq<step::StepView>,
    pub instead: Option<Seq<step::StepView>>,
    pub failure: Option<step::FailureView>,
}

impl View for Job {
    type V = JobView;

    open spec fn view(&self) -> JobView {
        JobView {
            todo: step::plan(self.todo@),
            undo: step::plan(self.undo@),
            instead: match self.instead {
                Some(s) => Some(step::plan(s@)),
                None => None,
            },
            failure: match self.failure {
                Some(f) => Some(f@),
                None => None,
            },
        }
    }
}

/// Work that just starts.
pub open spec fn fresh(todo: Seq<step::StepView>, undo: Seq<step::StepView>) -> JobView {
    JobView { todo, undo, instead: None, failure: None }
}

impl Job {
    /// Starts work.
    pub fn new(todo: Vec<Step>) -> (r: Job)
        ensures
            r@ == fresh(step::plan(todo@), Seq::empty()),
    {
        Job { todo, undo: step::no_steps(), instead: None, failure: None }
    }

    /// Starts work that can be undone.
    pub fn with_undo(todo: Vec<Step>, undo: Vec<Step>) -> (r: Job)
        ensures
            r@ == fresh(step::plan(todo@), step::plan(undo@)),
    {
        Job { todo, undo, instead: None, failure: None }
    }
}

// ---------------------------------------------------------------------------------------------
// Working a job off
// ---------------------------------------------------------------------------------------------

/// What is left of some steps behind those of a block at their start.
pub open spec fn left(rest: Seq<step::StepView>, block: Block) -> Seq<step::StepView>
    decreases rest.len(),
{
    if rest.len() > 0 && rest[0].block == block {
        left(rest.skip(1), block)
    } else {
        rest
    }
}

/// What is left of some steps where the work goes on as `next` says.
pub open spec fn onward(rest: Seq<step::StepView>, next: Next, block: Block) -> Seq<
    step::StepView,
> {
    match next {
        Next::Skip(n) => if n < rest.len() {
            rest.skip(n as int)
        } else {
            Seq::empty()
        },
        Next::Leave => left(rest, block),
        Next::Abort | Next::Unwind => rest,
    }
}

/// Of two failures, the one that came first.
pub open spec fn first(earlier: Option<step::FailureView>, later: step::FailureView) -> Option<
    step::FailureView,
> {
    match earlier {
        Some(f) => Some(f),
        None => Some(later),
    }
}

/// The work where a step has failed that goes on as `next` says. Work that has something to be
/// done in its place goes on with that, and has not failed.
pub open spec fn failing(
    job: JobView,
    rest: Seq<step::StepView>,
    next: Next,
    block: Block,
    failure: step::FailureView,
) -> JobView {
    match next {
        Next::Skip(_) | Next::Leave => JobView { todo: onward(rest, next, block), ..job },
        Next::Abort => match job.instead {
            Some(steps) => JobView { todo: steps, instead: None, ..job },
            None => JobView { todo: Seq::empty(), failure: first(job.failure, failure), ..job },
        },
        Next::Unwind => JobView {
            todo: job.undo,
            undo: Seq::empty(),
            failure: first(job.failure, failure),
            ..job
        },
    }
}

/// The work behind the host's reply to its first step.
pub open spec fn resumed(job: JobView, reply: step::ReplyView) -> JobView {
    if job.todo.len() == 0 {
        job
    } else {
        let head = job.todo[0];
        let rest = job.todo.skip(1);
        match (head.action, reply) {
            (step::ActionView::Refuse { reason }, _) => failing(
                job,
                rest,
                head.on_failure,
                head.block,
                step::FailureView {
                    context: head.context,
                    cause: step::CauseView::Refused(reason),
                },
            ),
            (_, step::ReplyView::Failed(words)) => failing(
                job,
                rest,
                head.on_failure,
                head.block,
                step::FailureView { context: head.context, cause: step::CauseView::Host(words) },
            ),
            (_, step::ReplyView::Missing(words)) => failing(
                job,
                rest,
                head.on_missing,
                head.block,
                step::FailureView {
                    context: head.missing_context,
                    cause: step::CauseView::Host(words),
                },
            ),
            _ => match follow::answered(head.follow, reply) {
                Err(refusal) => failing(
                    job,
                    rest,
                    head.on_failure,
                    head.block,
                    step::FailureView {
                        context: follow::context_of(head.follow, refusal),
                        cause: step::CauseView::Refused(refusal),
                    },
                ),
                Ok(answer) => JobView {
                    todo: answer.steps + (if answer.leave {
                        left(rest, head.block)
                    } else {
                        onward(rest, head.on_success, head.block)
                    }),
                    ..job
                },
            },
        }
    }
}

/// Drops the steps of a block at the start of a list.
fn drop_block(steps: &mut Vec<Step>, block: Block)
    ensures
        step::plan(final(steps)@) == left(step::plan(old(steps)@), block),
{
    let ghost all = step::plan(steps@);
    let mut k: usize = 0;
    assert(all.skip(0) =~= all);
    while k < steps.len() && steps[k].block == block
        invariant
            k <= steps.len(),
            all == step::plan(steps@),
            left(all, block) == left(all.skip(k as int), block),
        decreases steps.len() - k,
    {
        assert(all.skip(k as int)[0] == steps@[k as int]@);
        assert(all.skip(k as int).skip(1) =~= all.skip(k + 1));
        k += 1;
    }
    assert(k < steps.len() ==> all.skip(k as int)[0] == steps@[k as int]@);
    let rest = steps.split_off(k);
    assert(step::plan(rest@) =~= all.skip(k as int));
    *steps = rest;
}

/// Drops the steps that the work does not go on with.
fn drop_to(steps: &mut Vec<Step>, next: Next, block: Block)
    ensures
        step::plan(final(steps)@) == onward(step::plan(old(steps)@), next, block),
{
    let ghost all = step::plan(steps@);
    match next {
        Next::Skip(n) => {
            if n < steps.len() {
                let rest = steps.split_off(n);
                assert(step::plan(rest@) =~= all.skip(n as int));
                *steps = rest;
            } else {
                steps.clear();
                assert(step::plan(steps@) =~= Seq::<step::StepView>::empty());
            }
        },
        Next::Leave => {
            drop_block(steps, block);
        },
        Next::Abort | Next::Unwind => {},
    }
}

impl Job {
    /// The action that is at hand, if there is anything left to do.
    pub fn current(&self) -> (r: Option<&Action>)
        ensures
            match r {
                Some(action) => self@.todo.len() > 0 && action@ == self@.todo[0].action,
                None => self@.todo.len() == 0,
            },
    {
        if self.todo.len() == 0 {
            return None;
        }
        assert(self@.todo[0] == self.todo@[0]@);
        Some(&self.todo[0].action)
    }

    fn fail(&mut self, next: Next, block: Block, context: String, cause: Cause)
        ensures
            final(self)@ == failing(
                old(self)@,
                old(self)@.todo,
                next,
                block,
                step::FailureView { context: context@, cause: cause@ },
            ),
    {
        match next {
            Next::Skip(_) | Next::Leave => {
                drop_to(&mut self.todo, next, block);
            },
            Next::Abort => {
                match self.instead.take() {
                    Some(steps) => {
                        self.todo = steps;
                    },
                    None => {
                        self.todo = step::no_steps();
                        if self.failure.is_none() {
                            self.failure = Some(Failure { context, cause });
                        }
                    },
                }
            },
            Next::Unwind => {
                let mut undo = step::no_steps();
                std::mem::swap(&mut undo, &mut self.undo);
                self.todo = undo;
                if self.failure.is_none() {
                    self.failure = Some(Failure { context, cause });
                }
            },
        }
    }

    /// Goes on from the host's reply to the action at hand.
    pub fn resume(&mut self, reply: Reply)
        ensures
            final(self)@ == resumed(old(self)@, reply@),
    {
        if self.todo.len() == 0 {
            return;
        }
        let ghost before = self@;
        let head = self.todo.remove(0);
        assert(head@ == before.todo[0]);
        assert(self@.todo =~= before.todo.skip(1));
        if let Action::Refuse { reason } = head.action {
            self.fail(head.on_failure, head.block, head.context, Cause::Refused(reason));
            return;
        }
        match reply {
            Reply::Failed(words) => {
                self.fail(head.on_failure, head.block, head.context, Cause::Host(words));
            },
            Reply::Missing(words) => {
                self.fail(head.on_missing, head.block, head.missing_context, Cause::Host(words));
            },
            reply => match follow::answer(&head.follow, &reply) {
                Err(refusal) => {
                    let context = follow::context_for(&head.follow, refusal);
                    self.fail(head.on_failure, head.block, context, Cause::Refused(refusal));
                },
                Ok(answer) => {
                    if answer.leave {
                        drop_block(&mut self.todo, head.block);
                    } else {
                        drop_to(&mut self.todo, head.on_success, head.block);
                    }
                    let mut todo = answer.steps;
                    let mut rest = step::no_steps();
                    std::mem::swap(&mut rest, &mut self.todo);
                    step::add_steps(&mut todo, rest);
                    self.todo = todo;
                },
            },
        }
    }
}

// ---------------------------------------------------------------------------------------------
// How work runs
// ---------------------------------------------------------------------------------------------

/// The work behind several replies. Replies that nobody waits for any more change nothing.
pub open spec fn after(job: JobView, replies: Seq<step::ReplyView>) -> JobView
    decreases replies.len(),
{
    if replies.len() == 0 {
        job
    } else {
        after(resumed(job, replies[0]), replies.skip(1))
    }
}

/// How much work can come of a step, itself included.
pub open spec fn effort(s: step::StepView) -> nat {
    match s.follow {
        step::FollowView::Nothing | step::FollowView::XdpFree { iface: _ } => 1,
        step::FollowView::XdpOwner { iface: _, fail: _ } => 3,
        step::FollowView::XdpIface { meta: _, root: _, fail: _ } => 8,
        _ => 2,
    }
}

/// How much work can come of several steps.
pub open spec fn efforts(steps: Seq<step::StepView>) -> nat
    decreases steps.len(),
{
    if steps.len() == 0 {
        0
    } else {
        effort(steps[0]) + efforts(steps.skip(1))
    }
}

/// How much work can come of a job.
pub open spec fn remaining(job: JobView) -> nat {
    efforts(job.todo) + efforts(job.undo) + (match job.instead {
        Some(steps) => efforts(steps),
        None => 0,
    })
}

proof fn lemma_efforts_add(a: Seq<step::StepView>, b: Seq<step::StepView>)
    ensures
        efforts(a + b) == efforts(a) + efforts(b),
    decreases a.len(),
{
    if a.len() == 0 {
        assert(a + b =~= b);
    } else {
        assert((a + b).skip(1) =~= a.skip(1) + b);
        lemma_efforts_add(a.skip(1), b);
    }
}

proof fn lemma_efforts_skip(a: Seq<step::StepView>, n: nat)
    requires
        n <= a.len(),
    ensures
        efforts(a.skip(n as int)) <= efforts(a),
{
    assert(a =~= a.take(n as int) + a.skip(n as int));
    lemma_efforts_add(a.take(n as int), a.skip(n as int));
}

proof fn lemma_efforts_left(a: Seq<step::StepView>, block: Block)
    ensures
        efforts(left(a, block)) <= efforts(a),
    decreases a.len(),
{
    if a.len() > 0 && a[0].block == block {
        lemma_efforts_left(a.skip(1), block);
    }
}

proof fn lemma_efforts_onward(a: Seq<step::StepView>, next: Next, block: Block)
    ensures
        efforts(onward(a, next, block)) <= efforts(a),
{
    match next {
        Next::Skip(n) => {
            if n < a.len() {
                lemma_efforts_skip(a, n as nat);
            }
        },
        Next::Leave => {
            lemma_efforts_left(a, block);
        },
        _ => {},
    }
}

proof fn lemma_answer_is_less(s: step::StepView, reply: step::ReplyView)
    ensures
        follow::answered(s.follow, reply) matches Ok(a) ==> efforts(a.steps) < effort(s),
{
    reveal_with_fuel(efforts, 4);
}

proof fn lemma_failing_is_no_more(
    job: JobView,
    rest: Seq<step::StepView>,
    next: Next,
    block: Block,
    failure: step::FailureView,
)
    ensures
        remaining(failing(job, rest, next, block, failure)) <= remaining(
            JobView { todo: rest, ..job },
        ),
{
    lemma_efforts_onward(rest, next, block);
    assert(efforts(Seq::<step::StepView>::empty()) == 0);
}

proof fn lemma_answer_is_progress(
    head: step::StepView,
    rest: Seq<step::StepView>,
    reply: step::ReplyView,
)
    ensures
        follow::answered(head.follow, reply) matches Ok(a) ==> {
            &&& efforts(a.steps + left(rest, head.block)) < effort(head) + efforts(rest)
            &&& efforts(a.steps + onward(rest, head.on_success, head.block)) < effort(head)
                + efforts(rest)
        },
{
    lemma_answer_is_less(head, reply);
    if let Ok(a) = follow::answered(head.follow, reply) {
        lemma_efforts_left(rest, head.block);
        lemma_efforts_onward(rest, head.on_success, head.block);
        lemma_efforts_add(a.steps, left(rest, head.block));
        lemma_efforts_add(a.steps, onward(rest, head.on_success, head.block));
    }
}

/// Every reply takes the work forward: what can still come of it gets less.
pub proof fn law_reply_is_progress(job: JobView, reply: step::ReplyView)
    requires
        job.todo.len() > 0,
    ensures
        remaining(resumed(job, reply)) < remaining(job),
{
    let head = job.todo[0];
    let rest = job.todo.skip(1);
    let next = resumed(job, reply);
    assert(remaining(JobView { todo: rest, ..job }) + effort(head) == remaining(job));
    assert forall|to: Next, failure: step::FailureView|
        remaining(#[trigger] failing(job, rest, to, head.block, failure)) < remaining(job) by {
        lemma_failing_is_no_more(job, rest, to, head.block, failure);
    }
    lemma_answer_is_progress(head, rest, reply);
    if next.undo == job.undo && next.instead == job.instead && efforts(next.todo) < efforts(
        job.todo,
    ) {
        assert(remaining(next) < remaining(job));
    }
}

/// All work comes to its end, whatever the host replies.
pub proof fn law_work_ends(job: JobView, replies: Seq<step::ReplyView>)
    requires
        replies.len() >= remaining(job),
    ensures
        after(job, replies).todo.len() == 0,
    decreases replies.len(),
{
    if job.todo.len() == 0 {
        lemma_done_stays(job, replies);
    } else {
        law_reply_is_progress(job, replies.first());
        law_work_ends(resumed(job, replies[0]), replies.skip(1));
    }
}

proof fn lemma_done_stays(job: JobView, replies: Seq<step::ReplyView>)
    requires
        job.todo.len() == 0,
    ensures
        after(job, replies) == job,
    decreases replies.len(),
{
    if replies.len() > 0 {
        lemma_done_stays(job, replies.skip(1));
    }
}

/// What went wrong first is what is reported, whatever else goes wrong while the work is undone.
pub proof fn law_first_failure_stays(job: JobView, replies: Seq<step::ReplyView>)
    requires
        job.failure is Some,
    ensures
        after(job, replies).failure == job.failure,
    decreases replies.len(),
{
    if replies.len() > 0 {
        law_first_failure_stays(resumed(job, replies[0]), replies.skip(1));
    }
}

// ---------------------------------------------------------------------------------------------
// Work that cannot fail, and work that is undone
// ---------------------------------------------------------------------------------------------

/// Whether the work goes on behind a step.
pub open spec fn goes_on(next: Next) -> bool {
    next is Skip || next is Leave
}

/// Whether neither a step nor what follows from its answer can make work fail.
pub open spec fn harmless(s: step::StepView) -> bool {
    &&& goes_on(s.on_failure)
    &&& goes_on(s.on_missing)
    &&& match s.follow {
        step::FollowView::Nothing
        | step::FollowView::RecordedIface
        | step::FollowView::ServerPid
        | step::FollowView::XdpFree { iface: _ } => true,
        step::FollowView::XdpIface { meta: _, root: _, fail } => goes_on(fail),
        step::FollowView::XdpOwner { iface: _, fail } => goes_on(fail),
        step::FollowView::XdpOwned { iface: _, owner: _, fail } => goes_on(fail),
        _ => false,
    }
}

/// Whether a step that fails, and what follows from its answer, leads to the work being undone.
pub open spec fn guarded(s: step::StepView) -> bool {
    &&& s.on_failure !is Abort
    &&& s.on_missing !is Abort
    &&& match s.follow {
        step::FollowView::Ifindex { iface: _, map: _, identity: _, default_allow: _, order: _ } => {
            false
        },
        step::FollowView::XdpIface { meta: _, root: _, fail } => fail !is Abort,
        step::FollowView::XdpOwner { iface: _, fail } => fail !is Abort,
        step::FollowView::XdpOwned { iface: _, owner: _, fail } => fail !is Abort,
        _ => true,
    }
}

/// Whether all steps are harmless.
pub open spec fn all_harmless(steps: Seq<step::StepView>) -> bool {
    forall|i: int| 0 <= i < steps.len() ==> harmless(#[trigger] steps[i])
}

/// Whether all steps are guarded.
pub open spec fn all_guarded(steps: Seq<step::StepView>) -> bool {
    forall|i: int| 0 <= i < steps.len() ==> guarded(#[trigger] steps[i])
}

proof fn lemma_left_is_rest(rest: Seq<step::StepView>, block: Block) -> (k: int)
    ensures
        0 <= k <= rest.len(),
        left(rest, block) == rest.skip(k),
    decreases rest.len(),
{
    if rest.len() > 0 && rest[0].block == block {
        let k = lemma_left_is_rest(rest.skip(1), block);
        assert(rest.skip(1).skip(k) =~= rest.skip(k + 1));
        k + 1
    } else {
        assert(rest.skip(0) =~= rest);
        0
    }
}

/// What the work goes on with is the end of what was left.
pub proof fn lemma_onward_is_rest(rest: Seq<step::StepView>, next: Next, block: Block) -> (k: int)
    ensures
        0 <= k <= rest.len(),
        onward(rest, next, block) == rest.skip(k),
{
    match next {
        Next::Skip(n) => if n < rest.len() {
            n as int
        } else {
            assert(rest.skip(rest.len() as int) =~= Seq::<step::StepView>::empty());
            rest.len() as int
        },
        Next::Leave => lemma_left_is_rest(rest, block),
        _ => {
            assert(rest.skip(0) =~= rest);
            0
        },
    }
}

/// One reply to harmless work leaves it harmless, and makes nothing fail.
proof fn lemma_harmless_step(job: JobView, reply: step::ReplyView)
    requires
        all_harmless(job.todo),
    ensures
        all_harmless(resumed(job, reply).todo),
        resumed(job, reply).failure == job.failure,
        resumed(job, reply).undo == job.undo,
{
    if job.todo.len() > 0 {
        let head = job.todo[0];
        let rest = job.todo.skip(1);
        let _ = lemma_onward_is_rest(rest, head.on_failure, head.block);
        let _ = lemma_onward_is_rest(rest, head.on_missing, head.block);
        let _ = lemma_onward_is_rest(rest, head.on_success, head.block);
        let _ = lemma_left_is_rest(rest, head.block);
        if let Ok(a) = follow::answered(head.follow, reply) {
            assert(all_harmless(a.steps));
        }
    }
}

/// Harmless work never fails, whatever the host replies.
pub proof fn law_harmless_work_succeeds(job: JobView, replies: Seq<step::ReplyView>)
    requires
        all_harmless(job.todo),
        job.failure is None,
    ensures
        after(job, replies).failure is None,
    decreases replies.len(),
{
    if replies.len() > 0 {
        lemma_harmless_step(job, replies[0]);
        law_harmless_work_succeeds(resumed(job, replies[0]), replies.skip(1));
    }
}

proof fn lemma_guarded_step(job: JobView, reply: step::ReplyView)
    requires
        all_guarded(job.todo),
        job.failure is None,
    ensures
        match resumed(job, reply).failure {
            None => {
                &&& all_guarded(resumed(job, reply).todo)
                &&& resumed(job, reply).undo == job.undo
            },
            Some(_) => resumed(job, reply).todo == job.undo,
        },
{
    if job.todo.len() > 0 {
        let head = job.todo[0];
        let rest = job.todo.skip(1);
        let _ = lemma_onward_is_rest(rest, head.on_failure, head.block);
        let _ = lemma_onward_is_rest(rest, head.on_missing, head.block);
        let _ = lemma_onward_is_rest(rest, head.on_success, head.block);
        let _ = lemma_left_is_rest(rest, head.block);
        if let Ok(a) = follow::answered(head.follow, reply) {
            assert(all_guarded(a.steps));
        }
    }
}

/// Guarded work that fails goes on with exactly what undoes it, at whatever point it fails.
pub proof fn law_guarded_work_is_undone(
    job: JobView,
    replies: Seq<step::ReplyView>,
    last: step::ReplyView,
)
    requires
        all_guarded(job.todo),
        job.failure is None,
        after(job, replies).failure is None,
        resumed(after(job, replies), last).failure is Some,
    ensures
        resumed(after(job, replies), last).todo == job.undo,
    decreases replies.len(),
{
    lemma_guarded_step(job, if replies.len() > 0 {
        replies[0]
    } else {
        last
    });
    if replies.len() > 0 {
        if resumed(job, replies[0]).failure is Some {
            law_first_failure_stays(resumed(job, replies[0]), replies.skip(1));
        }
        law_guarded_work_is_undone(resumed(job, replies[0]), replies.skip(1), last);
    }
}

// ---------------------------------------------------------------------------------------------
// Steps that cannot be passed over
// ---------------------------------------------------------------------------------------------

/// Whether the work goes on inside a list of steps, or right behind it.
pub open spec fn lands(next: Next, i: int, len: nat) -> bool {
    next matches Next::Skip(n) ==> i + 1 + n <= len
}

/// Whether a step leaves out nothing but steps of a block of its own.
pub open spec fn leaves_own(s: step::StepView) -> bool {
    &&& s.on_success is Leave || s.on_failure is Leave || s.on_missing is Leave || s.follow
        is RecordedIface ==> s.block != Block::Main
    &&& match s.follow {
        step::FollowView::XdpIface { meta: _, root: _, fail } => fail !is Skip,
        step::FollowView::XdpOwner { iface: _, fail } => fail !is Skip,
        step::FollowView::XdpOwned { iface: _, owner: _, fail } => fail !is Skip,
        _ => true,
    }
}

/// Whether a list of steps leads to what stands right behind it, and passes over none of that.
pub open spec fn leads_on(steps: Seq<step::StepView>) -> bool {
    forall|i: int| #![trigger steps[i]]
        0 <= i < steps.len() ==> {
            &&& lands(steps[i].on_success, i, steps.len())
            &&& lands(steps[i].on_failure, i, steps.len())
            &&& lands(steps[i].on_missing, i, steps.len())
            &&& leaves_own(steps[i])
        }
}

/// Lists that lead on do so together.
pub proof fn lemma_leads_on_add(a: Seq<step::StepView>, b: Seq<step::StepView>)
    requires
        leads_on(a),
        leads_on(b),
    ensures
        leads_on(a + b),
{
    let c = a + b;
    assert forall|i: int| #![trigger c[i]] 0 <= i < c.len() implies {
        &&& lands(c[i].on_success, i, c.len())
        &&& lands(c[i].on_failure, i, c.len())
        &&& lands(c[i].on_missing, i, c.len())
        &&& leaves_own(c[i])
    } by {
        if i < a.len() {
            assert(c[i] == a[i]);
        } else {
            assert(c[i] == b[i - a.len()]);
        }
    }
}

proof fn lemma_leads_on_skip(a: Seq<step::StepView>, k: int)
    requires
        leads_on(a),
        0 <= k <= a.len(),
    ensures
        leads_on(a.skip(k)),
{
    let c = a.skip(k);
    assert forall|i: int| #![trigger c[i]] 0 <= i < c.len() implies {
        &&& lands(c[i].on_success, i, c.len())
        &&& lands(c[i].on_failure, i, c.len())
        &&& lands(c[i].on_missing, i, c.len())
        &&& leaves_own(c[i])
    } by {
        assert(c[i] == a[i + k]);
    }
}

proof fn lemma_left_before(
    pre: Seq<step::StepView>,
    tail: Seq<step::StepView>,
    block: Block,
) -> (k: int)
    requires
        tail.len() > 0,
        tail[0].block != block,
    ensures
        0 <= k <= pre.len(),
        left(pre + tail, block) == pre.skip(k) + tail,
    decreases pre.len(),
{
    if pre.len() > 0 && pre[0].block == block {
        assert((pre + tail).skip(1) =~= pre.skip(1) + tail);
        let k = lemma_left_before(pre.skip(1), tail, block);
        assert(pre.skip(1).skip(k) =~= pre.skip(k + 1));
        k + 1
    } else {
        assert((pre + tail)[0].block != block);
        assert(pre.skip(0) =~= pre);
        0
    }
}

proof fn lemma_onward_before(
    pre: Seq<step::StepView>,
    tail: Seq<step::StepView>,
    next: Next,
    block: Block,
) -> (k: int)
    requires
        tail.len() > 0,
        tail[0].block == Block::Main,
        next is Leave ==> block != Block::Main,
        next matches Next::Skip(n) ==> n <= pre.len(),
    ensures
        0 <= k <= pre.len(),
        onward(pre + tail, next, block) == pre.skip(k) + tail,
{
    match next {
        Next::Skip(n) => {
            assert((pre + tail).skip(n as int) =~= pre.skip(n as int) + tail);
            n as int
        },
        Next::Leave => lemma_left_before(pre, tail, block),
        _ => {
            assert(pre.skip(0) =~= pre);
            0
        },
    }
}

proof fn lemma_answer_leads_on(s: step::StepView, reply: step::ReplyView)
    requires
        leaves_own(s),
    ensures
        follow::answered(s.follow, reply) matches Ok(a) ==> leads_on(a.steps),
        follow::answered(s.follow, reply) matches Ok(a) ==> a.leave ==> s.follow is RecordedIface,
{
}

/// One reply to work that leads on to a tail keeps the tail, or makes the work fail.
proof fn lemma_tail_stays(
    job: JobView,
    pre: Seq<step::StepView>,
    tail: Seq<step::StepView>,
    reply: step::ReplyView,
) -> (kept: Seq<step::StepView>)
    requires
        job.todo == pre + tail,
        job.instead is None,
        job.failure is None,
        pre.len() > 0,
        leads_on(pre),
        tail.len() > 0,
        tail[0].block == Block::Main,
    ensures
        resumed(job, reply).instead is None,
        resumed(job, reply).failure is None ==> leads_on(kept) && resumed(job, reply).todo == kept
            + tail,
{
    let head = pre[0];
    let rest = pre.skip(1);
    assert(job.todo[0] == head);
    assert(job.todo.skip(1) =~= rest + tail);
    assert(leaves_own(head));
    lemma_leads_on_skip(pre, 1);
    let failed = lemma_onward_before(rest, tail, head.on_failure, head.block);
    let missed = lemma_onward_before(rest, tail, head.on_missing, head.block);
    let done = lemma_onward_before(rest, tail, head.on_success, head.block);
    lemma_leads_on_skip(rest, failed);
    lemma_leads_on_skip(rest, missed);
    lemma_leads_on_skip(rest, done);
    lemma_answer_leads_on(head, reply);
    let refused = head.action is Refuse || reply is Failed || follow::answered(head.follow, reply)
        is Err;
    if reply is Missing && !(head.action is Refuse) {
        rest.skip(missed)
    } else if refused {
        rest.skip(failed)
    } else {
        let a = follow::answered(head.follow, reply)->Ok_0;
        if a.leave {
            let k = lemma_left_before(rest, tail, head.block);
            lemma_leads_on_skip(rest, k);
            lemma_leads_on_add(a.steps, rest.skip(k));
            assert(a.steps + (rest.skip(k) + tail) =~= (a.steps + rest.skip(k)) + tail);
            a.steps + rest.skip(k)
        } else {
            lemma_leads_on_add(a.steps, rest.skip(done));
            assert(a.steps + (rest.skip(done) + tail) =~= (a.steps + rest.skip(done)) + tail);
            a.steps + rest.skip(done)
        }
    }
}

/// Work that leads on to a tail either still has the whole tail before it, or has stood right at
/// the start of the tail, or has failed: nothing of the tail is passed over.
pub proof fn law_nothing_is_passed_over(
    job: JobView,
    pre: Seq<step::StepView>,
    tail: Seq<step::StepView>,
    replies: Seq<step::ReplyView>,
)
    requires
        job.todo == pre + tail,
        job.instead is None,
        job.failure is None,
        leads_on(pre),
        tail.len() > 0,
        tail[0].block == Block::Main,
    ensures
        after(job, replies).failure is Some || tail.is_suffix_of(after(job, replies).todo)
            || exists|k: int|
            0 <= k < replies.len() && (#[trigger] after(job, replies.take(k))).todo == tail,
    decreases replies.len(),
{
    if replies.len() == 0 {
        assert(tail =~= (pre + tail).subrange(pre.len() as int, (pre + tail).len() as int));
    } else if pre.len() == 0 {
        assert(pre + tail =~= tail);
        assert(after(job, replies.take(0)) == job);
    } else {
        let kept = lemma_tail_stays(job, pre, tail, replies[0]);
        let next = resumed(job, replies[0]);
        if next.failure is Some {
            law_first_failure_stays(next, replies.skip(1));
        } else {
            law_nothing_is_passed_over(next, kept, tail, replies.skip(1));
            if exists|k: int|
                0 <= k < replies.skip(1).len() && (#[trigger] after(
                    next,
                    replies.skip(1).take(k),
                )).todo == tail {
                let k = choose|k: int|
                    0 <= k < replies.skip(1).len() && (#[trigger] after(
                        next,
                        replies.skip(1).take(k),
                    )).todo == tail;
                assert(replies.take(k + 1).skip(1) =~= replies.skip(1).take(k));
                assert(after(job, replies.take(k + 1)).todo == tail);
            }
        }
    }
}

/// Work behind replies, taken in two parts.
pub proof fn lemma_after_split(job: JobView, replies: Seq<step::ReplyView>, k: int)
    requires
        0 <= k <= replies.len(),
    ensures
        after(job, replies) == after(after(job, replies.take(k)), replies.skip(k)),
    decreases k,
{
    if k == 0 {
        assert(replies.skip(0) =~= replies);
    } else {
        lemma_after_split(resumed(job, replies[0]), replies.skip(1), k - 1);
        assert(replies.skip(1).take(k - 1) =~= replies.take(k).skip(1));
        assert(replies.skip(1).skip(k - 1) =~= replies.skip(k));
    }
}

/// Work with nothing to be done in its place gets none.
pub proof fn lemma_no_replacement(job: JobView, replies: Seq<step::ReplyView>)
    requires
        job.instead is None,
    ensures
        after(job, replies).instead is None,
    decreases replies.len(),
{
    if replies.len() > 0 {
        lemma_no_replacement(resumed(job, replies[0]), replies.skip(1));
    }
}

// ---------------------------------------------------------------------------------------------
// Work that is replaced, and work that just stops
// ---------------------------------------------------------------------------------------------

/// Whether a step that fails, and what follows from its answer, never undoes the work.
pub open spec fn steady(s: step::StepView) -> bool {
    &&& s.on_failure !is Unwind
    &&& s.on_missing !is Unwind
    &&& match s.follow {
        step::FollowView::ServerStarted { pid_file: _ } => false,
        step::FollowView::XdpProgram { meta: _ } => false,
        step::FollowView::XdpIface { meta: _, root: _, fail } => fail !is Unwind,
        step::FollowView::XdpOwner { iface: _, fail } => fail !is Unwind,
        step::FollowView::XdpOwned { iface: _, owner: _, fail } => fail !is Unwind,
        _ => true,
    }
}

/// Whether all steps are steady.
pub open spec fn all_steady(steps: Seq<step::StepView>) -> bool {
    forall|i: int| 0 <= i < steps.len() ==> steady(#[trigger] steps[i])
}

proof fn lemma_steady_step(job: JobView, reply: step::ReplyView)
    requires
        all_steady(job.todo),
        job.instead is Some,
    ensures
        ({
            let next = resumed(job, reply);
            ||| all_steady(next.todo) && next == (JobView { todo: next.todo, ..job })
            ||| next == (JobView { todo: job.instead->0, instead: None, ..job })
        }),
{
    if job.todo.len() > 0 {
        let head = job.todo[0];
        let rest = job.todo.skip(1);
        let _ = lemma_onward_is_rest(rest, head.on_failure, head.block);
        let _ = lemma_onward_is_rest(rest, head.on_missing, head.block);
        let _ = lemma_onward_is_rest(rest, head.on_success, head.block);
        let _ = lemma_left_is_rest(rest, head.block);
        if let Ok(a) = follow::answered(head.follow, reply) {
            assert(all_steady(a.steps));
        }
    }
}

/// Steady work that has something to be done in its place does not fail as long as that is not
/// used up: where a step fails, what is to be done in place of the work starts from its
/// beginning.
pub proof fn law_steady_work_is_replaced(job: JobView, replies: Seq<step::ReplyView>)
    requires
        all_steady(job.todo),
        job.instead is Some,
    ensures
        ({
            ||| after(job, replies).failure == job.failure && after(job, replies).instead
                == job.instead
            ||| exists|k: int|
                0 < k <= replies.len() && #[trigger] after(job, replies.take(k)) == (JobView {
                    todo: job.instead->0,
                    instead: None,
                    ..job
                })
        }),
    decreases replies.len(),
{
    if replies.len() > 0 {
        let next = resumed(job, replies[0]);
        lemma_steady_step(job, replies[0]);
        if next.instead is None {
            assert(replies.take(1).skip(1) =~= Seq::<step::ReplyView>::empty());
            assert(replies.take(1)[0] == replies[0]);
            assert(after(next, replies.take(1).skip(1)) == next);
            assert(after(job, replies.take(1)) == next);
        } else {
            let rest = replies.skip(1);
            law_steady_work_is_replaced(next, rest);
            if !(after(next, rest).failure == job.failure && after(next, rest).instead
                == job.instead) {
                let k = choose|k: int|
                    0 < k <= rest.len() && #[trigger] after(next, rest.take(k)) == (JobView {
                        todo: next.instead->0,
                        instead: None,
                        ..next
                    });
                assert(replies.take(k + 1).skip(1) =~= rest.take(k));
                assert(after(job, replies.take(k + 1)) == after(next, rest.take(k)));
            }
        }
    }
}

/// Work that has nothing that undoes it and nothing to be done in its place stops where it
/// fails.
pub proof fn law_failed_work_stops(
    job: JobView,
    replies: Seq<step::ReplyView>,
    last: step::ReplyView,
)
    requires
        job.undo.len() == 0,
        job.instead is None,
        after(job, replies).failure is None,
        resumed(after(job, replies), last).failure is Some,
    ensures
        resumed(after(job, replies), last).todo.len() == 0,
    decreases replies.len(),
{
    if replies.len() > 0 {
        law_failed_work_stops(resumed(job, replies[0]), replies.skip(1), last);
    }
}

/// A step that succeeds, and from whose answer nothing follows, is done: the work goes on with
/// the steps behind it, without as many of them as it says are to be skipped, and nothing else
/// about the work changes.
pub proof fn law_step_that_succeeds_is_done(job: JobView, reply: step::ReplyView, n: usize)
    requires
        job.todo.len() > 0,
        job.todo[0].follow == step::FollowView::Nothing,
        job.todo[0].on_success == Next::Skip(n),
        !(job.todo[0].action is Refuse),
        !(reply is Failed) && !(reply is Missing),
    ensures
        n < job.todo.len() - 1 ==> resumed(job, reply).todo == job.todo.skip(n + 1),
        n >= job.todo.len() - 1 ==> resumed(job, reply).todo.len() == 0,
        resumed(job, reply).undo == job.undo,
        resumed(job, reply).instead == job.instead,
        resumed(job, reply).failure == job.failure,
{
    let rest = job.todo.skip(1);
    let none = Seq::<step::StepView>::empty();
    if n < rest.len() {
        assert(none + rest.skip(n as int) =~= job.todo.skip(n + 1));
    } else {
        assert(none + none =~= none);
    }
}

/// A step that must not fail, and fails, ends the work with what it was doing and the words of
/// the host, unless there is something to be done in place of the work, or something to undo it.
/// An earlier failure is the one that is told.
pub proof fn law_step_that_fails_is_told(job: JobView, words: Seq<char>)
    requires
        job.todo.len() > 0,
        !(job.todo[0].action is Refuse),
    ensures
        ({
            let head = job.todo[0];
            let behind = resumed(job, step::ReplyView::Failed(words));
            let gone = resumed(job, step::ReplyView::Missing(words));
            &&& head.on_failure == Next::Abort && job.instead is None ==> behind.todo.len() == 0
                && behind.failure == match job.failure {
                Some(f) => Some(f),
                None => Some(
                    step::FailureView {
                        context: head.context,
                        cause: step::CauseView::Host(words),
                    },
                ),
            }
            &&& head.on_missing == Next::Abort && job.instead is None ==> gone.todo.len() == 0
                && gone.failure == match job.failure {
                Some(f) => Some(f),
                None => Some(
                    step::FailureView {
                        context: head.missing_context,
                        cause: step::CauseView::Host(words),
                    },
                ),
            }
            &&& head.on_failure == Next::Abort ==> (job.instead matches Some(other) ==> behind.todo
                == other && behind.instead is None && behind.failure == job.failure)
            &&& head.on_failure == Next::Unwind ==> behind.todo == job.undo && behind.undo.len()
                == 0 && behind.failure is Some
        }),
{
}

/// A refusal fails whatever the host replies, with its reason.
pub proof fn law_refusal_is_told(job: JobView, reply: step::ReplyView, reason: step::Refusal)
    requires
        job.todo.len() > 0,
        job.todo[0].action == (step::ActionView::Refuse { reason }),
        job.todo[0].on_failure == Next::Abort || job.todo[0].on_failure == Next::Unwind,
        job.failure is None,
        job.instead is None,
    ensures
        resumed(job, reply).failure == Some(
            step::FailureView {
                context: job.todo[0].context,
                cause: step::CauseView::Refused(reason),
            },
        ),
        resumed(job, reply).todo == if job.todo[0].on_failure == Next::Unwind {
            job.undo
        } else {
            Seq::empty()
        },
{
}

/// Work that is done takes no notice of a reply.
pub proof fn law_done_work_stays(job: JobView, reply: step::ReplyView)
    requires
        job.todo.len() == 0,
    ensures
        resumed(job, reply) == job,
{
}

/// Leaving a block passes over the steps of the block that come next, and over no others.
pub proof fn law_leaving_passes_over_the_block(rest: Seq<step::StepView>, block: Block) -> (n: int)
    ensures
        0 <= n <= rest.len(),
        left(rest, block) == rest.skip(n),
        forall|i: int| 0 <= i < n ==> (#[trigger] rest[i]).block == block,
        n < rest.len() ==> rest[n].block != block,
    decreases rest.len(),
{
    if rest.len() > 0 && rest[0].block == block {
        let m = law_leaving_passes_over_the_block(rest.skip(1), block);
        assert(rest.skip(1).skip(m) =~= rest.skip(m + 1));
        assert forall|i: int| 0 <= i < m + 1 implies (#[trigger] rest[i]).block == block by {
            if i > 0 {
                assert(rest[i] == rest.skip(1)[i - 1]);
            }
        }
        m + 1
    } else {
        assert(rest.skip(0) =~= rest);
        0
    }
}

/// An attempt that fails changes nothing: the work goes on with the next step.
pub proof fn law_attempt_may_fail(
    job: JobView,
    action: step::ActionView,
    rest: Seq<step::StepView>,
    words: Seq<char>,
)
    requires
        job.todo == seq![step::attempt_view(action)] + rest,
    ensures
        resumed(job, step::ReplyView::Failed(words)) == (JobView { todo: rest, ..job }),
        !(action is Refuse) ==> resumed(job, step::ReplyView::Missing(words)) == (JobView {
            todo: rest,
            ..job
        }),
        !(action is Refuse) ==> resumed(job, step::ReplyView::Done) == (JobView {
            todo: rest,
            ..job
        }),
{
    assert(job.todo.skip(1) =~= rest);
    assert(rest.skip(0) =~= rest);
    assert(Seq::<step::StepView>::empty() + rest =~= rest);
}

/// A step that decides about the next one: that one is taken exactly where this one succeeds, and
/// the work goes on behind it either way.
pub proof fn law_given_decides_about_the_next(
    job: JobView,
    action: step::ActionView,
    next: step::StepView,
    rest: Seq<step::StepView>,
    words: Seq<char>,
)
    requires
        !(action is Refuse),
        job.todo == seq![step::given_view(action), next] + rest,
    ensures
        resumed(job, step::ReplyView::Done).todo == seq![next] + rest,
        resumed(job, step::ReplyView::Failed(words)).todo == rest,
        resumed(job, step::ReplyView::Missing(words)).todo == rest,
        resumed(job, step::ReplyView::Failed(words)).failure == job.failure,
        resumed(job, step::ReplyView::Missing(words)).failure == job.failure,
{
    let behind = job.todo.skip(1);
    assert(behind =~= seq![next] + rest);
    assert(behind.skip(0) =~= behind);
    assert(behind.skip(1) =~= rest);
    assert(Seq::<step::StepView>::empty() + behind =~= behind);
    if rest.len() == 0 {
        assert(rest =~= Seq::<step::StepView>::empty());
    }
}

/// A step that must succeed ends the work where it does not. One that needs something tells what
/// it was about only where that is missing.
pub proof fn law_must_succeed(
    job: JobView,
    action: step::ActionView,
    context: Seq<char>,
    rest: Seq<step::StepView>,
    words: Seq<char>,
    needing: bool,
)
    requires
        !(action is Refuse),
        job.instead is None,
        job.failure is None,
        job.todo == seq![
            if needing {
                step::needing_view(action, context)
            } else {
                step::must_view(action, context)
            },
        ] + rest,
    ensures
        resumed(job, step::ReplyView::Done).todo == rest,
        resumed(job, step::ReplyView::Done).failure is None,
        resumed(job, step::ReplyView::Failed(words)).todo.len() == 0,
        resumed(job, step::ReplyView::Failed(words)).failure == Some(
            step::FailureView {
                context: if needing {
                    Seq::empty()
                } else {
                    context
                },
                cause: step::CauseView::Host(words),
            },
        ),
        resumed(job, step::ReplyView::Missing(words)).failure == Some(
            step::FailureView { context, cause: step::CauseView::Host(words) },
        ),
{
    assert(job.todo.skip(1) =~= rest);
    assert(rest.skip(0) =~= rest);
    assert(Seq::<step::StepView>::empty() + rest =~= rest);
}

} // verus!
