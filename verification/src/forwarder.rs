//! The device forwarder: the tasks that run the sessions, one for each session key.

use crate::error::RequestParseError;
use crate::request::{SessionKey, SessionKeyView, SessionRequest};
use crate::session::{Session, SessionStep};
use tokio::task::JoinHandle;
use vstd::prelude::*;

verus! {

/// `tokio::task::JoinHandle`: the handle of a spawned task. Nothing is known of what is
/// inside it.
#[verifier::external_type_specification]
#[verifier::external_body]
#[verifier::reject_recursive_types(T)]
pub struct ExJoinHandle<T>(JoinHandle<T>);

/// `tokio::task::JoinError`: what awaiting a handle gives when the task did not run to its
/// end. It is named by the handle's type and never looked into.
#[verifier::external_type_specification]
#[verifier::external_body]
pub struct ExJoinError(tokio::task::JoinError);

/// `JoinHandle::is_finished`: whether the task has finished by now. The answer depends on
/// how far the runtime has come, so nothing is claimed of it, and a later call may answer
/// otherwise.
pub assume_specification<T>[ JoinHandle::<T>::is_finished ](handle: &JoinHandle<T>) -> (finished:
    bool)
;

/// A task that runs a session.
#[derive(Debug)]
pub struct Task {
    /// The key of the session.
    pub info: SessionKey,
    /// The handle of the task.
    pub handle: JoinHandle<()>,
}

/// What became of a session request.
#[derive(Debug, PartialEq, Eq)]
pub enum Dispatch {
    /// The event was no session request: it is dropped, for this reason.
    Rejected(RequestParseError),
    /// A task already runs the session: nothing was started.
    AlreadyRunning,
    /// A task was started for the session.
    Started,
}

/// Whether the task at `index` is marked as finished. A task without a mark is not.
pub open spec fn marked(finished: Seq<bool>, index: int) -> bool {
    0 <= index < finished.len() && finished[index]
}

/// The tasks that are left once those marked as finished are removed, in their order.
pub open spec fn unfinished(tasks: Seq<Task>, finished: Seq<bool>) -> Seq<Task>
    decreases tasks.len(),
{
    if tasks.len() == 0 {
        tasks
    } else if marked(finished, tasks.len() - 1) {
        unfinished(tasks.drop_last(), finished)
    } else {
        unfinished(tasks.drop_last(), finished).push(tasks.last())
    }
}

/// Whether one of the tasks runs the session `key`.
pub open spec fn runs(tasks: Seq<Task>, key: SessionKeyView) -> bool {
    exists|i: int| 0 <= i < tasks.len() && (#[trigger] tasks[i]).info@ == key
}

/// How many of the tasks run the session `key`.
pub open spec fn task_count(tasks: Seq<Task>, key: SessionKeyView) -> nat
    decreases tasks.len(),
{
    if tasks.len() == 0 {
        0
    } else if tasks.last().info@ == key {
        task_count(tasks.drop_last(), key) + 1
    } else {
        task_count(tasks.drop_last(), key)
    }
}

/// Whether no two of the tasks run the same session.
pub open spec fn one_task_each(tasks: Seq<Task>) -> bool {
    forall|i: int, j: int|
        0 <= i < j < tasks.len() ==> (#[trigger] tasks[i]).info@ != (#[trigger] tasks[j]).info@
}

/// The first step of the session that `request` asks for.
pub open spec fn session_of(request: SessionRequest) -> SessionStep {
    Session::first_step(request.info.session_token, request.url, request.info.secure)
}

/// What a session request does to the tasks of a forwarder, where `finished` marks the
/// tasks that have finished by the time it arrives.
///
/// An event that is no request changes nothing. Else the finished tasks are removed first.
/// If a task is left that runs the session asked for, nothing more is done. If none is,
/// `spawn` is called once, with the first step of the new session, and the task it returns
/// is kept under the request's key, behind the others.
pub open spec fn dispatched<F: FnOnce(SessionStep) -> JoinHandle<()>>(
    before: Seq<Task>,
    request: Result<SessionRequest, RequestParseError>,
    finished: Seq<bool>,
    spawn: F,
    outcome: Dispatch,
    after: Seq<Task>,
) -> bool {
    match request {
        Err(error) => outcome == Dispatch::Rejected(error) && after == before,
        Ok(asked) => {
            let left = unfinished(before, finished);
            if runs(left, asked.info@) {
                outcome == Dispatch::AlreadyRunning && after == left
            } else {
                &&& outcome == Dispatch::Started
                &&& after.len() == left.len() + 1
                &&& after.drop_last() == left
                &&& after.last().info == asked.info
                &&& spawn.ensures((session_of(asked),), after.last().handle)
            }
        },
    }
}

/// Device forwarder.
///
/// It keeps the handles of the tasks that run the sessions, each with the key of its
/// session, and never two for one key.
#[derive(Debug)]
pub struct Forwarder {
    tasks: Vec<Task>,
}

impl View for Forwarder {
    type V = Seq<Task>;

    /// The tasks that the forwarder keeps, oldest first.
    closed spec fn view(&self) -> Seq<Task> {
        self.tasks@
    }
}

/// Removes the tasks that are marked as finished.
fn remove_finished(tasks: &mut Vec<Task>, finished: &Vec<bool>)
    ensures
        final(tasks)@ == unfinished(old(tasks)@, finished@),
{
    let ghost before = tasks@;
    let total: usize = tasks.len();
    let mut seen: usize = 0;
    let mut kept: usize = 0;
    while kept < tasks.len()
        invariant
            kept <= tasks.len(),
            before.len() == total,
            seen + (tasks.len() - kept) == before.len(),
            tasks@ == unfinished(before.subrange(0, seen as int), finished@) + before.subrange(
                seen as int,
                before.len() as int,
            ),
            kept == unfinished(before.subrange(0, seen as int), finished@).len(),
        decreases tasks.len() - kept,
    {
        let ghost prefix = before.subrange(0, seen as int);
        let ghost longer = before.subrange(0, seen + 1);
        assert(longer.drop_last() == prefix);
        assert(longer.last() == before[seen as int]);
        if seen < finished.len() && finished[seen] {
            let _ = tasks.remove(kept);
        } else {
            kept += 1;
        }
        seen += 1;
        assert(tasks@ == unfinished(longer, finished@) + before.subrange(
            seen as int,
            before.len() as int,
        ));
    }
    assert(before.subrange(0, seen as int) == before);
    assert(tasks@ == unfinished(before, finished@));
}

/// Looks for the task that runs the session `key`.
fn position_of(tasks: &Vec<Task>, key: &SessionKey) -> (found: Option<usize>)
    ensures
        found is Some <==> runs(tasks@, key@),
        found matches Some(index) ==> index < tasks.len() && tasks[index as int].info@ == key@,
{
    let mut index: usize = 0;
    while index < tasks.len()
        invariant
            index <= tasks.len(),
            forall|i: int| 0 <= i < index ==> (#[trigger] tasks[i]).info@ != key@,
        decreases tasks.len() - index,
    {
        if tasks[index].info == *key {
            return Some(index);
        }
        index += 1;
    }
    None
}

impl Forwarder {
    #[verifier::type_invariant]
    spec fn one_task_for_each_session(self) -> bool {
        one_task_each(self.tasks@)
    }

    /// A forwarder without tasks.
    pub(crate) fn new() -> (forwarder: Forwarder)
        ensures
            forwarder@ == Seq::<Task>::empty(),
    {
        Forwarder { tasks: Vec::new() }
    }

    /// How many tasks the forwarder keeps.
    pub fn len(&self) -> (tasks: usize)
        ensures
            tasks == self@.len(),
            one_task_each(self@),
    {
        proof {
            use_type_invariant(self);
        }
        self.tasks.len()
    }

    /// Whether the forwarder keeps a task for the session `key`.
    pub fn holds(&self, key: &SessionKey) -> (held: bool)
        ensures
            held == runs(self@, key@),
            task_count(self@, key@) == if held {
                1nat
            } else {
                0nat
            },
    {
        proof {
            use_type_invariant(self);
            lemma_task_count(self.tasks@, key@);
        }
        position_of(&self.tasks, key).is_some()
    }

    /// Asks each task whether it has finished. The answers come in the order of the tasks.
    fn poll(&self) -> (finished: Vec<bool>)
        ensures
            finished.len() == self@.len(),
    {
        let mut finished: Vec<bool> = Vec::new();
        let mut index: usize = 0;
        while index < self.tasks.len()
            invariant
                index <= self.tasks.len(),
                finished.len() == index,
            decreases self.tasks.len() - index,
        {
            finished.push(self.tasks[index].handle.is_finished());
            index += 1;
        }
        finished
    }

    /// Puts `tasks` in the place of the forwarder's tasks, which are returned.
    fn exchange(&mut self, tasks: Vec<Task>) -> (before: Vec<Task>)
        requires
            one_task_each(tasks@),
        ensures
            final(self)@ == tasks@,
            before@ == old(self)@,
            one_task_each(before@),
    {
        proof {
            use_type_invariant(&*self);
        }
        let mut tasks = tasks;
        core::mem::swap(&mut self.tasks, &mut tasks);
        tasks
    }

    /// Removes the sessions that are marked as finished and returns the place of the
    /// searched one among those that are left.
    pub fn get_running(&mut self, key: &SessionKey, finished: &Vec<bool>) -> (found: Option<usize>)
        ensures
            final(self)@ == unfinished(old(self)@, finished@),
            one_task_each(final(self)@),
            found is Some <==> runs(final(self)@, key@),
            found matches Some(index) ==> index < final(self)@.len() && final(self)@[index as int].info@
                == key@,
    {
        let mut tasks = self.exchange(Vec::new());
        proof {
            lemma_unfinished_are_tasks(tasks@, finished@);
        }
        remove_finished(&mut tasks, finished);
        let found = position_of(&tasks, key);
        let _ = self.exchange(tasks);
        found
    }

    /// Handles a session request, given which of the tasks have finished: starts a task for
    /// the session unless one that has not finished runs it already.
    pub fn dispatch<F>(
        &mut self,
        request: Result<SessionRequest, RequestParseError>,
        finished: &Vec<bool>,
        spawn: F,
    ) -> (outcome: Dispatch) where F: FnOnce(SessionStep) -> JoinHandle<()>
        requires
            request matches Ok(asked) ==> spawn.requires((session_of(asked),)),
        ensures
            dispatched(old(self)@, request, finished@, spawn, outcome, final(self)@),
            one_task_each(final(self)@),
    {
        let asked = match request {
            Ok(asked) => asked,
            Err(error) => {
                proof {
                    use_type_invariant(&*self);
                }
                return Dispatch::Rejected(error);
            },
        };
        match self.get_running(&asked.info, finished) {
            Some(_) => Dispatch::AlreadyRunning,
            None => {
                let secure = asked.info.secure;
                let session_token = asked.info.session_token.clone();
                let handle = spawn(Session::start(session_token, asked.url, secure));
                let mut tasks = self.exchange(Vec::new());
                let ghost left = tasks@;
                tasks.push(Task { info: asked.info, handle });
                assert(tasks@.drop_last() == left);
                assert(one_task_each(tasks@)) by {
                    assert forall|i: int, j: int| 0 <= i < j < tasks@.len() implies (
                    #[trigger] tasks@[i]).info@ != (#[trigger] tasks@[j]).info@ by {
                        assert(tasks@[i] == left[i]);
                        if j < left.len() {
                            assert(tasks@[j] == left[j]);
                        }
                    }
                }
                let _ = self.exchange(tasks);
                Dispatch::Started
            },
        }
    }

    /// Handles a session request: starts a task for the session unless one runs it already.
    ///
    /// An event that is no request is dropped and leaves the tasks alone. Else each task is
    /// asked whether it has finished, and the request is dispatched on the answers,
    /// whatever they are.
    pub fn handle_sessions<F>(
        &mut self,
        request: Result<SessionRequest, RequestParseError>,
        spawn: F,
    ) -> (outcome: Dispatch) where F: FnOnce(SessionStep) -> JoinHandle<()>
        requires
            request matches Ok(asked) ==> spawn.requires((session_of(asked),)),
        ensures
            exists|finished: Seq<bool>|
                finished.len() == old(self)@.len() && #[trigger] dispatched(
                    old(self)@,
                    request,
                    finished,
                    spawn,
                    outcome,
                    final(self)@,
                ),
            request is Err ==> final(self)@ == old(self)@,
            one_task_each(final(self)@),
    {
        let finished = if request.is_ok() {
            self.poll()
        } else {
            Vec::new()
        };
        let ghost marks = if request is Ok {
            finished@
        } else {
            Seq::new(self@.len(), |i: int| false)
        };
        let outcome = self.dispatch(request, &finished, spawn);
        assert(dispatched(old(self)@, request, marks, spawn, outcome, self@));
        outcome
    }
}

/// The tasks that are left are tasks that were there and are not marked, each task that is
/// not marked is left, and no session gains a task.
pub proof fn lemma_unfinished_are_tasks(tasks: Seq<Task>, finished: Seq<bool>)
    ensures
        forall|k: int|
            0 <= k < unfinished(tasks, finished).len() ==> exists|i: int|
                0 <= i < tasks.len() && !marked(finished, i) && tasks[i] == #[trigger] unfinished(
                    tasks,
                    finished,
                )[k],
        forall|i: int|
            0 <= i < tasks.len() && !marked(finished, i) ==> exists|k: int|
                0 <= k < unfinished(tasks, finished).len() && unfinished(tasks, finished)[k]
                    == #[trigger] tasks[i],
        one_task_each(tasks) ==> one_task_each(unfinished(tasks, finished)),
    decreases tasks.len(),
{
    if tasks.len() > 0 {
        let front = tasks.drop_last();
        let left = unfinished(tasks, finished);
        let before = unfinished(front, finished);
        lemma_unfinished_are_tasks(front, finished);
        assert forall|k: int| 0 <= k < left.len() implies exists|i: int|
            0 <= i < tasks.len() && !marked(finished, i) && tasks[i] == #[trigger] left[k] by {
            if k < before.len() {
                let i = choose|i: int|
                    0 <= i < front.len() && !marked(finished, i) && front[i] == before[k];
                assert(tasks[i] == left[k]);
            } else {
                assert(tasks[tasks.len() - 1] == left[k]);
            }
        }
        assert forall|i: int| 0 <= i < tasks.len() && !marked(finished, i) implies exists|k: int|
            0 <= k < left.len() && left[k] == #[trigger] tasks[i] by {
            if i < front.len() {
                assert(front[i] == tasks[i]);
                let k = choose|k: int| 0 <= k < before.len() && before[k] == front[i];
                assert(left[k] == tasks[i]);
            } else {
                assert(left[left.len() - 1] == tasks[i]);
            }
        }
        if one_task_each(tasks) {
            assert(one_task_each(front)) by {
                assert forall|i: int, j: int| 0 <= i < j < front.len() implies (#[trigger] front[i]).info@
                    != (#[trigger] front[j]).info@ by {
                    assert(front[i] == tasks[i] && front[j] == tasks[j]);
                }
            }
            assert forall|a: int, b: int| 0 <= a < b < left.len() implies (#[trigger] left[a]).info@
                != (#[trigger] left[b]).info@ by {
                if b < before.len() {
                    assert(left[a] == before[a] && left[b] == before[b]);
                } else {
                    let i = choose|i: int|
                        0 <= i < front.len() && !marked(finished, i) && front[i] == before[a];
                    assert(left[a] == tasks[i]);
                    assert(left[b] == tasks[tasks.len() - 1]);
                }
            }
        }
    }
}

/// Where no session has two tasks, a session has one task or none.
pub proof fn lemma_task_count(tasks: Seq<Task>, key: SessionKeyView)
    requires
        one_task_each(tasks),
    ensures
        task_count(tasks, key) == if runs(tasks, key) {
            1nat
        } else {
            0nat
        },
    decreases tasks.len(),
{
    if tasks.len() > 0 {
        let front = tasks.drop_last();
        assert forall|i: int, j: int| 0 <= i < j < front.len() implies (#[trigger] front[i]).info@
            != (#[trigger] front[j]).info@ by {
            assert(front[i] == tasks[i] && front[j] == tasks[j]);
        }
        lemma_task_count(front, key);
        if tasks.last().info@ == key {
            assert(tasks[tasks.len() - 1].info@ == key);
            if runs(front, key) {
                let i = choose|i: int| 0 <= i < front.len() && (#[trigger] front[i]).info@ == key;
                assert(front[i] == tasks[i]);
                assert(false);
            }
        } else if runs(tasks, key) {
            let i = choose|i: int| 0 <= i < tasks.len() && (#[trigger] tasks[i]).info@ == key;
            assert(front[i] == tasks[i]);
        } else if runs(front, key) {
            let i = choose|i: int| 0 <= i < front.len() && (#[trigger] front[i]).info@ == key;
            assert(front[i] == tasks[i]);
        }
    }
}

/// Exclusivity: a request for a session that a task runs, and has not finished, starts no
/// second task. The task stays, and it is the one task of the session.
pub proof fn lemma_exclusivity<F: FnOnce(SessionStep) -> JoinHandle<()>>(
    before: Seq<Task>,
    asked: SessionRequest,
    finished: Seq<bool>,
    spawn: F,
    outcome: Dispatch,
    after: Seq<Task>,
    index: int,
)
    requires
        one_task_each(before),
        dispatched(before, Ok(asked), finished, spawn, outcome, after),
        0 <= index < before.len(),
        before[index].info@ == asked.info@,
        !marked(finished, index),
    ensures
        outcome == Dispatch::AlreadyRunning,
        after == unfinished(before, finished),
        exists|k: int| 0 <= k < after.len() && after[k] == before[index],
        task_count(after, asked.info@) == 1,
{
    let left = unfinished(before, finished);
    lemma_unfinished_are_tasks(before, finished);
    let k = choose|k: int| 0 <= k < left.len() && left[k] == before[index];
    assert(left[k].info@ == asked.info@);
    lemma_task_count(left, asked.info@);
}

/// Reuse after completion: once every task that ran a session has finished, a request for
/// that session starts a new task, which is then the one task of the session.
pub proof fn lemma_reuse_after_completion<F: FnOnce(SessionStep) -> JoinHandle<()>>(
    before: Seq<Task>,
    asked: SessionRequest,
    finished: Seq<bool>,
    spawn: F,
    outcome: Dispatch,
    after: Seq<Task>,
)
    requires
        one_task_each(before),
        dispatched(before, Ok(asked), finished, spawn, outcome, after),
        forall|i: int|
            0 <= i < before.len() && (#[trigger] before[i]).info@ == asked.info@ ==> marked(
                finished,
                i,
            ),
    ensures
        outcome == Dispatch::Started,
        after == unfinished(before, finished).push(after.last()),
        after.last().info == asked.info,
        spawn.ensures((session_of(asked),), after.last().handle),
        one_task_each(after),
        task_count(after, asked.info@) == 1,
{
    let left = unfinished(before, finished);
    lemma_unfinished_are_tasks(before, finished);
    if runs(left, asked.info@) {
        let k = choose|k: int| 0 <= k < left.len() && (#[trigger] left[k]).info@ == asked.info@;
        let i = choose|i: int|
            0 <= i < before.len() && !marked(finished, i) && before[i] == left[k];
        assert(before[i].info@ == asked.info@);
        assert(false);
    }
    assert(after == left.push(after.last()));
    assert forall|i: int, j: int| 0 <= i < j < after.len() implies (#[trigger] after[i]).info@ != (
    #[trigger] after[j]).info@ by {
        assert(after[i] == left[i]);
        if j < left.len() {
            assert(after[j] == left[j]);
        }
    }
    assert(after[after.len() - 1].info@ == asked.info@);
    lemma_task_count(after, asked.info@);
}

/// However the tasks fare, a request leaves its session with one task, and no session
/// with two.
pub proof fn lemma_one_task_after_request<F: FnOnce(SessionStep) -> JoinHandle<()>>(
    before: Seq<Task>,
    asked: SessionRequest,
    finished: Seq<bool>,
    spawn: F,
    outcome: Dispatch,
    after: Seq<Task>,
)
    requires
        one_task_each(before),
        dispatched(before, Ok(asked), finished, spawn, outcome, after),
    ensures
        one_task_each(after),
        task_count(after, asked.info@) == 1,
        outcome == Dispatch::Started || outcome == Dispatch::AlreadyRunning,
{
    let left = unfinished(before, finished);
    lemma_unfinished_are_tasks(before, finished);
    if !runs(left, asked.info@) {
        assert(after == left.push(after.last()));
        assert forall|i: int, j: int| 0 <= i < j < after.len() implies (#[trigger] after[i]).info@
            != (#[trigger] after[j]).info@ by {
            assert(after[i] == left[i]);
            if j < left.len() {
                assert(after[j] == left[j]);
            }
        }
        assert(after[after.len() - 1].info@ == asked.info@);
    }
    lemma_task_count(after, asked.info@);
}

} // verus!
