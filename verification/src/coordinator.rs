//! The task lifecycle: tasks are created by the system, issued to exactly one
//! authenticated worker, and accepted back together with a bandwidth
//! measurement that is folded into the worker's aggregate as one logical
//! unit. Every worker-facing operation requires a currently valid session.

use vstd::prelude::*;
use crate::aggregate::Aggregate;
use crate::aggregate::AggregateName;
use crate::aggregate::AggregateStore;
use crate::aggregate::AggregateValue;
use crate::aggregate::has_key;
use crate::aggregate::id_taken;
use crate::aggregate::lemma_row_index_is;
use crate::aggregate::lemma_update_round_trip;
use crate::aggregate::lookup;
use crate::aggregate::merged;
use crate::aggregate::row_index;
use crate::aggregate::spec_merged;
use crate::errors::Error;
use crate::session::Session;
use crate::session::SessionIssuer;
use crate::session::session_valid;

verus! {

/// Where a task stands in its lifecycle.
#[derive(Clone, Copy, Debug, PartialEq, Eq, Structural)]
pub enum TaskState {
    /// Created, not yet handed to any worker.
    Pending,
    /// Handed to exactly one worker, awaiting its result.
    Issued,
    /// A result was accepted; resubmission is refused.
    Submitted,
}

/// A unit of remote work: an opaque payload handle going out, an opaque
/// outcome handle coming back.
#[derive(Clone, Copy, Debug, PartialEq, Eq)]
pub struct Task {
    pub id: u64,
    pub payload: u64,
    pub assignee: Option<u128>,
    pub state: TaskState,
    pub outcome: Option<u64>,
}

/// Task `i` of `s` carries the identifier `id`.
pub open spec fn task_at(s: Seq<Task>, i: int, id: u64) -> bool {
    0 <= i < s.len() && s[i].id == id
}

/// Some task of `s` carries the identifier `id`.
pub open spec fn has_task(s: Seq<Task>, id: u64) -> bool {
    exists|i: int| task_at(s, i, id)
}

/// The index of the task carrying `id`; meaningful when `has_task` holds,
/// and unique under `wf_tasks`.
pub open spec fn task_index(s: Seq<Task>, id: u64) -> int {
    choose|i: int| task_at(s, i, id)
}

/// Task `i` of `s` is still waiting to be issued.
pub open spec fn pending_at(s: Seq<Task>, i: int) -> bool {
    0 <= i < s.len() && s[i].state == TaskState::Pending
}

/// Some task of `s` is still waiting to be issued.
pub open spec fn has_pending(s: Seq<Task>) -> bool {
    exists|i: int| pending_at(s, i)
}

/// Each task's record is consistent with its lifecycle state: no assignee
/// and no outcome before issuance, an assignee once issued, and an outcome
/// exactly once submitted.
pub open spec fn task_consistent(t: Task) -> bool {
    &&& (t.state == TaskState::Pending ==> t.assignee is None && t.outcome is None)
    &&& (t.state == TaskState::Issued ==> t.assignee is Some && t.outcome is None)
    &&& (t.state == TaskState::Submitted ==> t.assignee is Some && t.outcome is Some)
}

/// Well-formedness of a task set: identifiers are unique and every record is
/// consistent with its state.
pub open spec fn wf_tasks(s: Seq<Task>) -> bool {
    &&& forall|i: int, j: int|
        0 <= i < s.len() && 0 <= j < s.len() && i != j ==> (#[trigger] s[i]).id != (
        #[trigger] s[j]).id
    &&& forall|i: int| 0 <= i < s.len() ==> task_consistent(#[trigger] s[i])
}

/// Under well-formedness, an index whose task carries an identifier is the
/// unique such index.
pub proof fn lemma_task_index_is(s: Seq<Task>, id: u64, i: int)
    requires
        wf_tasks(s),
        task_at(s, i, id),
    ensures
        has_task(s, id),
        task_index(s, id) == i,
{
    assert(has_task(s, id));
    let j = task_index(s, id);
    assert(task_at(s, j, id));
    if i != j {
        assert(false);
    }
}

/// The store's rows after folding measurement `m` into the row for
/// `(user_id, name)`: the existing row's payload accumulates `m`, or — when
/// no row existed — a single fresh row is created already carrying `m`.
/// Either way no other row is touched.
pub open spec fn merged_into(
    pre: Seq<Aggregate>,
    post: Seq<Aggregate>,
    user_id: u128,
    name: AggregateName,
    m: u64,
) -> bool {
    if has_key(pre, user_id, name) {
        post == pre.update(
            row_index(pre, user_id, name),
            (Aggregate {
                value: spec_merged(pre[row_index(pre, user_id, name)].value, m),
                ..pre[row_index(pre, user_id, name)]
            }),
        )
    } else {
        exists|a: Aggregate|
            post == (#[trigger] pre.push(a)) && a.user_id == user_id && a.name == name && a.value
                == spec_merged(AggregateValue::Null, m) && !id_taken(pre, a.id)
    }
}

/// The payload currently stored for `(user_id, name)`, or the empty payload
/// when no row exists yet.
pub open spec fn value_of(s: Seq<Aggregate>, user_id: u128, name: AggregateName) -> AggregateValue {
    if has_key(s, user_id, name) {
        s[row_index(s, user_id, name)].value
    } else {
        AggregateValue::Null
    }
}

/// Records one measurement for an authenticated worker: fetches the worker's
/// aggregate row for `name` through the atomic get-or-create path, folds `m`
/// into its payload, and returns the updated row. A session whose nonce is
/// no longer current is rejected before any store mutation, and a storage
/// failure leaves the store exactly as it was. A storage failure can arise
/// only while creating a missing row; when the caller's row already exists,
/// a valid session is owed acceptance.
pub fn record_measurement(
    auth: &SessionIssuer,
    store: &mut AggregateStore,
    s: Session,
    name: AggregateName,
    m: u64,
) -> (r: Result<Aggregate, Error>)
    requires
        auth.wf(),
        old(store).wf(),
    ensures
        final(store).wf(),
        !session_valid(auth.nonces(), s) ==> r == Err::<Aggregate, Error>(
            Error::AuthenticationFailed,
        ) && final(store)@ == old(store)@,
        session_valid(auth.nonces(), s) ==> match r {
            Ok(a) => merged_into(old(store)@, final(store)@, s.user_id, name, m) && a.user_id
                == s.user_id && a.name == name && a.value == spec_merged(
                value_of(old(store)@, s.user_id, name),
                m,
            ) && lookup(final(store)@, s.user_id, name) == Some(a),
            Err(e) => e == Error::StorageFailure && final(store)@ == old(store)@,
        },
        session_valid(auth.nonces(), s) && has_key(old(store)@, s.user_id, name) ==> r is Ok,
{
    if !auth.validate_session(s) {
        return Err(Error::AuthenticationFailed);
    }
    match store.get_or_create(s.user_id, name) {
        Err(e) => Err(e),
        Ok(a) => {
            let ghost pre = old(store)@;
            let ghost mid = store@;
            let v = merged(a.value, m);
            proof {
                if has_key(pre, s.user_id, name) {
                    assert(mid == pre);
                } else {
                    lemma_row_index_is(mid, s.user_id, name, pre.len() as int);
                }
                lemma_update_round_trip(mid, s.user_id, name, v);
            }
            store.update_value(s.user_id, name, v);
            let updated = Aggregate { value: v, ..a };
            proof {
                if !has_key(pre, s.user_id, name) {
                    assert(store@ =~= pre.push(updated));
                    assert(merged_into(pre, store@, s.user_id, name, m));
                }
            }
            Ok(updated)
        },
    }
}

/// The task lifecycle coordinator's own store: every task ever created,
/// plus the next surrogate identifier, which is never reused.
pub struct TaskBoard {
    tasks: Vec<Task>,
    next_id: u64,
}

impl View for TaskBoard {
    type V = Seq<Task>;

    closed spec fn view(&self) -> Seq<Task> {
        self.tasks@
    }
}

impl TaskBoard {
    /// The next surrogate identifier to be assigned.
    pub closed spec fn next_of(&self) -> u64 {
        self.next_id
    }

    /// The board's invariant: the task set is well-formed and every assigned
    /// identifier is below the next one.
    pub open spec fn wf(&self) -> bool {
        wf_tasks(self@) && forall|i: int|
            0 <= i < self@.len() ==> (#[trigger] self@[i]).id < self.next_of()
    }

    /// An empty board.
    pub fn new() -> (r: TaskBoard)
        ensures
            r.wf(),
            r@.len() == 0,
            r.next_of() == 0,
    {
        TaskBoard { tasks: Vec::new(), next_id: 0 }
    }

    /// Fetches the task carrying `id`, if one exists.
    #[verifier::loop_isolation(false)]
    pub fn task(&self, id: u64) -> (r: Option<Task>)
        requires
            self.wf(),
        ensures
            match r {
                Some(t) => has_task(self@, id) && t == self@[task_index(self@, id)],
                None => !has_task(self@, id),
            },
    {
        let n = self.tasks.len();
        let mut i: usize = 0;
        while i < n
            invariant
                i <= n,
                forall|k: int| 0 <= k < i ==> !task_at(self@, k, id),
            decreases n - i,
        {
            if self.tasks[i].id == id {
                proof {
                    lemma_task_index_is(self@, id, i as int);
                }
                return Some(self.tasks[i]);
            }
            i += 1;
        }
        assert(!has_task(self@, id));
        None
    }

    /// Creates a task with the given payload, waiting to be issued. Its
    /// identifier is fresh and never reused; a board whose identifier space
    /// is exhausted refuses with a storage failure.
    pub fn create_task(&mut self, payload: u64) -> (r: Result<u64, Error>)
        requires
            old(self).wf(),
        ensures
            final(self).wf(),
            old(self).next_of() == u64::MAX ==> r == Err::<u64, Error>(Error::StorageFailure)
                && final(self)@ == old(self)@ && final(self).next_of() == old(self).next_of(),
            old(self).next_of() < u64::MAX ==> r == Ok::<u64, Error>(old(self).next_of())
                && final(self)@ == old(self)@.push(
                (Task {
                    id: old(self).next_of(),
                    payload,
                    assignee: None,
                    state: TaskState::Pending,
                    outcome: None,
                }),
            ) && final(self).next_of() == old(self).next_of() + 1,
    {
        if self.next_id == u64::MAX {
            return Err(Error::StorageFailure);
        }
        let t = Task {
            id: self.next_id,
            payload,
            assignee: None,
            state: TaskState::Pending,
            outcome: None,
        };
        proof {
            let post = self@.push(t);
            assert forall|p: int, q: int|
                0 <= p < post.len() && 0 <= q < post.len() && p != q implies (#[trigger] post[p]).id
                != (#[trigger] post[q]).id by {
                if p < self@.len() && q < self@.len() {
                    assert(post[p] == self@[p] && post[q] == self@[q]);
                } else if p < self@.len() {
                    assert(post[p] == self@[p] && post[q] == t);
                } else {
                    assert(post[p] == t && post[q] == self@[q]);
                }
            }
            assert forall|p: int| 0 <= p < post.len() implies task_consistent(
                #[trigger] post[p],
            ) by {
                if p < self@.len() {
                    assert(post[p] == self@[p]);
                }
            }
        }
        self.tasks.push(t);
        self.next_id = self.next_id + 1;
        Ok(t.id)
    }

    /// Hands the first waiting task to the authenticated worker behind the
    /// session, binding the task to that worker. A session whose nonce is no
    /// longer current is rejected, and a board with nothing waiting reports
    /// that nothing is to be done; in both cases the board is unchanged.
    #[verifier::loop_isolation(false)]
    pub fn issue_task(&mut self, auth: &SessionIssuer, s: Session) -> (r: Result<Task, Error>)
        requires
            auth.wf(),
            old(self).wf(),
        ensures
            final(self).wf(),
            final(self).next_of() == old(self).next_of(),
            r is Err ==> final(self)@ == old(self)@,
            !session_valid(auth.nonces(), s) ==> r == Err::<Task, Error>(
                Error::AuthenticationFailed,
            ),
            session_valid(auth.nonces(), s) && !has_pending(old(self)@) ==> r == Err::<Task, Error>(
                Error::TaskNotFound,
            ),
            session_valid(auth.nonces(), s) && has_pending(old(self)@) ==> match r {
                Ok(t) => exists|i: int|
                    #[trigger] pending_at(old(self)@, i) && (forall|k: int|
                        0 <= k < i ==> old(self)@[k].state != TaskState::Pending) && t == (Task {
                        assignee: Some(s.user_id),
                        state: TaskState::Issued,
                        ..old(self)@[i]
                    }) && final(self)@ == old(self)@.update(i, t),
                Err(_) => false,
            },
    {
        if !auth.validate_session(s) {
            return Err(Error::AuthenticationFailed);
        }
        let n = self.tasks.len();
        let mut i: usize = 0;
        while i < n
            invariant
                i <= n,
                *self == *old(self),
                forall|k: int| 0 <= k < i ==> old(self)@[k].state != TaskState::Pending,
            decreases n - i,
        {
            if self.tasks[i].state == TaskState::Pending {
                let t = Task {
                    assignee: Some(s.user_id),
                    state: TaskState::Issued,
                    ..self.tasks[i]
                };
                proof {
                    assert(pending_at(old(self)@, i as int));
                    assert(task_consistent(old(self)@[i as int]));
                    let post = self@.update(i as int, t);
                    assert forall|p: int| 0 <= p < post.len() implies task_consistent(
                        #[trigger] post[p],
                    ) && post[p].id == self@[p].id by {
                        if p != i {
                            assert(post[p] == self@[p]);
                        }
                    }
                }
                self.tasks.set(i, t);
                return Ok(t);
            }
            i += 1;
        }
        assert(!has_pending(old(self)@));
        Err(Error::TaskNotFound)
    }

    /// Accepts a worker's result for a task it was issued: the result is
    /// recorded against the task and the measurement is folded into the
    /// worker's bandwidth aggregate, as one logical unit — if the aggregate
    /// side cannot be committed, the submission is not accepted and nothing
    /// changes. A stale session is rejected before any mutation; a task that
    /// does not exist or is not bound to this worker reports not-found; a
    /// duplicate submission of an already-submitted task is refused as
    /// conflicting state. The aggregate side can fail only while creating a
    /// missing bandwidth row; when that row already exists, a valid
    /// submission of an issued task is owed acceptance.
    #[verifier::loop_isolation(false)]
    pub fn submit_task(
        &mut self,
        auth: &SessionIssuer,
        store: &mut AggregateStore,
        s: Session,
        task_id: u64,
        outcome: u64,
        bandwidth: u64,
    ) -> (r: Result<(), Error>)
        requires
            auth.wf(),
            old(self).wf(),
            old(store).wf(),
        ensures
            final(self).wf(),
            final(store).wf(),
            final(self).next_of() == old(self).next_of(),
            r is Err ==> final(self)@ == old(self)@ && final(store)@ == old(store)@,
            !session_valid(auth.nonces(), s) ==> r == Err::<(), Error>(Error::AuthenticationFailed),
            session_valid(auth.nonces(), s) && !has_task(old(self)@, task_id) ==> r == Err::<
                (),
                Error,
            >(Error::TaskNotFound),
            session_valid(auth.nonces(), s) && has_task(old(self)@, task_id) ==> ({
                let t = old(self)@[task_index(old(self)@, task_id)];
                &&& (t.assignee != Some(s.user_id) ==> r == Err::<(), Error>(Error::TaskNotFound))
                &&& (t.assignee == Some(s.user_id) && t.state == TaskState::Submitted ==> r
                    == Err::<(), Error>(Error::ConflictingState))
                &&& (t.assignee == Some(s.user_id) && t.state == TaskState::Issued ==> match r {
                    Ok(u) => final(self)@ == old(self)@.update(
                        task_index(old(self)@, task_id),
                        (Task { state: TaskState::Submitted, outcome: Some(outcome), ..t }),
                    ) && merged_into(
                        old(store)@,
                        final(store)@,
                        s.user_id,
                        AggregateName::BandwidthTotal,
                        bandwidth,
                    ) && value_of(final(store)@, s.user_id, AggregateName::BandwidthTotal)
                        == spec_merged(
                        value_of(old(store)@, s.user_id, AggregateName::BandwidthTotal),
                        bandwidth,
                    ),
                    Err(e) => e == Error::StorageFailure,
                })
                &&& (t.assignee == Some(s.user_id) && t.state == TaskState::Issued && has_key(
                    old(store)@,
                    s.user_id,
                    AggregateName::BandwidthTotal,
                ) ==> r is Ok)
            }),
    {
        if !auth.validate_session(s) {
            return Err(Error::AuthenticationFailed);
        }
        let n = self.tasks.len();
        let mut i: usize = 0;
        while i < n
            invariant
                i <= n,
                *self == *old(self),
                *store == *old(store),
                forall|k: int| 0 <= k < i ==> !task_at(old(self)@, k, task_id),
            decreases n - i,
        {
            if self.tasks[i].id == task_id {
                proof {
                    lemma_task_index_is(old(self)@, task_id, i as int);
                }
                let t = self.tasks[i];
                let bound_to_caller = match t.assignee {
                    Some(u) => u == s.user_id,
                    None => false,
                };
                if !bound_to_caller {
                    return Err(Error::TaskNotFound);
                }
                if t.state == TaskState::Submitted {
                    return Err(Error::ConflictingState);
                }
                proof {
                    assert(task_consistent(old(self)@[i as int]));
                }
                assert(t.state == TaskState::Issued);
                match record_measurement(
                    auth,
                    store,
                    s,
                    AggregateName::BandwidthTotal,
                    bandwidth,
                ) {
                    Err(e) => {
                        return Err(e);
                    },
                    Ok(_) => {
                        let done = Task {
                            state: TaskState::Submitted,
                            outcome: Some(outcome),
                            ..t
                        };
                        proof {
                            let post = self@.update(i as int, done);
                            assert forall|p: int| 0 <= p < post.len() implies task_consistent(
                                #[trigger] post[p],
                            ) && post[p].id == self@[p].id by {
                                if p != i {
                                    assert(post[p] == self@[p]);
                                }
                            }
                        }
                        self.tasks.set(i, done);
                        return Ok(());
                    },
                }
            }
            i += 1;
        }
        assert(!has_task(old(self)@, task_id));
        Err(Error::TaskNotFound)
    }
}

} // verus!
