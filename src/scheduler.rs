//! Bounded scheduling of transfer tasks.
//!
//! Tasks are started in list order, never more than `limit` at a time; each
//! one ends on its own, in success or failure, without affecting the others.
//! The batch is over when every task has ended.

use vstd::prelude::*;

verus! {

#[derive(Debug, Clone, Copy, PartialEq, Eq, Structural)]
pub enum TaskState {
    Waiting,
    Running,
    Succeeded,
    Failed,
}

/// How many tasks are running.
pub open spec fn count_running(s: Seq<TaskState>) -> nat
    decreases s.len(),
{
    if s.len() == 0 {
        0
    } else {
        count_running(s.drop_last()) + if s.last() == TaskState::Running { 1nat } else { 0nat }
    }
}

proof fn lemma_count_update(s: Seq<TaskState>, i: int, x: TaskState)
    requires
        0 <= i < s.len(),
    ensures
        count_running(s.update(i, x)) + (if s[i] == TaskState::Running { 1nat } else { 0nat })
            == count_running(s) + (if x == TaskState::Running { 1nat } else { 0nat }),
    decreases s.len(),
{
    if i < s.len() - 1 {
        lemma_count_update(s.drop_last(), i, x);
        assert(s.update(i, x).drop_last() =~= s.drop_last().update(i, x));
    } else {
        assert(s.update(i, x).drop_last() =~= s.drop_last());
    }
}

pub struct Scheduler {
    limit: usize,
    states: Vec<TaskState>,
    next: usize,
    running: usize,
}

impl Scheduler {
    pub closed spec fn limit_spec(&self) -> nat {
        self.limit as nat
    }

    /// The state of every task.
    pub closed spec fn states_spec(&self) -> Seq<TaskState> {
        self.states@
    }

    /// How many tasks have been started.
    pub closed spec fn started(&self) -> nat {
        self.next as nat
    }

    /// The scheduler's invariant: tasks start in list order, and the running
    /// ones, which are counted, never exceed the limit.
    pub closed spec fn wf(&self) -> bool {
        &&& self.next <= self.states@.len()
        &&& forall|k: int|
            0 <= k < self.states@.len() ==> (k >= self.next <==> self.states@[k]
                == TaskState::Waiting)
        &&& self.running == count_running(self.states@)
        &&& self.running <= self.limit
    }

    /// A scheduler for `n` tasks, running at most `limit` at a time.
    pub fn new(n: usize, limit: usize) -> (r: Self)
        ensures
            r.wf(),
            r.limit_spec() == limit,
            r.states_spec() == Seq::new(n as nat, |k: int| TaskState::Waiting),
            r.started() == 0,
            count_running(r.states_spec()) == 0,
    {
        let mut states: Vec<TaskState> = Vec::new();
        let mut i: usize = 0;
        while i < n
            invariant
                i <= n,
                states@ == Seq::new(i as nat, |k: int| TaskState::Waiting),
                count_running(states@) == 0,
            decreases n - i,
        {
            let ghost before = states@;
            states.push(TaskState::Waiting);
            assert(states@.drop_last() =~= before);
            i = i + 1;
            assert(states@ =~= Seq::new(i as nat, |k: int| TaskState::Waiting));
        }
        Scheduler { limit, states, next: 0, running: 0 }
    }

    /// How many tasks are running.
    pub fn running(&self) -> (r: usize)
        requires
            self.wf(),
        ensures
            r == count_running(self.states_spec()),
    {
        self.running
    }

    /// Starts the next waiting task if fewer than `limit` are running, and
    /// returns its position; returns `None` when the limit is reached or no
    /// task waits.
    pub fn start_next(&mut self) -> (r: Option<usize>)
        requires
            old(self).wf(),
        ensures
            final(self).wf(),
            final(self).limit_spec() == old(self).limit_spec(),
            (count_running(old(self).states_spec()) < old(self).limit_spec() && old(self).started()
                < old(self).states_spec().len()) ==> r == Some(old(self).started() as usize)
                && final(self).states_spec() == old(self).states_spec().update(
                old(self).started() as int,
                TaskState::Running,
            ) && final(self).started() == old(self).started() + 1 && count_running(
                final(self).states_spec(),
            ) == count_running(old(self).states_spec()) + 1,
            !(count_running(old(self).states_spec()) < old(self).limit_spec() && old(self).started()
                < old(self).states_spec().len()) ==> r is None && *final(self) == *old(self),
    {
        if self.running < self.limit && self.next < self.states.len() {
            let k = self.next;
            proof {
                lemma_count_update(self.states@, k as int, TaskState::Running);
            }
            self.states.set(k, TaskState::Running);
            self.next = k + 1;
            self.running = self.running + 1;
            Some(k)
        } else {
            None
        }
    }

    /// Records that a running task ended, in success or failure.
    pub fn finish(&mut self, task: usize, succeeded: bool)
        requires
            old(self).wf(),
            task < old(self).states_spec().len(),
            old(self).states_spec()[task as int] == TaskState::Running,
        ensures
            final(self).wf(),
            final(self).limit_spec() == old(self).limit_spec(),
            final(self).started() == old(self).started(),
            final(self).states_spec() == old(self).states_spec().update(
                task as int,
                if succeeded { TaskState::Succeeded } else { TaskState::Failed },
            ),
            count_running(final(self).states_spec()) + 1 == count_running(old(self).states_spec()),
    {
        let s = if succeeded { TaskState::Succeeded } else { TaskState::Failed };
        proof {
            lemma_count_update(self.states@, task as int, s);
        }
        self.states.set(task, s);
        self.running = self.running - 1;
    }

    /// The state of one task.
    pub fn state(&self, task: usize) -> (r: TaskState)
        requires
            task < self.states_spec().len(),
        ensures
            r == self.states_spec()[task as int],
    {
        self.states[task]
    }

    /// Whether every task has ended.
    pub fn all_done(&self) -> (r: bool)
        requires
            self.wf(),
        ensures
            r <==> forall|k: int|
                0 <= k < self.states_spec().len() ==> (self.states_spec()[k] == TaskState::Succeeded
                    || self.states_spec()[k] == TaskState::Failed),
    {
        let mut i: usize = 0;
        while i < self.states.len()
            invariant
                i <= self.states@.len(),
                forall|k: int|
                    0 <= k < i ==> (self.states@[k] == TaskState::Succeeded || self.states@[k]
                        == TaskState::Failed),
            decreases self.states@.len() - i,
        {
            if self.states[i] == TaskState::Waiting || self.states[i] == TaskState::Running {
                return false;
            }
            i = i + 1;
        }
        true
    }
}

/// At no moment do more than `limit` tasks run, whatever the limit and
/// whatever order the tasks end in.
pub proof fn lemma_running_within_limit(s: &Scheduler)
    requires
        s.wf(),
    ensures
        count_running(s.states_spec()) <= s.limit_spec(),
{
}

} // verus!
