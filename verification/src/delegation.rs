//! Delegated worker tasks: admission within the parent's authority, the
//! scheduler's view of runnable tasks, and the moves of a task from pending
//! through running to completed or failed.
use crate::text_map::TextMap;
use vstd::prelude::*;

verus! {

/// Where a worker task stands.
#[derive(Clone, Debug, PartialEq, Eq)]
pub enum WorkerTaskState {
    Pending,
    Running { execution_id: String },
    Completed { execution_id: String, result_refs: Vec<String> },
    Failed { execution_id: String, cause: String },
    Cancelled { cause: String },
}

/// A worker task of a parent execution.
#[derive(Clone, Debug, PartialEq, Eq)]
pub struct WorkerTaskRecord {
    pub id: String,
    pub parent_execution: String,
    pub graph_generation: String,
    pub description: String,
    pub depends_on: Vec<String>,
    pub delegated_authority: Vec<String>,
    pub state: WorkerTaskState,
}

/// A task with the binding it was admitted under and, once completed, its result.
#[derive(Clone, Debug, PartialEq, Eq)]
pub struct DelegatedWorkerTaskRecord<B, R> {
    pub task: WorkerTaskRecord,
    pub binding: B,
    pub result: Option<R>,
}

/// Why the task store refused a request.
#[derive(Clone, Debug, PartialEq, Eq)]
pub enum DelegatedTaskStoreError {
    DuplicateTask { task_id: String },
    UnknownTask { task_id: String },
    AuthorityExpanded,
    BindingAuthorityMismatch,
    NotRunnable { task_id: String },
    InvalidState { task_id: String },
    ExecutionMismatch { task_id: String },
    Admission { reason: String },
}

/// The texts of a list, as a set.
pub open spec fn texts(s: Seq<String>) -> Set<Seq<char>> {
    Set::new(|x: Seq<char>| exists|i: int| 0 <= i < s.len() && (#[trigger] s[i])@ == x)
}

fn contains_text(list: &Vec<String>, s: &String) -> (r: bool)
    ensures
        r == texts(list@).contains(s@),
{
    let mut i: usize = 0;
    while i < list.len()
        invariant
            i <= list@.len(),
            forall|j: int| 0 <= j < i ==> (#[trigger] list@[j])@ != s@,
        decreases list@.len() - i,
    {
        if list[i] == *s {
            assert(list@[i as int]@ == s@);
            return true;
        }
        i = i + 1;
    }
    false
}

/// Whether every text of `a` is a text of `b`.
pub fn texts_within(a: &Vec<String>, b: &Vec<String>) -> (r: bool)
    ensures
        r == texts(a@).subset_of(texts(b@)),
{
    let mut i: usize = 0;
    while i < a.len()
        invariant
            i <= a@.len(),
            forall|j: int| 0 <= j < i ==> texts(b@).contains(#[trigger] a@[j]@),
        decreases a@.len() - i,
    {
        if !contains_text(b, &a[i]) {
            assert(texts(a@).contains(a@[i as int]@));
            return false;
        }
        i = i + 1;
    }
    assert forall|x: Seq<char>| texts(a@).contains(x) implies texts(b@).contains(x) by {
        let j = choose|j: int| 0 <= j < a@.len() && (#[trigger] a@[j])@ == x;
        assert(texts(b@).contains(a@[j]@));
    }
    true
}

/// Whether a task's identities of completed tasks cover its dependencies,
/// and it is still pending.
pub open spec fn is_runnable<B, R>(m: Map<Seq<char>, DelegatedWorkerTaskRecord<B, R>>, rec: DelegatedWorkerTaskRecord<
    B,
    R,
>) -> bool {
    &&& rec.task.state is Pending
    &&& forall|i: int| 0 <= i < rec.task.depends_on@.len() ==> {
        let d = #[trigger] rec.task.depends_on@[i]@;
        m.contains_key(d) && m[d].task.state is Completed
    }
}

/// The task listed under `id` is pending and every task it depends on is
/// recorded and completed.
pub open spec fn waits_on_nothing<B, R>(
    m: Map<Seq<char>, DelegatedWorkerTaskRecord<B, R>>,
    entries: Seq<(String, DelegatedWorkerTaskRecord<B, R>)>,
    id: Seq<char>,
) -> bool {
    exists|j: int|
        0 <= j < entries.len() && (#[trigger] entries[j]).0@ == id && entries[j].1.task.state is Pending
            && forall|i: int|
            0 <= i < entries[j].1.task.depends_on@.len() ==> m.contains_key(
                #[trigger] entries[j].1.task.depends_on@[i]@,
            ) && m[entries[j].1.task.depends_on@[i]@].task.state is Completed
}

/// The identities of the runnable tasks, in identity order.
pub open spec fn runnable_ids<B, R>(
    m: Map<Seq<char>, DelegatedWorkerTaskRecord<B, R>>,
    entries: Seq<(String, DelegatedWorkerTaskRecord<B, R>)>,
) -> Seq<Seq<char>>
    decreases entries.len(),
{
    if entries.len() == 0 {
        Seq::empty()
    } else {
        let rest = runnable_ids(m, entries.drop_last());
        if is_runnable(m, entries.last().1) {
            rest.push(entries.last().0@)
        } else {
            rest
        }
    }
}

/// The number of tasks of a parent execution.
pub open spec fn children<B, R>(entries: Seq<(String, DelegatedWorkerTaskRecord<B, R>)>, parent: Seq<char>) -> nat
    decreases entries.len(),
{
    if entries.len() == 0 {
        0
    } else {
        children(entries.drop_last(), parent) + if entries.last().1.task.parent_execution@ == parent {
            1nat
        } else {
            0nat
        }
    }
}

/// Why a task cannot be admitted, if it cannot: its identity must be new,
/// its authority the one its binding grants and within the parent's, and the
/// binding's own checks against the policy and the clock must pass.
pub open spec fn create_error<B, R>(
    m: Map<Seq<char>, DelegatedWorkerTaskRecord<B, R>>,
    task: WorkerTaskRecord,
    binding_authority: Vec<String>,
    parent_authority: Vec<String>,
    policy_check: Result<(), String>,
    deadline_check: Result<(), String>,
) -> Option<DelegatedTaskStoreError> {
    if m.contains_key(task.id@) {
        Some(DelegatedTaskStoreError::DuplicateTask { task_id: task.id })
    } else if texts(task.delegated_authority@) != texts(binding_authority@) {
        Some(DelegatedTaskStoreError::BindingAuthorityMismatch)
    } else if !texts(task.delegated_authority@).subset_of(texts(parent_authority@)) {
        Some(DelegatedTaskStoreError::AuthorityExpanded)
    } else {
        match (policy_check, deadline_check) {
            (Err(reason), _) => Some(DelegatedTaskStoreError::Admission { reason }),
            (Ok(_), Err(reason)) => Some(DelegatedTaskStoreError::Admission { reason }),
            (Ok(_), Ok(_)) => None,
        }
    }
}

/// Why a task cannot be settled under `execution_id`, if it cannot: it must
/// be known and run under that execution.
pub open spec fn settle_error<B, R>(
    m: Map<Seq<char>, DelegatedWorkerTaskRecord<B, R>>,
    task_id: String,
    execution_id: String,
) -> Option<DelegatedTaskStoreError> {
    if !m.contains_key(task_id@) {
        Some(DelegatedTaskStoreError::UnknownTask { task_id })
    } else {
        match m[task_id@].task.state {
            WorkerTaskState::Running { execution_id: active } => if active@ != execution_id@ {
                Some(DelegatedTaskStoreError::ExecutionMismatch { task_id })
            } else {
                None
            },
            _ => Some(DelegatedTaskStoreError::InvalidState { task_id }),
        }
    }
}

/// The delegated tasks, keyed by task identity.
pub struct DelegatedTaskStore<B, R> {
    tasks: TextMap<DelegatedWorkerTaskRecord<B, R>>,
}

impl<B, R> DelegatedTaskStore<B, R> {
    pub closed spec fn wf(self) -> bool {
        &&& self.tasks.wf()
        &&& forall|k: Seq<char>| #[trigger] self.tasks@.contains_key(k) ==> self.tasks@[k].task.id@ == k
    }

    pub closed spec fn records(self) -> Map<Seq<char>, DelegatedWorkerTaskRecord<B, R>> {
        self.tasks@
    }

    pub closed spec fn entries(self) -> Seq<(String, DelegatedWorkerTaskRecord<B, R>)> {
        self.tasks.entry_seq()
    }

    pub fn new() -> (s: Self)
        ensures
            s.wf(),
            s.records() == Map::<Seq<char>, DelegatedWorkerTaskRecord<B, R>>::empty(),
    {
        DelegatedTaskStore { tasks: TextMap::new() }
    }

    pub fn get(&self, task_id: &String) -> (r: Option<&DelegatedWorkerTaskRecord<B, R>>)
        requires
            self.wf(),
        ensures
            match r {
                Some(v) => self.records().contains_key(task_id@) && self.records()[task_id@] == *v,
                None => !self.records().contains_key(task_id@),
            },
    {
        self.tasks.get(task_id)
    }

    /// Admits a pending task whose authority is the one its binding grants and
    /// lies within the parent's; `policy_check` and `deadline_check` are the
    /// binding's own checks against the delegation policy and the clock.
    pub fn create(
        &mut self,
        task: WorkerTaskRecord,
        binding: B,
        binding_authority: &Vec<String>,
        parent_authority: &Vec<String>,
        policy_check: Result<(), String>,
        deadline_check: Result<(), String>,
    ) -> (r: Result<(), DelegatedTaskStoreError>)
        requires
            old(self).wf(),
        ensures
            final(self).wf(),
            match create_error(
                old(self).records(),
                task,
                *binding_authority,
                *parent_authority,
                policy_check,
                deadline_check,
            ) {
                Some(e) => r == Err::<(), _>(e),
                None => r is Ok,
            },
            r is Err ==> final(self).records() == old(self).records(),
            r is Ok ==> final(self).records() == old(self).records().insert(
                task.id@,
                DelegatedWorkerTaskRecord { task, binding, result: None },
            ),
    {
        if self.tasks.contains_key(&task.id) {
            return Err(DelegatedTaskStoreError::DuplicateTask { task_id: task.id });
        }
        let same = texts_within(&task.delegated_authority, binding_authority) && texts_within(
            binding_authority,
            &task.delegated_authority,
        );
        proof {
            if !same {
                if texts(task.delegated_authority@) == texts(binding_authority@) {
                    assert(texts(task.delegated_authority@).subset_of(texts(binding_authority@)));
                    assert(texts(binding_authority@).subset_of(texts(task.delegated_authority@)));
                }
            } else {
                assert(texts(task.delegated_authority@) =~= texts(binding_authority@));
            }
        }
        if !same {
            return Err(DelegatedTaskStoreError::BindingAuthorityMismatch);
        }
        if !texts_within(&task.delegated_authority, parent_authority) {
            return Err(DelegatedTaskStoreError::AuthorityExpanded);
        }
        if let Err(reason) = policy_check {
            return Err(DelegatedTaskStoreError::Admission { reason });
        }
        if let Err(reason) = deadline_check {
            return Err(DelegatedTaskStoreError::Admission { reason });
        }
        let id = task.id.clone();
        self.tasks.insert(id, DelegatedWorkerTaskRecord { task, binding, result: None });
        Ok(())
    }

    /// The number of tasks of a parent execution.
    pub fn child_count(&self, parent_execution: &String) -> (n: usize)
        ensures
            n == children(self.entries(), parent_execution@),
    {
        let ghost e = self.entries();
        let mut n: usize = 0;
        let mut i: usize = 0;
        while i < self.tasks.len()
            invariant
                e == self.entries(),
                i <= e.len(),
                n == children(e.take(i as int), parent_execution@),
                n <= i,
            decreases e.len() - i,
        {
            let (_, record) = self.tasks.entry(i);
            proof {
                assert(e.take(i + 1).drop_last() =~= e.take(i as int));
            }
            if record.task.parent_execution == *parent_execution {
                n = n + 1;
            }
            i = i + 1;
        }
        proof {
            assert(e.take(i as int) =~= e);
        }
        n
    }

    fn completed(&self, task_id: &String) -> (r: bool)
        requires
            self.wf(),
        ensures
            r == (self.records().contains_key(task_id@) && self.records()[task_id@].task.state is Completed),
    {
        match self.tasks.get(task_id) {
            Some(record) => matches!(record.task.state, WorkerTaskState::Completed { .. }),
            None => false,
        }
    }

    fn runnable_record(&self, record: &DelegatedWorkerTaskRecord<B, R>) -> (r: bool)
        requires
            self.wf(),
        ensures
            r == is_runnable(self.records(), *record),
    {
        if !matches!(record.task.state, WorkerTaskState::Pending) {
            return false;
        }
        let deps = &record.task.depends_on;
        let mut i: usize = 0;
        while i < deps.len()
            invariant
                self.wf(),
                deps@ == record.task.depends_on@,
                i <= deps@.len(),
                forall|j: int| 0 <= j < i ==> {
                    let d = #[trigger] deps@[j]@;
                    self.records().contains_key(d) && self.records()[d].task.state is Completed
                },
            decreases deps@.len() - i,
        {
            if !self.completed(&deps[i]) {
                return false;
            }
            i = i + 1;
        }
        true
    }

    /// The identities of the pending tasks whose dependencies have all
    /// completed, in identity order.
    pub fn runnable(&self) -> (r: Vec<String>)
        requires
            self.wf(),
        ensures
            r@.map_values(|s: String| s@) == runnable_ids(self.records(), self.entries()),
            forall|k: int| 0 <= k < r@.len() ==> waits_on_nothing(self.records(), self.entries(), #[trigger] r@[k]@),
    {
        let ghost e = self.entries();
        let mut out: Vec<String> = Vec::new();
        let mut i: usize = 0;
        while i < self.tasks.len()
            invariant
                self.wf(),
                e == self.entries(),
                i <= e.len(),
                out@.map_values(|s: String| s@) == runnable_ids(self.records(), e.take(i as int)),
            decreases e.len() - i,
        {
            let (key, record) = self.tasks.entry(i);
            proof {
                assert(e.take(i + 1).drop_last() =~= e.take(i as int));
            }
            if self.runnable_record(record) {
                let ghost before = out@;
                out.push(key.clone());
                proof {
                    assert(out@.map_values(|s: String| s@) =~= before.map_values(|s: String| s@).push(
                        key@,
                    ));
                }
            }
            i = i + 1;
        }
        proof {
            assert(e.take(i as int) =~= e);
            let ids = runnable_ids(self.records(), e);
            assert forall|k: int| 0 <= k < out@.len() implies waits_on_nothing(self.records(), e, #[trigger] out@[k]@) by {
                assert(out@.map_values(|s: String| s@)[k] == out@[k]@);
                lemma_runnable_ids_sound(self.records(), e, k);
                let j = choose|j: int|
                    0 <= j < e.len() && (#[trigger] e[j]).0@ == ids[k] && is_runnable(self.records(), e[j].1);
                lemma_runnable_means_dependencies_completed(self.records(), e[j].1);
                assert(e[j].0@ == out@[k]@);
            }
        }
        out
    }

    /// Starts a runnable task under an execution, if its binding's deadline
    /// (`deadline_check`) still holds.
    pub fn start(&mut self, task_id: &String, execution_id: String, deadline_check: Result<(), String>) -> (r:
        Result<(), DelegatedTaskStoreError>)
        requires
            old(self).wf(),
        ensures
            final(self).wf(),
            !(old(self).records().contains_key(task_id@) && is_runnable(
                old(self).records(),
                old(self).records()[task_id@],
            )) ==> r == Err::<(), _>(DelegatedTaskStoreError::NotRunnable { task_id: *task_id }),
            old(self).records().contains_key(task_id@) && is_runnable(
                old(self).records(),
                old(self).records()[task_id@],
            ) ==> match deadline_check {
                Err(reason) => r == Err::<(), _>(DelegatedTaskStoreError::Admission { reason }),
                Ok(_) => r is Ok,
            },
            r is Err ==> final(self).records() == old(self).records(),
            r is Ok ==> forall|i: int|
                0 <= i < old(self).records()[task_id@].task.depends_on@.len() ==> old(self).records().contains_key(
                    #[trigger] old(self).records()[task_id@].task.depends_on@[i]@,
                ) && old(self).records()[old(self).records()[task_id@].task.depends_on@[i]@].task.state is Completed,
            r is Ok ==> {
                let old_rec = old(self).records()[task_id@];
                final(self).records() == old(self).records().insert(
                    task_id@,
                    DelegatedWorkerTaskRecord {
                        task: WorkerTaskRecord {
                            state: WorkerTaskState::Running { execution_id },
                            ..old_rec.task
                        },
                        ..old_rec
                    },
                )
            },
    {
        let runnable = match self.tasks.get(task_id) {
            Some(record) => self.runnable_record(record),
            None => false,
        };
        if !runnable {
            return Err(DelegatedTaskStoreError::NotRunnable { task_id: task_id.clone() });
        }
        if let Err(reason) = deadline_check {
            return Err(DelegatedTaskStoreError::Admission { reason });
        }
        proof {
            lemma_runnable_means_dependencies_completed(old(self).records(), old(self).records()[task_id@]);
        }
        let mut record = self.tasks.remove(task_id).unwrap();
        record.task.state = WorkerTaskState::Running { execution_id };
        self.tasks.insert(task_id.clone(), record);
        proof {
            assert(self.tasks@ =~= old(self).tasks@.insert(task_id@, record));
        }
        Ok(())
    }

    /// Whether a task that runs under `execution_id` can be settled, completed
    /// or failed; it changes nothing.
    pub fn settle_check(&self, task_id: &String, execution_id: &String) -> (r: Result<
        (),
        DelegatedTaskStoreError,
    >)
        requires
            self.wf(),
        ensures
            match settle_error(self.records(), *task_id, *execution_id) {
                Some(e) => r == Err::<(), _>(e),
                None => r is Ok,
            },
    {
        match self.tasks.get(task_id) {
            None => Err(DelegatedTaskStoreError::UnknownTask { task_id: task_id.clone() }),
            Some(record) => match &record.task.state {
                WorkerTaskState::Running { execution_id: active } => {
                    if !(*active == *execution_id) {
                        Err(DelegatedTaskStoreError::ExecutionMismatch { task_id: task_id.clone() })
                    } else {
                        Ok(())
                    }
                },
                _ => Err(DelegatedTaskStoreError::InvalidState { task_id: task_id.clone() }),
            },
        }
    }

    /// Completes a task that runs under `execution_id`, if its result passes
    /// its own check against the binding (`validation`); `result_refs` are the
    /// exact references of the result's evidence.
    pub fn complete(
        &mut self,
        task_id: &String,
        execution_id: &String,
        result: R,
        validation: Result<(), String>,
        result_refs: Vec<String>,
    ) -> (r: Result<(), DelegatedTaskStoreError>)
        requires
            old(self).wf(),
        ensures
            final(self).wf(),
            !old(self).records().contains_key(task_id@) ==> r == Err::<(), _>(
                DelegatedTaskStoreError::UnknownTask { task_id: *task_id },
            ),
            old(self).records().contains_key(task_id@) ==> match old(self).records()[task_id@].task.state {
                WorkerTaskState::Running { execution_id: active } => if active@ != execution_id@ {
                    r == Err::<(), _>(DelegatedTaskStoreError::ExecutionMismatch { task_id: *task_id })
                } else {
                    match validation {
                        Err(reason) => r == Err::<(), _>(DelegatedTaskStoreError::Admission { reason }),
                        Ok(_) => r is Ok,
                    }
                },
                _ => r == Err::<(), _>(DelegatedTaskStoreError::InvalidState { task_id: *task_id }),
            },
            r is Err ==> final(self).records() == old(self).records(),
            r is Ok ==> {
                let old_rec = old(self).records()[task_id@];
                &&& final(self).records().dom() == old(self).records().dom()
                &&& final(self).records()[task_id@].result == Some(result)
                &&& final(self).records()[task_id@].task.state matches WorkerTaskState::Completed {
                    execution_id: e,
                    result_refs: refs,
                } && e@ == execution_id@ && refs == result_refs
                &&& forall|k: Seq<char>| k != task_id@ && #[trigger] old(self).records().contains_key(k)
                    ==> final(self).records()[k] == old(self).records()[k]
            },
    {
        let state_ok = match self.tasks.get(task_id) {
            None => {
                return Err(DelegatedTaskStoreError::UnknownTask { task_id: task_id.clone() });
            },
            Some(record) => match &record.task.state {
                WorkerTaskState::Running { execution_id: active } => {
                    if !(*active == *execution_id) {
                        return Err(
                            DelegatedTaskStoreError::ExecutionMismatch { task_id: task_id.clone() },
                        );
                    }
                    true
                },
                _ => false,
            },
        };
        if !state_ok {
            return Err(DelegatedTaskStoreError::InvalidState { task_id: task_id.clone() });
        }
        if let Err(reason) = validation {
            return Err(DelegatedTaskStoreError::Admission { reason });
        }
        let mut record = self.tasks.remove(task_id).unwrap();
        record.result = Some(result);
        record.task.state = WorkerTaskState::Completed {
            execution_id: execution_id.clone(),
            result_refs,
        };
        self.tasks.insert(task_id.clone(), record);
        proof {
            assert(self.tasks@.dom() =~= old(self).tasks@.dom());
        }
        Ok(())
    }

    /// Fails a task that runs under `execution_id`.
    pub fn fail(&mut self, task_id: &String, execution_id: &String, cause: String) -> (r: Result<
        (),
        DelegatedTaskStoreError,
    >)
        requires
            old(self).wf(),
        ensures
            final(self).wf(),
            !old(self).records().contains_key(task_id@) ==> r == Err::<(), _>(
                DelegatedTaskStoreError::UnknownTask { task_id: *task_id },
            ),
            old(self).records().contains_key(task_id@) ==> match old(self).records()[task_id@].task.state {
                WorkerTaskState::Running { execution_id: active } => if active@ != execution_id@ {
                    r == Err::<(), _>(DelegatedTaskStoreError::ExecutionMismatch { task_id: *task_id })
                } else {
                    r is Ok
                },
                _ => r == Err::<(), _>(DelegatedTaskStoreError::InvalidState { task_id: *task_id }),
            },
            r is Err ==> final(self).records() == old(self).records(),
            r is Ok ==> {
                let old_rec = old(self).records()[task_id@];
                final(self).records() == old(self).records().insert(
                    task_id@,
                    DelegatedWorkerTaskRecord {
                        task: WorkerTaskRecord {
                            state: WorkerTaskState::Failed { execution_id: *execution_id, cause },
                            ..old_rec.task
                        },
                        ..old_rec
                    },
                )
            },
    {
        match self.tasks.get(task_id) {
            None => {
                return Err(DelegatedTaskStoreError::UnknownTask { task_id: task_id.clone() });
            },
            Some(record) => match &record.task.state {
                WorkerTaskState::Running { execution_id: active } => {
                    if !(*active == *execution_id) {
                        return Err(
                            DelegatedTaskStoreError::ExecutionMismatch { task_id: task_id.clone() },
                        );
                    }
                },
                _ => {
                    return Err(DelegatedTaskStoreError::InvalidState { task_id: task_id.clone() });
                },
            },
        }
        let mut record = self.tasks.remove(task_id).unwrap();
        record.task.state = WorkerTaskState::Failed { execution_id: execution_id.clone(), cause };
        self.tasks.insert(task_id.clone(), record);
        proof {
            assert(self.tasks@ =~= old(self).tasks@.insert(task_id@, record));
        }
        Ok(())
    }
}

// ---------------------------------------------------------------------------
// Reservations for delegated work
// ---------------------------------------------------------------------------

/// What a budget reservation is for.
#[derive(Clone, Copy, Debug, PartialEq, Eq, Structural)]
pub enum BudgetReservationPurpose {
    RootStep,
    Delegation,
}

/// The budget a reservation holds.
#[derive(Clone, Copy, Debug, PartialEq, Eq, Structural)]
pub struct BudgetReservation {
    pub input_tokens: u64,
    pub output_tokens: u64,
    pub cost_microunits: Option<u64>,
}

/// The terms a reservation request for a delegated task states.
#[derive(Clone, Debug, PartialEq, Eq)]
pub struct ReservationTerms {
    pub purpose: BudgetReservationPurpose,
    pub policy_revision: String,
    pub budget: BudgetReservation,
    pub attempts: u32,
}

/// The terms a delegated task was bound to.
#[derive(Clone, Debug, PartialEq, Eq)]
pub struct BindingTerms {
    pub parent_policy_revision: String,
    pub budget: BudgetReservation,
    pub attempts: u32,
}

/// Why delegated resources were refused.
#[derive(Clone, Debug, PartialEq, Eq)]
pub enum ExecutionResourceError {
    DuplicateRootBudget { root_execution_id: String },
    UnknownRootBudget { root_execution_id: String },
    DuplicateTaskReservation { task_id: String },
    UnknownTaskReservation { task_id: String },
    ChildLimitExceeded { parent_execution: String, allowed: u32 },
    ReservationPurposeMismatch,
    ReservationPolicyMismatch,
    ReservationBudgetMismatch,
    ReservationAttemptMismatch,
    Budget { reason: String },
    Task(DelegatedTaskStoreError),
}

/// A reservation for a delegated task must be a delegation reservation made
/// under the binding's policy, for exactly its budget and attempts.
pub fn validate_reservation_binding(reservation: &ReservationTerms, binding: &BindingTerms) -> (r: Result<
    (),
    ExecutionResourceError,
>)
    ensures
        reservation.purpose != BudgetReservationPurpose::Delegation ==> r == Err::<(), _>(
            ExecutionResourceError::ReservationPurposeMismatch,
        ),
        reservation.purpose == BudgetReservationPurpose::Delegation && reservation.policy_revision@
            != binding.parent_policy_revision@ ==> r == Err::<(), _>(
            ExecutionResourceError::ReservationPolicyMismatch,
        ),
        reservation.purpose == BudgetReservationPurpose::Delegation && reservation.policy_revision@
            == binding.parent_policy_revision@ && reservation.budget != binding.budget ==> r == Err::<
            (),
            _,
        >(ExecutionResourceError::ReservationBudgetMismatch),
        reservation.purpose == BudgetReservationPurpose::Delegation && reservation.policy_revision@
            == binding.parent_policy_revision@ && reservation.budget == binding.budget
            && reservation.attempts != binding.attempts ==> r == Err::<(), _>(
            ExecutionResourceError::ReservationAttemptMismatch,
        ),
        reservation.purpose == BudgetReservationPurpose::Delegation && reservation.policy_revision@
            == binding.parent_policy_revision@ && reservation.budget == binding.budget
            && reservation.attempts == binding.attempts ==> r is Ok,
{
    if reservation.purpose != BudgetReservationPurpose::Delegation {
        return Err(ExecutionResourceError::ReservationPurposeMismatch);
    }
    if !(reservation.policy_revision == binding.parent_policy_revision) {
        return Err(ExecutionResourceError::ReservationPolicyMismatch);
    }
    if reservation.budget != binding.budget {
        return Err(ExecutionResourceError::ReservationBudgetMismatch);
    }
    if reservation.attempts != binding.attempts {
        return Err(ExecutionResourceError::ReservationAttemptMismatch);
    }
    Ok(())
}

/// The root budget reservation a delegated task holds.
#[derive(Clone, Debug, PartialEq, Eq)]
pub struct TaskReservationBinding {
    pub root_execution_id: String,
    pub reservation_id: String,
}

/// The budget ledger of each root execution, the delegated tasks, and the
/// reservation each task holds. A ledger's own operations (reserving,
/// settling, releasing budget) are handed in as functions from the ledger
/// to its next state; the state keeps ledger and tasks in step.
pub struct ExecutionResourceState<L, B, R> {
    pub ledgers: TextMap<L>,
    pub delegated: DelegatedTaskStore<B, R>,
    pub task_reservations: TextMap<TaskReservationBinding>,
}

impl<L, B, R> ExecutionResourceState<L, B, R> {
    pub closed spec fn wf(self) -> bool {
        self.ledgers.wf() && self.delegated.wf() && self.task_reservations.wf()
    }

    pub closed spec fn budgets(self) -> Map<Seq<char>, L> {
        self.ledgers@
    }

    pub closed spec fn reservations(self) -> Map<Seq<char>, TaskReservationBinding> {
        self.task_reservations@
    }

    pub fn new() -> (s: Self)
        ensures
            s.wf(),
            s.budgets() == Map::<Seq<char>, L>::empty(),
            s.delegated.records() == Map::<Seq<char>, DelegatedWorkerTaskRecord<B, R>>::empty(),
            s.reservations() == Map::<Seq<char>, TaskReservationBinding>::empty(),
    {
        ExecutionResourceState {
            ledgers: TextMap::new(),
            delegated: DelegatedTaskStore::new(),
            task_reservations: TextMap::new(),
        }
    }

    /// Keeps the budget ledger of a new root execution.
    pub fn register_root_budget(&mut self, root_execution_id: String, ledger: L) -> (r: Result<
        (),
        ExecutionResourceError,
    >)
        requires
            old(self).wf(),
        ensures
            final(self).wf(),
            final(self).delegated.records() == old(self).delegated.records(),
            final(self).reservations() == old(self).reservations(),
            old(self).budgets().contains_key(root_execution_id@) ==> r == Err::<(), _>(
                ExecutionResourceError::DuplicateRootBudget { root_execution_id },
            ) && final(self).budgets() == old(self).budgets(),
            !old(self).budgets().contains_key(root_execution_id@) ==> r is Ok && final(self).budgets()
                == old(self).budgets().insert(root_execution_id@, ledger),
    {
        if self.ledgers.contains_key(&root_execution_id) {
            return Err(ExecutionResourceError::DuplicateRootBudget { root_execution_id });
        }
        self.ledgers.insert(root_execution_id, ledger);
        Ok(())
    }

    /// The budget ledger of a root execution.
    pub fn ledger(&self, root_execution_id: &String) -> (r: Result<&L, ExecutionResourceError>)
        requires
            self.wf(),
        ensures
            match r {
                Ok(l) => self.budgets().contains_key(root_execution_id@) && self.budgets()[root_execution_id@]
                    == *l,
                Err(e) => !self.budgets().contains_key(root_execution_id@) && e
                    == ExecutionResourceError::UnknownRootBudget { root_execution_id: *root_execution_id },
            },
    {
        match self.ledgers.get(root_execution_id) {
            Some(l) => Ok(l),
            None => Err(
                ExecutionResourceError::UnknownRootBudget { root_execution_id: root_execution_id.clone() },
            ),
        }
    }

    /// Applies one operation of a root execution's ledger (a reservation, a
    /// settlement, a release); the ledger changes only if it succeeds.
    pub fn update_ledger<F>(&mut self, root_execution_id: &String, operation: F) -> (r: Result<
        (),
        ExecutionResourceError,
    >) where F: FnOnce(&L) -> Result<L, String>
        requires
            old(self).wf(),
            old(self).budgets().contains_key(root_execution_id@) ==> operation.requires(
                (&old(self).budgets()[root_execution_id@],),
            ),
        ensures
            final(self).wf(),
            final(self).delegated.records() == old(self).delegated.records(),
            final(self).reservations() == old(self).reservations(),
            !old(self).budgets().contains_key(root_execution_id@) ==> r == Err::<(), _>(
                ExecutionResourceError::UnknownRootBudget { root_execution_id: *root_execution_id },
            ) && final(self).budgets() == old(self).budgets(),
            old(self).budgets().contains_key(root_execution_id@) ==> exists|out: Result<L, String>|
                {
                    &&& operation.ensures((&old(self).budgets()[root_execution_id@],), out)
                    &&& match out {
                        Ok(next) => r is Ok && final(self).budgets() == old(self).budgets().insert(
                            root_execution_id@,
                            next,
                        ),
                        Err(reason) => r == Err::<(), _>(ExecutionResourceError::Budget { reason })
                            && final(self).budgets() == old(self).budgets(),
                    }
                },
    {
        let out = match self.ledgers.get(root_execution_id) {
            None => {
                return Err(
                    ExecutionResourceError::UnknownRootBudget {
                        root_execution_id: root_execution_id.clone(),
                    },
                );
            },
            Some(ledger) => operation(ledger),
        };
        match out {
            Ok(next) => {
                self.ledgers.insert(root_execution_id.clone(), next);
                Ok(())
            },
            Err(reason) => Err(ExecutionResourceError::Budget { reason }),
        }
    }

    pub fn task_reservation(&self, task_id: &String) -> (r: Result<&TaskReservationBinding, ExecutionResourceError>)
        requires
            self.wf(),
        ensures
            match r {
                Ok(v) => self.reservations().contains_key(task_id@) && self.reservations()[task_id@] == *v,
                Err(e) => !self.reservations().contains_key(task_id@) && e
                    == ExecutionResourceError::UnknownTaskReservation { task_id: *task_id },
            },
    {
        match self.task_reservations.get(task_id) {
            Some(v) => Ok(v),
            None => Err(ExecutionResourceError::UnknownTaskReservation { task_id: task_id.clone() }),
        }
    }

    /// Admits a delegated task and its reservation together: the reservation
    /// must match the binding, the task may hold one reservation, its parent
    /// may have at most `max_children` tasks, the root's ledger must accept the
    /// reservation (`reserve`, the ledger's own reservation) and the task store
    /// must admit the task. Nothing changes unless all of these hold.
    pub fn admit_delegated<F>(
        &mut self,
        root_execution_id: String,
        reservation_id: String,
        reservation: &ReservationTerms,
        binding_terms: &BindingTerms,
        task: WorkerTaskRecord,
        binding: B,
        binding_authority: &Vec<String>,
        parent_authority: &Vec<String>,
        max_children: u32,
        reserve: F,
        policy_check: Result<(), String>,
        deadline_check: Result<(), String>,
    ) -> (r: Result<(), ExecutionResourceError>) where F: FnOnce(&L) -> Result<L, String>
        requires
            old(self).wf(),
            old(self).budgets().contains_key(root_execution_id@) ==> reserve.requires(
                (&old(self).budgets()[root_execution_id@],),
            ),
        ensures
            final(self).wf(),
            r is Err ==> final(self).delegated.records() == old(self).delegated.records()
                && final(self).reservations() == old(self).reservations() && final(self).budgets()
                == old(self).budgets(),
            r is Ok ==> {
                &&& final(self).reservations() == old(self).reservations().insert(
                    task.id@,
                    TaskReservationBinding { root_execution_id, reservation_id },
                )
                &&& final(self).delegated.records() == old(self).delegated.records().insert(
                    task.id@,
                    DelegatedWorkerTaskRecord { task, binding, result: None },
                )
                &&& children(old(self).delegated.entries(), task.parent_execution@) < max_children
                &&& old(self).budgets().contains_key(root_execution_id@)
                &&& exists|next: L|
                    reserve.ensures((&old(self).budgets()[root_execution_id@],), Ok::<L, String>(next))
                        && final(self).budgets() == old(self).budgets().insert(root_execution_id@, next)
            },
            old(self).reservations().contains_key(task.id@) ==> r is Err,
            children(old(self).delegated.entries(), task.parent_execution@) >= max_children ==> r is Err,
            validate_reservation_binding_spec(*reservation, *binding_terms) is Some ==> r == Err::<(), _>(
                validate_reservation_binding_spec(*reservation, *binding_terms)->0,
            ),
            validate_reservation_binding_spec(*reservation, *binding_terms) is None
                && old(self).reservations().contains_key(task.id@) ==> r == Err::<(), _>(
                ExecutionResourceError::DuplicateTaskReservation { task_id: task.id },
            ),
            validate_reservation_binding_spec(*reservation, *binding_terms) is None
                && !old(self).reservations().contains_key(task.id@) && children(
                old(self).delegated.entries(),
                task.parent_execution@,
            ) >= max_children ==> r == Err::<(), _>(
                ExecutionResourceError::ChildLimitExceeded {
                    parent_execution: task.parent_execution,
                    allowed: max_children,
                },
            ),
            validate_reservation_binding_spec(*reservation, *binding_terms) is None
                && !old(self).reservations().contains_key(task.id@) && children(
                old(self).delegated.entries(),
                task.parent_execution@,
            ) < max_children && !old(self).budgets().contains_key(root_execution_id@) ==> r == Err::<
                (),
                _,
            >(ExecutionResourceError::UnknownRootBudget { root_execution_id }),
            validate_reservation_binding_spec(*reservation, *binding_terms) is None
                && !old(self).reservations().contains_key(task.id@) && children(
                old(self).delegated.entries(),
                task.parent_execution@,
            ) < max_children && old(self).budgets().contains_key(root_execution_id@) ==> exists|
                out: Result<L, String>,
            |
                {
                    &&& reserve.ensures((&old(self).budgets()[root_execution_id@],), out)
                    &&& (out matches Err(reason) ==> r == Err::<(), _>(
                        ExecutionResourceError::Budget { reason },
                    ))
                    &&& (out is Ok ==> match create_error(
                        old(self).delegated.records(),
                        task,
                        *binding_authority,
                        *parent_authority,
                        policy_check,
                        deadline_check,
                    ) {
                        Some(e) => r == Err::<(), _>(ExecutionResourceError::Task(e)),
                        None => r is Ok,
                    })
                },
    {
        validate_reservation_binding(reservation, binding_terms)?;
        if self.task_reservations.contains_key(&task.id) {
            return Err(ExecutionResourceError::DuplicateTaskReservation { task_id: task.id });
        }
        if self.delegated.child_count(&task.parent_execution) >= max_children as usize {
            return Err(
                ExecutionResourceError::ChildLimitExceeded {
                    parent_execution: task.parent_execution,
                    allowed: max_children,
                },
            );
        }
        let reserved = match self.ledgers.get(&root_execution_id) {
            None => {
                return Err(ExecutionResourceError::UnknownRootBudget { root_execution_id });
            },
            Some(ledger) => reserve(ledger),
        };
        let next = match reserved {
            Err(reason) => {
                return Err(ExecutionResourceError::Budget { reason });
            },
            Ok(next) => next,
        };
        let task_id = task.id.clone();
        match self.delegated.create(
            task,
            binding,
            binding_authority,
            parent_authority,
            policy_check,
            deadline_check,
        ) {
            Err(e) => {
                return Err(ExecutionResourceError::Task(e));
            },
            Ok(()) => {},
        }
        self.ledgers.insert(root_execution_id.clone(), next);
        self.task_reservations.insert(
            task_id,
            TaskReservationBinding { root_execution_id, reservation_id },
        );
        Ok(())
    }

    /// Starts a runnable delegated task under `execution_id`.
    pub fn start_delegated(&mut self, task_id: &String, execution_id: String, deadline_check: Result<
        (),
        String,
    >) -> (r: Result<(), ExecutionResourceError>)
        requires
            old(self).wf(),
        ensures
            final(self).wf(),
            final(self).budgets() == old(self).budgets(),
            final(self).reservations() == old(self).reservations(),
            match r {
                Ok(()) => true,
                Err(ExecutionResourceError::Task(_)) => final(self).delegated.records() == old(self).delegated.records(),
                Err(_) => false,
            },
            !(old(self).delegated.records().contains_key(task_id@) && is_runnable(
                old(self).delegated.records(),
                old(self).delegated.records()[task_id@],
            )) ==> r == Err::<(), _>(
                ExecutionResourceError::Task(DelegatedTaskStoreError::NotRunnable { task_id: *task_id }),
            ),
            old(self).delegated.records().contains_key(task_id@) && is_runnable(
                old(self).delegated.records(),
                old(self).delegated.records()[task_id@],
            ) ==> match deadline_check {
                Err(reason) => r == Err::<(), _>(
                    ExecutionResourceError::Task(DelegatedTaskStoreError::Admission { reason }),
                ),
                Ok(_) => r is Ok && final(self).delegated.records() == old(self).delegated.records().insert(
                    task_id@,
                    DelegatedWorkerTaskRecord {
                        task: WorkerTaskRecord {
                            state: WorkerTaskState::Running { execution_id },
                            ..old(self).delegated.records()[task_id@].task
                        },
                        ..old(self).delegated.records()[task_id@]
                    },
                ),
            },
    {
        match self.delegated.start(task_id, execution_id, deadline_check) {
            Ok(()) => Ok(()),
            Err(e) => Err(ExecutionResourceError::Task(e)),
        }
    }

    /// Completes a delegated task and settles its reservation together
    /// (`settle`, the ledger's own settlement of the actual use); nothing
    /// changes unless both succeed.
    pub fn complete_delegated<F>(
        &mut self,
        task_id: &String,
        execution_id: &String,
        result: R,
        validation: Result<(), String>,
        result_refs: Vec<String>,
        settle: F,
    ) -> (r: Result<(), ExecutionResourceError>) where F: FnOnce(&L) -> Result<L, String>
        requires
            old(self).wf(),
            forall|root: Seq<char>| #[trigger] old(self).budgets().contains_key(root) ==> settle.requires(
                (&old(self).budgets()[root],),
            ),
        ensures
            final(self).wf(),
            final(self).reservations() == old(self).reservations(),
            r is Err ==> final(self).delegated.records() == old(self).delegated.records()
                && final(self).budgets() == old(self).budgets(),
            !old(self).reservations().contains_key(task_id@) ==> r == Err::<(), _>(
                ExecutionResourceError::UnknownTaskReservation { task_id: *task_id },
            ),
            old(self).reservations().contains_key(task_id@) ==> {
                let root = old(self).reservations()[task_id@].root_execution_id;
                if !old(self).budgets().contains_key(root@) {
                    r == Err::<(), _>(ExecutionResourceError::UnknownRootBudget { root_execution_id: root })
                } else if settle_error(old(self).delegated.records(), *task_id, *execution_id) is Some {
                    r == Err::<(), _>(
                        ExecutionResourceError::Task(
                            settle_error(old(self).delegated.records(), *task_id, *execution_id)->0,
                        ),
                    )
                } else if validation is Err {
                    r == Err::<(), _>(
                        ExecutionResourceError::Task(
                            DelegatedTaskStoreError::Admission { reason: validation->Err_0 },
                        ),
                    )
                } else {
                    exists|out: Result<L, String>|
                        {
                            &&& settle.ensures((&old(self).budgets()[root@],), out)
                            &&& match out {
                                Err(reason) => r == Err::<(), _>(ExecutionResourceError::Budget { reason }),
                                Ok(next) => {
                                    &&& r is Ok
                                    &&& final(self).budgets() == old(self).budgets().insert(root@, next)
                                    &&& final(self).delegated.records().dom() == old(self).delegated.records().dom()
                                    &&& final(self).delegated.records()[task_id@].result == Some(result)
                                    &&& final(self).delegated.records()[task_id@].task.state matches WorkerTaskState::Completed {
                                        execution_id: e,
                                        result_refs: refs,
                                    } && e@ == execution_id@ && refs == result_refs
                                    &&& forall|k: Seq<char>|
                                        k != task_id@ && #[trigger] old(self).delegated.records().contains_key(k) ==> final(self).delegated.records()[k] == old(self).delegated.records()[k]
                                },
                            }
                        }
                }
            },
    {
        let root = match self.task_reservations.get(task_id) {
            None => {
                return Err(ExecutionResourceError::UnknownTaskReservation { task_id: task_id.clone() });
            },
            Some(binding) => binding.root_execution_id.clone(),
        };
        if !self.ledgers.contains_key(&root) {
            return Err(ExecutionResourceError::UnknownRootBudget { root_execution_id: root });
        }
        if let Err(e) = self.delegated.settle_check(task_id, execution_id) {
            return Err(ExecutionResourceError::Task(e));
        }
        if let Err(reason) = validation {
            return Err(ExecutionResourceError::Task(DelegatedTaskStoreError::Admission { reason }));
        }
        proof {
            assert(old(self).budgets().contains_key(root@));
        }
        let settled = match self.ledgers.get(&root) {
            None => {
                return Err(ExecutionResourceError::UnknownRootBudget { root_execution_id: root });
            },
            Some(ledger) => settle(ledger),
        };
        let next = match settled {
            Err(reason) => {
                return Err(ExecutionResourceError::Budget { reason });
            },
            Ok(next) => next,
        };
        let done = self.delegated.complete(task_id, execution_id, result, Ok(()), result_refs);
        proof {
            assert(done is Ok);
        }
        self.ledgers.insert(root, next);
        Ok(())
    }

    /// Fails a delegated task and settles its reservation together; nothing
    /// changes unless both succeed.
    pub fn fail_delegated<F>(
        &mut self,
        task_id: &String,
        execution_id: &String,
        cause: String,
        settle: F,
    ) -> (r: Result<(), ExecutionResourceError>) where F: FnOnce(&L) -> Result<L, String>
        requires
            old(self).wf(),
            forall|root: Seq<char>| #[trigger] old(self).budgets().contains_key(root) ==> settle.requires(
                (&old(self).budgets()[root],),
            ),
        ensures
            final(self).wf(),
            final(self).reservations() == old(self).reservations(),
            r is Err ==> final(self).delegated.records() == old(self).delegated.records()
                && final(self).budgets() == old(self).budgets(),
            !old(self).reservations().contains_key(task_id@) ==> r == Err::<(), _>(
                ExecutionResourceError::UnknownTaskReservation { task_id: *task_id },
            ),
            old(self).reservations().contains_key(task_id@) ==> {
                let root = old(self).reservations()[task_id@].root_execution_id;
                if !old(self).budgets().contains_key(root@) {
                    r == Err::<(), _>(ExecutionResourceError::UnknownRootBudget { root_execution_id: root })
                } else if settle_error(old(self).delegated.records(), *task_id, *execution_id) is Some {
                    r == Err::<(), _>(
                        ExecutionResourceError::Task(
                            settle_error(old(self).delegated.records(), *task_id, *execution_id)->0,
                        ),
                    )
                } else {
                    exists|out: Result<L, String>|
                        {
                            &&& settle.ensures((&old(self).budgets()[root@],), out)
                            &&& match out {
                                Err(reason) => r == Err::<(), _>(ExecutionResourceError::Budget { reason }),
                                Ok(next) => {
                                    &&& r is Ok
                                    &&& final(self).budgets() == old(self).budgets().insert(root@, next)
                                    &&& final(self).delegated.records() == old(self).delegated.records().insert(
                                        task_id@,
                                        DelegatedWorkerTaskRecord {
                                            task: WorkerTaskRecord {
                                                state: WorkerTaskState::Failed {
                                                    execution_id: *execution_id,
                                                    cause,
                                                },
                                                ..old(self).delegated.records()[task_id@].task
                                            },
                                            ..old(self).delegated.records()[task_id@]
                                        },
                                    )
                                },
                            }
                        }
                }
            },
    {
        let root = match self.task_reservations.get(task_id) {
            None => {
                return Err(ExecutionResourceError::UnknownTaskReservation { task_id: task_id.clone() });
            },
            Some(binding) => binding.root_execution_id.clone(),
        };
        if !self.ledgers.contains_key(&root) {
            return Err(ExecutionResourceError::UnknownRootBudget { root_execution_id: root });
        }
        if let Err(e) = self.delegated.settle_check(task_id, execution_id) {
            return Err(ExecutionResourceError::Task(e));
        }
        proof {
            assert(old(self).budgets().contains_key(root@));
        }
        let settled = match self.ledgers.get(&root) {
            None => {
                return Err(ExecutionResourceError::UnknownRootBudget { root_execution_id: root });
            },
            Some(ledger) => settle(ledger),
        };
        let next = match settled {
            Err(reason) => {
                return Err(ExecutionResourceError::Budget { reason });
            },
            Ok(next) => next,
        };
        let done = self.delegated.fail(task_id, execution_id, cause);
        proof {
            assert(done is Ok);
        }
        self.ledgers.insert(root, next);
        Ok(())
    }
}

/// The first term on which a reservation and a binding disagree.
pub open spec fn validate_reservation_binding_spec(reservation: ReservationTerms, binding: BindingTerms) -> Option<
    ExecutionResourceError,
> {
    if reservation.purpose != BudgetReservationPurpose::Delegation {
        Some(ExecutionResourceError::ReservationPurposeMismatch)
    } else if reservation.policy_revision@ != binding.parent_policy_revision@ {
        Some(ExecutionResourceError::ReservationPolicyMismatch)
    } else if reservation.budget != binding.budget {
        Some(ExecutionResourceError::ReservationBudgetMismatch)
    } else if reservation.attempts != binding.attempts {
        Some(ExecutionResourceError::ReservationAttemptMismatch)
    } else {
        None
    }
}


/// A task waits on its dependencies: while any task it depends on is missing
/// or has not completed (pending, running, failed or cancelled), it is not
/// runnable, so it is neither listed as runnable nor started.
pub proof fn lemma_unfinished_dependency_blocks<B, R>(
    m: Map<Seq<char>, DelegatedWorkerTaskRecord<B, R>>,
    rec: DelegatedWorkerTaskRecord<B, R>,
    i: int,
)
    requires
        0 <= i < rec.task.depends_on@.len(),
        !m.contains_key(rec.task.depends_on@[i]@) || !(m[rec.task.depends_on@[i]@].task.state is Completed),
    ensures
        !is_runnable(m, rec),
{
    let d = rec.task.depends_on@[i]@;
    assert(!(m.contains_key(d) && m[d].task.state is Completed));
}

/// A runnable task is pending and every task it depends on is recorded and
/// completed.
pub proof fn lemma_runnable_means_dependencies_completed<B, R>(
    m: Map<Seq<char>, DelegatedWorkerTaskRecord<B, R>>,
    rec: DelegatedWorkerTaskRecord<B, R>,
)
    requires
        is_runnable(m, rec),
    ensures
        rec.task.state is Pending,
        forall|i: int|
            0 <= i < rec.task.depends_on@.len() ==> m.contains_key(#[trigger] rec.task.depends_on@[i]@)
                && m[rec.task.depends_on@[i]@].task.state is Completed,
{
    assert forall|i: int| 0 <= i < rec.task.depends_on@.len() implies m.contains_key(
        #[trigger] rec.task.depends_on@[i]@,
    ) && m[rec.task.depends_on@[i]@].task.state is Completed by {
        let d = rec.task.depends_on@[i]@;
        assert(m.contains_key(d) && m[d].task.state is Completed);
    }
}

proof fn lemma_runnable_ids_sound<B, R>(
    m: Map<Seq<char>, DelegatedWorkerTaskRecord<B, R>>,
    entries: Seq<(String, DelegatedWorkerTaskRecord<B, R>)>,
    k: int,
)
    requires
        0 <= k < runnable_ids(m, entries).len(),
    ensures
        exists|j: int|
            0 <= j < entries.len() && (#[trigger] entries[j]).0@ == runnable_ids(m, entries)[k] && is_runnable(
                m,
                entries[j].1,
            ),
    decreases entries.len(),
{
    let rest = runnable_ids(m, entries.drop_last());
    if k < rest.len() {
        lemma_runnable_ids_sound(m, entries.drop_last(), k);
        let j = choose|j: int|
            0 <= j < entries.drop_last().len() && (#[trigger] entries.drop_last()[j]).0@ == rest[k]
                && is_runnable(m, entries.drop_last()[j].1);
        assert(entries[j] == entries.drop_last()[j]);
    } else {
        let j = entries.len() - 1;
        assert(entries[j] == entries.last());
    }
}

} // verus!
