//! The ledger of step attempts: every model step attempt of a root execution
//! has a unique identity, and a retry names a settled, unsuccessful parent in
//! the same root.
use crate::identity::{is_blank, is_blank_str};
use crate::text::{decimal, numbered};
use crate::text_map::TextMap;
use vstd::prelude::*;

verus! {

/// Why an attempt was made.
#[derive(Clone, Copy, Debug, PartialEq, Eq)]
pub enum UsageAttemptKind {
    Root,
    Retry,
    Delegated,
}

/// Who an attempt's usage is charged to.
#[derive(Clone, Debug, PartialEq, Eq)]
pub struct UsageAttribution {
    pub root_execution_id: String,
    pub execution_id: String,
    pub attempt_id: String,
    pub parent_attempt_id: Option<String>,
    pub policy_revision: String,
    pub kind: UsageAttemptKind,
    pub task_id: Option<String>,
}

/// How far an attempt has progressed.
#[derive(Clone, Copy, Debug, PartialEq, Eq)]
pub enum StepAttemptPhase {
    Planned,
    Reserved,
    Routed,
    Projected,
    Dispatched,
    Settled,
}

/// How a settled attempt ended.
#[derive(Clone, Copy, Debug, PartialEq, Eq)]
pub enum AttemptOutcome {
    Succeeded,
    Failed,
    Cancelled,
}

/// One step attempt as the ledger keeps it.
#[derive(Clone, Debug, PartialEq, Eq)]
pub struct StepAttemptRecord {
    pub attribution: UsageAttribution,
    pub phase: StepAttemptPhase,
    pub outcome: Option<AttemptOutcome>,
}

/// Why the ledger refused a request.
#[derive(Clone, Debug, PartialEq, Eq)]
pub enum AttemptLedgerError {
    EmptyIdentity { label: String },
    UnknownParent { parent_attempt_id: String },
    ParentInOtherRoot,
    ParentNotSettled,
    SucceededAttemptRetried,
    IdentityExhausted,
    AlreadyExists { attempt_id: String },
    SelfParent,
    RootWithParent,
    RetryWithoutParent,
    UnknownAttempt { attempt_id: String },
    Transition { reason: String },
}

fn clone_text_option(a: &Option<String>) -> (r: Option<String>)
    ensures
        r == *a,
{
    match a {
        Some(x) => Some(x.clone()),
        None => None,
    }
}

impl StepAttemptRecord {
    pub fn duplicate(&self) -> (r: StepAttemptRecord)
        ensures
            r == *self,
    {
        StepAttemptRecord {
            attribution: UsageAttribution {
                root_execution_id: self.attribution.root_execution_id.clone(),
                execution_id: self.attribution.execution_id.clone(),
                attempt_id: self.attribution.attempt_id.clone(),
                parent_attempt_id: clone_text_option(&self.attribution.parent_attempt_id),
                policy_revision: self.attribution.policy_revision.clone(),
                kind: self.attribution.kind,
                task_id: clone_text_option(&self.attribution.task_id),
            },
            phase: self.phase,
            outcome: self.outcome,
        }
    }
}

/// The identity of the `n`-th allocated attempt.
pub open spec fn attempt_id_for(n: nat) -> Seq<char> {
    "attempt-"@ + decimal(n)
}

/// Why an attempt may not be the parent of a retry in `root`, if it may not.
pub open spec fn retry_parent_error(parent: StepAttemptRecord, root: Seq<char>) -> Option<
    AttemptLedgerError,
> {
    if parent.attribution.root_execution_id@ != root {
        Some(AttemptLedgerError::ParentInOtherRoot)
    } else if parent.phase != StepAttemptPhase::Settled {
        Some(AttemptLedgerError::ParentNotSettled)
    } else if parent.outcome == Some(AttemptOutcome::Succeeded) {
        Some(AttemptLedgerError::SucceededAttemptRetried)
    } else {
        None
    }
}

/// The first identity check that fails, in the order root execution,
/// execution, policy revision, parent attempt.
pub open spec fn allocation_identity_error(
    root: Seq<char>,
    execution: Seq<char>,
    parent: Option<String>,
    policy: Seq<char>,
) -> Option<Seq<char>> {
    if is_blank(root) {
        Some("root execution id"@)
    } else if is_blank(execution) {
        Some("execution id"@)
    } else if is_blank(policy) {
        Some("policy revision"@)
    } else if parent matches Some(p) && is_blank(p@) {
        Some("parent attempt id"@)
    } else {
        None
    }
}

/// The check of a retry's parent for `create`, given the attribution to record.
pub open spec fn create_error(m: Map<Seq<char>, StepAttemptRecord>, a: UsageAttribution) -> Option<
    AttemptLedgerError,
> {
    if m.contains_key(a.attempt_id@) {
        Some(AttemptLedgerError::AlreadyExists { attempt_id: a.attempt_id })
    } else if a.parent_attempt_id matches Some(p) && p@ == a.attempt_id@ {
        Some(AttemptLedgerError::SelfParent)
    } else if a.kind == UsageAttemptKind::Root && a.parent_attempt_id is Some {
        Some(AttemptLedgerError::RootWithParent)
    } else if a.kind == UsageAttemptKind::Retry && a.parent_attempt_id is None {
        Some(AttemptLedgerError::RetryWithoutParent)
    } else {
        match a.parent_attempt_id {
            Some(p) => if !m.contains_key(p@) {
                Some(AttemptLedgerError::UnknownParent { parent_attempt_id: p })
            } else if m[p@].attribution.root_execution_id@ != a.root_execution_id@ {
                Some(AttemptLedgerError::ParentInOtherRoot)
            } else if a.kind == UsageAttemptKind::Retry {
                retry_parent_error(m[p@], a.root_execution_id@)
            } else {
                None
            },
            None => None,
        }
    }
}

/// Whether an attempt belongs to the root execution `root`.
pub open spec fn of_root(root: Seq<char>) -> spec_fn(StepAttemptRecord) -> bool {
    |a: StepAttemptRecord| a.attribution.root_execution_id@ == root
}

/// All step attempts, and the sequence number of the last identity allocated.
#[derive(Clone, Debug, PartialEq, Eq)]
pub struct AttemptLedger {
    next_sequence: u64,
    attempts: TextMap<StepAttemptRecord>,
}

impl AttemptLedger {
    pub closed spec fn wf(self) -> bool {
        self.attempts.wf()
    }

    pub closed spec fn view(self) -> Map<Seq<char>, StepAttemptRecord> {
        self.attempts.view()
    }

    pub closed spec fn sequence(self) -> u64 {
        self.next_sequence
    }

    /// The attempts in ascending order of their identities.
    pub closed spec fn ordered(self) -> Seq<StepAttemptRecord> {
        self.attempts.entry_seq().map_values(|e: (String, StepAttemptRecord)| e.1)
    }

    pub fn new() -> (l: Self)
        ensures
            l.wf(),
            l.view() == Map::<Seq<char>, StepAttemptRecord>::empty(),
            l.sequence() == 0,
    {
        AttemptLedger { next_sequence: 0, attempts: TextMap::new() }
    }

    pub fn get(&self, attempt_id: &String) -> (r: Option<&StepAttemptRecord>)
        requires
            self.wf(),
        ensures
            match r {
                Some(v) => self.view().contains_key(attempt_id@) && self.view()[attempt_id@] == *v,
                None => !self.view().contains_key(attempt_id@),
            },
    {
        self.attempts.get(attempt_id)
    }

    /// Allocates the identity of a new attempt: the next `attempt-<n>` not yet
    /// in the ledger. A retry must name a settled, unsuccessful parent of the
    /// same root. The ledger's attempts do not change.
    pub fn allocate_identity(
        &mut self,
        root_execution_id: String,
        execution_id: String,
        parent_attempt_id: Option<String>,
        policy_revision: String,
    ) -> (r: Result<UsageAttribution, AttemptLedgerError>)
        requires
            old(self).wf(),
        ensures
            final(self).wf(),
            final(self).view() == old(self).view(),
            r is Err ==> final(self).sequence() == old(self).sequence(),
            match allocation_identity_error(
                root_execution_id@,
                execution_id@,
                parent_attempt_id,
                policy_revision@,
            ) {
                Some(label) => r matches Err(AttemptLedgerError::EmptyIdentity { label: l }) && l@
                    == label,
                None => match parent_attempt_id {
                    Some(p) if !old(self).view().contains_key(p@) => r == Err::<UsageAttribution, _>(
                        AttemptLedgerError::UnknownParent { parent_attempt_id: p },
                    ),
                    Some(p) if retry_parent_error(old(self).view()[p@], root_execution_id@) is Some => r
                        == Err::<UsageAttribution, _>(
                        retry_parent_error(old(self).view()[p@], root_execution_id@)->0,
                    ),
                    _ => match r {
                        Ok(a) => {
                            &&& a.root_execution_id == root_execution_id
                            &&& a.execution_id == execution_id
                            &&& a.parent_attempt_id == parent_attempt_id
                            &&& a.policy_revision == policy_revision
                            &&& a.kind == if parent_attempt_id is Some {
                                UsageAttemptKind::Retry
                            } else {
                                UsageAttemptKind::Root
                            }
                            &&& a.task_id is None
                            &&& old(self).sequence() < final(self).sequence()
                            &&& a.attempt_id@ == attempt_id_for(final(self).sequence() as nat)
                            &&& !old(self).view().contains_key(a.attempt_id@)
                            &&& forall|n: int|
                                old(self).sequence() < n < final(self).sequence()
                                    ==> #[trigger] old(self).view().contains_key(attempt_id_for(n as nat))
                        },
                        Err(e) => {
                            &&& e == AttemptLedgerError::IdentityExhausted
                            &&& forall|n: int|
                                old(self).sequence() < n <= u64::MAX
                                    ==> #[trigger] old(self).view().contains_key(attempt_id_for(n as nat))
                        },
                    },
                },
            },
    {
        if is_blank_str(root_execution_id.as_str()) {
            return Err(AttemptLedgerError::EmptyIdentity { label: String::from_str("root execution id") });
        }
        if is_blank_str(execution_id.as_str()) {
            return Err(AttemptLedgerError::EmptyIdentity { label: String::from_str("execution id") });
        }
        if is_blank_str(policy_revision.as_str()) {
            return Err(AttemptLedgerError::EmptyIdentity { label: String::from_str("policy revision") });
        }
        if let Some(parent_id) = &parent_attempt_id {
            if is_blank_str(parent_id.as_str()) {
                return Err(
                    AttemptLedgerError::EmptyIdentity { label: String::from_str("parent attempt id") },
                );
            }
            let parent = match self.attempts.get(parent_id) {
                Some(p) => p,
                None => {
                    return Err(
                        AttemptLedgerError::UnknownParent { parent_attempt_id: parent_id.clone() },
                    );
                },
            };
            if !(parent.attribution.root_execution_id == root_execution_id) {
                return Err(AttemptLedgerError::ParentInOtherRoot);
            }
            if !matches!(parent.phase, StepAttemptPhase::Settled) {
                return Err(AttemptLedgerError::ParentNotSettled);
            }
            if matches!(parent.outcome, Some(AttemptOutcome::Succeeded)) {
                return Err(AttemptLedgerError::SucceededAttemptRetried);
            }
        }
        let ghost start = self.next_sequence;
        let mut sequence = self.next_sequence;
        let mut attempt_id = String::new();
        let mut found = false;
        while !found
            invariant
                self.wf(),
                self.view() == old(self).view(),
                start == self.next_sequence,
                start == old(self).sequence(),
                start <= sequence,
                allocation_identity_error(
                    root_execution_id@,
                    execution_id@,
                    parent_attempt_id,
                    policy_revision@,
                ) is None,
                parent_attempt_id matches Some(p) ==> self.view().contains_key(p@)
                    && retry_parent_error(self.view()[p@], root_execution_id@) is None,
                found ==> start < sequence && attempt_id@ == attempt_id_for(sequence as nat)
                    && !self.view().contains_key(attempt_id@),
                forall|n: int| start < n <= sequence && !(found && n == sequence)
                    ==> #[trigger] self.view().contains_key(attempt_id_for(n as nat)),
            decreases u64::MAX - sequence + if found { 0int } else { 1int },
        {
            if sequence == u64::MAX {
                return Err(AttemptLedgerError::IdentityExhausted);
            }
            sequence = sequence + 1;
            let candidate = numbered("attempt-", sequence);
            if !self.attempts.contains_key(&candidate) {
                attempt_id = candidate;
                found = true;
            }
        }
        self.next_sequence = sequence;
        let kind = if parent_attempt_id.is_some() {
            UsageAttemptKind::Retry
        } else {
            UsageAttemptKind::Root
        };
        Ok(
            UsageAttribution {
                root_execution_id,
                execution_id,
                attempt_id,
                parent_attempt_id,
                policy_revision,
                kind,
                task_id: None,
            },
        )
    }

    /// Records a new attempt after checking its identity and its parent.
    pub fn create(&mut self, record: StepAttemptRecord) -> (r: Result<StepAttemptRecord, AttemptLedgerError>)
        requires
            old(self).wf(),
        ensures
            final(self).wf(),
            final(self).sequence() == old(self).sequence(),
            match create_error(old(self).view(), record.attribution) {
                Some(e) => r == Err::<StepAttemptRecord, _>(e) && final(self).view() == old(self).view(),
                None => r == Ok::<_, AttemptLedgerError>(record) && final(self).view() == old(
                    self,
                ).view().insert(record.attribution.attempt_id@, record),
            },
    {
        let a = &record.attribution;
        if self.attempts.contains_key(&a.attempt_id) {
            return Err(AttemptLedgerError::AlreadyExists { attempt_id: a.attempt_id.clone() });
        }
        if let Some(p) = &a.parent_attempt_id {
            if *p == a.attempt_id {
                return Err(AttemptLedgerError::SelfParent);
            }
        }
        match a.kind {
            UsageAttemptKind::Root => {
                if a.parent_attempt_id.is_some() {
                    return Err(AttemptLedgerError::RootWithParent);
                }
            },
            UsageAttemptKind::Retry => {
                if a.parent_attempt_id.is_none() {
                    return Err(AttemptLedgerError::RetryWithoutParent);
                }
            },
            UsageAttemptKind::Delegated => {},
        }
        if let Some(parent_id) = &a.parent_attempt_id {
            let parent = match self.attempts.get(parent_id) {
                Some(p) => p,
                None => {
                    return Err(
                        AttemptLedgerError::UnknownParent { parent_attempt_id: parent_id.clone() },
                    );
                },
            };
            if !(parent.attribution.root_execution_id == a.root_execution_id) {
                return Err(AttemptLedgerError::ParentInOtherRoot);
            }
            if matches!(a.kind, UsageAttemptKind::Retry) {
                if !matches!(parent.phase, StepAttemptPhase::Settled) {
                    return Err(AttemptLedgerError::ParentNotSettled);
                }
                if matches!(parent.outcome, Some(AttemptOutcome::Succeeded)) {
                    return Err(AttemptLedgerError::SucceededAttemptRetried);
                }
            }
        }
        let key = record.attribution.attempt_id.clone();
        let stored = record.duplicate();
        self.attempts.insert(key, stored);
        Ok(record)
    }

    /// Moves an attempt on: `transition` is applied to a copy of the recorded
    /// attempt, and what it returns replaces the record. The ledger does not
    /// change when the attempt is unknown or the transition refuses.
    pub fn mutate<F>(&mut self, attempt_id: &String, transition: F) -> (r: Result<
        StepAttemptRecord,
        AttemptLedgerError,
    >) where F: FnOnce(StepAttemptRecord) -> Result<StepAttemptRecord, String>
        requires
            old(self).wf(),
            old(self).view().contains_key(attempt_id@) ==> transition.requires(
                (old(self).view()[attempt_id@],),
            ),
        ensures
            final(self).wf(),
            final(self).sequence() == old(self).sequence(),
            !old(self).view().contains_key(attempt_id@) ==> r == Err::<StepAttemptRecord, _>(
                AttemptLedgerError::UnknownAttempt { attempt_id: *attempt_id },
            ) && final(self).view() == old(self).view(),
            old(self).view().contains_key(attempt_id@) ==> exists|out: Result<StepAttemptRecord, String>|
                {
                    &&& transition.ensures((old(self).view()[attempt_id@],), out)
                    &&& match out {
                        Ok(next) => r == Ok::<_, AttemptLedgerError>(next) && final(self).view()
                            == old(self).view().insert(attempt_id@, next),
                        Err(reason) => r == Err::<StepAttemptRecord, _>(
                            AttemptLedgerError::Transition { reason },
                        ) && final(self).view() == old(self).view(),
                    }
                },
    {
        let current = match self.attempts.get(attempt_id) {
            Some(record) => record.duplicate(),
            None => {
                return Err(AttemptLedgerError::UnknownAttempt { attempt_id: attempt_id.clone() });
            },
        };
        let out = transition(current);
        match out {
            Ok(next) => {
                let stored = next.duplicate();
                self.attempts.insert(attempt_id.clone(), stored);
                Ok(next)
            },
            Err(reason) => Err(AttemptLedgerError::Transition { reason }),
        }
    }

    /// The attempts of one root execution, in ascending order of identity.
    pub fn list_root(&self, root_execution_id: &String) -> (r: Vec<StepAttemptRecord>)
        requires
            self.wf(),
        ensures
            r@ == self.ordered().filter(of_root(root_execution_id@)),
    {
        let ghost pred = of_root(root_execution_id@);
        let ghost all = self.ordered();
        let mut out: Vec<StepAttemptRecord> = Vec::new();
        let mut i: usize = 0;
        let n = self.attempts.len();
        while i < n
            invariant
                n == self.attempts.entry_seq().len(),
                all == self.ordered(),
                pred == of_root(root_execution_id@),
                all.len() == n,
                i <= n,
                out@ == all.take(i as int).filter(pred),
            decreases n - i,
        {
            let (_, record) = self.attempts.entry(i);
            proof {
                assert(all.take(i + 1).drop_last() =~= all.take(i as int));
                assert(all[i as int] == *record);
                vstd::seq::Seq::lemma_filter_push(all.take(i as int), *record, pred);
                assert(all.take(i + 1) =~= all.take(i as int).push(*record));
            }
            if record.attribution.root_execution_id == *root_execution_id {
                out.push(record.duplicate());
            }
            i = i + 1;
        }
        proof {
            assert(all.take(n as int) =~= all);
        }
        out
    }
}


// ---------------------------------------------------------------------------
// Commands and the durable state's size
// ---------------------------------------------------------------------------

/// The largest encoded ledger the attempt service keeps: 16 MiB.
pub const MAX_ATTEMPT_STATE_BYTES: usize = 16777216;

/// The commands of the step attempt service.
#[derive(Clone, Copy, Debug, PartialEq, Eq, Structural)]
pub enum StepAttemptCommandKind {
    AllocateIdentity,
    Create,
    BindReservation,
    BindRoute,
    BindProjection,
    MarkDispatched,
    Abort,
    Settle,
    Get,
    ListRoot,
}

/// Whether a command only reads the ledger; every other command changes a
/// copy of it that is kept only when it commits.
pub fn reads_only(kind: StepAttemptCommandKind) -> (r: bool)
    ensures
        r == (kind is Get || kind is ListRoot),
{
    match kind {
        StepAttemptCommandKind::Get | StepAttemptCommandKind::ListRoot => true,
        _ => false,
    }
}

/// Why an attempt ledger was not kept.
#[derive(Clone, Copy, Debug, PartialEq, Eq, Structural)]
pub enum AttemptStateError {
    StateTooLarge { limit: usize },
}

impl AttemptStateError {
    pub fn message(&self) -> (r: String)
        ensures
            r@ == "step attempt state exceeds "@ + decimal(MAX_ATTEMPT_STATE_BYTES as nat) + " bytes"@,
    {
        let mut m = numbered("step attempt state exceeds ", MAX_ATTEMPT_STATE_BYTES as u64);
        m.append(" bytes");
        m
    }
}

/// Whether an encoded ledger of `encoded_len` bytes may be kept or restored.
pub fn check_state_size(encoded_len: usize) -> (r: Result<(), AttemptStateError>)
    ensures
        r is Ok <==> encoded_len <= MAX_ATTEMPT_STATE_BYTES,
        r is Err ==> r == Err::<(), AttemptStateError>(
            AttemptStateError::StateTooLarge { limit: MAX_ATTEMPT_STATE_BYTES },
        ),
{
    if encoded_len > MAX_ATTEMPT_STATE_BYTES {
        Err(AttemptStateError::StateTooLarge { limit: MAX_ATTEMPT_STATE_BYTES })
    } else {
        Ok(())
    }
}

/// Commits the ledger a mutating command produced (`next`, whose encoding
/// takes `encoded_len` bytes) in place of the current one, unless the
/// encoding is too large; then the current ledger stays.
pub fn commit_attempt_state(ledger: &mut AttemptLedger, next: AttemptLedger, encoded_len: usize) -> (r:
    Result<(), AttemptStateError>)
    requires
        old(ledger).wf(),
        next.wf(),
    ensures
        final(ledger).wf(),
        r is Ok <==> encoded_len <= MAX_ATTEMPT_STATE_BYTES,
        r is Ok ==> final(ledger).view() == next.view() && final(ledger).sequence() == next.sequence(),
        r is Err ==> r == Err::<(), AttemptStateError>(
            AttemptStateError::StateTooLarge { limit: MAX_ATTEMPT_STATE_BYTES },
        ) && final(ledger).view() == old(ledger).view() && final(ledger).sequence() == old(
            ledger,
        ).sequence(),
{
    check_state_size(encoded_len)?;
    *ledger = next;
    Ok(())
}

} // verus!
