//! Recovery of a runtime's workspace binding while it is still bootstrapping.
//!
//! A prepared workspace candidate becomes a root admission receipt; the
//! runtime binds only to the target pinned by a committed receipt, and only
//! once.
use vstd::prelude::*;

verus! {

/// A workspace the runtime can bind to.
#[derive(Clone, Debug, PartialEq, Eq)]
pub struct WorkspaceTarget {
    pub workspace_id: String,
    pub canonical_root: String,
    pub canonical_repository: Option<String>,
}

pub open spec fn option_text_eq(a: Option<String>, b: Option<String>) -> bool {
    match (a, b) {
        (Some(x), Some(y)) => x@ == y@,
        (None, None) => true,
        _ => false,
    }
}

/// An optional text by its view.
pub open spec fn option_text_view(a: Option<String>) -> Option<Seq<char>> {
    match a {
        Some(x) => Some(x@),
        None => None,
    }
}

/// The fields of a target by their views.
pub open spec fn target_view(t: WorkspaceTarget) -> (Seq<char>, Seq<char>, Option<Seq<char>>) {
    (t.workspace_id@, t.canonical_root@, option_text_view(t.canonical_repository))
}

/// Two targets name the same workspace, root and repository.
pub open spec fn target_eq(a: WorkspaceTarget, b: WorkspaceTarget) -> bool {
    &&& a.workspace_id@ == b.workspace_id@
    &&& a.canonical_root@ == b.canonical_root@
    &&& option_text_eq(a.canonical_repository, b.canonical_repository)
}

pub fn option_text_equal(a: &Option<String>, b: &Option<String>) -> (r: bool)
    ensures
        r == option_text_eq(*a, *b),
{
    match (a, b) {
        (Some(x), Some(y)) => *x == *y,
        (None, None) => true,
        _ => false,
    }
}

pub fn clone_option_text(a: &Option<String>) -> (r: Option<String>)
    ensures
        r == *a,
{
    match a {
        Some(x) => Some(x.clone()),
        None => None,
    }
}

impl WorkspaceTarget {
    pub fn same_as(&self, other: &WorkspaceTarget) -> (r: bool)
        ensures
            r == target_eq(*self, *other),
    {
        self.workspace_id == other.workspace_id && self.canonical_root == other.canonical_root
            && option_text_equal(&self.canonical_repository, &other.canonical_repository)
    }

    pub fn duplicate(&self) -> (r: WorkspaceTarget)
        ensures
            r == *self,
    {
        WorkspaceTarget {
            workspace_id: self.workspace_id.clone(),
            canonical_root: self.canonical_root.clone(),
            canonical_repository: clone_option_text(&self.canonical_repository),
        }
    }
}

/// Whether the runtime is still bootstrapping or already bound to a workspace.
#[derive(Clone, Copy, Debug, PartialEq, Eq)]
pub enum RuntimeBindingState {
    Bootstrap,
    Bound,
}

/// How a candidate workspace was prepared.
#[derive(Clone, Copy, Debug, PartialEq, Eq)]
pub enum CandidatePreparationMode {
    DiscoveryOnly,
    NormalServicesSuspended,
}

/// A workspace prepared for one recovery request, with the checks it passed.
#[derive(Clone, Debug, PartialEq, Eq)]
pub struct PreparedWorkspaceCandidate {
    pub target: WorkspaceTarget,
    pub request_id: String,
    pub preparation_mode: CandidatePreparationMode,
    pub workspace_identity_validated: bool,
    pub repository_identity_validated: bool,
    pub live_query_validated: bool,
}

pub open spec fn candidate_usable(c: PreparedWorkspaceCandidate) -> bool {
    c.workspace_identity_validated && c.repository_identity_validated && c.live_query_validated
}

impl PreparedWorkspaceCandidate {
    /// A candidate is usable once its workspace identity, repository identity
    /// and live query have all been validated.
    pub fn is_usable(&self) -> (r: bool)
        ensures
            r == candidate_usable(*self),
    {
        self.workspace_identity_validated && self.repository_identity_validated
            && self.live_query_validated
    }
}

/// The life of a root admission receipt: prepared, then committed or aborted, once.
#[derive(Clone, Copy, Debug, PartialEq, Eq)]
pub enum RootAdmissionReceiptState {
    Prepared,
    Committed,
    Aborted,
}

/// The admission of a root execution into a recovered workspace.
#[derive(Clone, Debug, PartialEq, Eq)]
pub struct RootAdmissionReceipt {
    pub receipt_id: String,
    pub request_id: String,
    pub target: WorkspaceTarget,
    pub execution_id: String,
    pub state: RootAdmissionReceiptState,
}

#[derive(Clone, Copy, Debug, PartialEq, Eq)]
pub enum RootAdmissionReceiptError {
    AlreadyCommitted,
    AlreadyAborted,
    TargetChanged,
    RequestChanged,
    ExecutionChanged,
}

/// The error that settling a receipt which is no longer prepared yields.
pub open spec fn settled_error(state: RootAdmissionReceiptState) -> RootAdmissionReceiptError {
    match state {
        RootAdmissionReceiptState::Aborted => RootAdmissionReceiptError::AlreadyAborted,
        _ => RootAdmissionReceiptError::AlreadyCommitted,
    }
}

/// The first difference between a receipt and an observed copy of it, in the
/// order request, target, execution.
pub open spec fn reconcile_outcome(a: RootAdmissionReceipt, b: RootAdmissionReceipt) -> Result<
    (),
    RootAdmissionReceiptError,
> {
    if a.request_id@ != b.request_id@ {
        Err(RootAdmissionReceiptError::RequestChanged)
    } else if !target_eq(a.target, b.target) {
        Err(RootAdmissionReceiptError::TargetChanged)
    } else if a.execution_id@ != b.execution_id@ {
        Err(RootAdmissionReceiptError::ExecutionChanged)
    } else {
        Ok(())
    }
}

impl RootAdmissionReceipt {
    /// Commits a prepared receipt; a settled receipt stays as it is.
    pub fn commit(&mut self) -> (r: Result<(), RootAdmissionReceiptError>)
        ensures
            old(self).state == RootAdmissionReceiptState::Prepared ==> r is Ok && *final(self)
                == (RootAdmissionReceipt { state: RootAdmissionReceiptState::Committed, ..*old(self) }),
            old(self).state != RootAdmissionReceiptState::Prepared ==> r == Err::<(), _>(
                settled_error(old(self).state),
            ) && *final(self) == *old(self),
    {
        match self.state {
            RootAdmissionReceiptState::Prepared => {
                self.state = RootAdmissionReceiptState::Committed;
                Ok(())
            },
            RootAdmissionReceiptState::Committed => Err(RootAdmissionReceiptError::AlreadyCommitted),
            RootAdmissionReceiptState::Aborted => Err(RootAdmissionReceiptError::AlreadyAborted),
        }
    }

    /// Aborts a prepared receipt; a settled receipt stays as it is.
    pub fn abort(&mut self) -> (r: Result<(), RootAdmissionReceiptError>)
        ensures
            old(self).state == RootAdmissionReceiptState::Prepared ==> r is Ok && *final(self)
                == (RootAdmissionReceipt { state: RootAdmissionReceiptState::Aborted, ..*old(self) }),
            old(self).state != RootAdmissionReceiptState::Prepared ==> r == Err::<(), _>(
                settled_error(old(self).state),
            ) && *final(self) == *old(self),
    {
        match self.state {
            RootAdmissionReceiptState::Prepared => {
                self.state = RootAdmissionReceiptState::Aborted;
                Ok(())
            },
            RootAdmissionReceiptState::Committed => Err(RootAdmissionReceiptError::AlreadyCommitted),
            RootAdmissionReceiptState::Aborted => Err(RootAdmissionReceiptError::AlreadyAborted),
        }
    }

    /// Checks that an observed receipt still names this receipt's request,
    /// target and execution.
    pub fn reconcile(&self, observed: &RootAdmissionReceipt) -> (r: Result<(), RootAdmissionReceiptError>)
        ensures
            r == reconcile_outcome(*self, *observed),
            r is Ok ==> self.request_id@ == observed.request_id@ && target_view(self.target) == target_view(
                observed.target,
            ) && self.execution_id@ == observed.execution_id@,
    {
        if !(self.request_id == observed.request_id) {
            return Err(RootAdmissionReceiptError::RequestChanged);
        }
        if !self.target.same_as(&observed.target) {
            return Err(RootAdmissionReceiptError::TargetChanged);
        }
        if !(self.execution_id == observed.execution_id) {
            return Err(RootAdmissionReceiptError::ExecutionChanged);
        }
        Ok(())
    }

    pub fn duplicate(&self) -> (r: RootAdmissionReceipt)
        ensures
            r == *self,
    {
        RootAdmissionReceipt {
            receipt_id: self.receipt_id.clone(),
            request_id: self.request_id.clone(),
            target: self.target.duplicate(),
            execution_id: self.execution_id.clone(),
            state: self.state,
        }
    }
}

/// What context recovery concluded.
#[derive(Clone, Debug, PartialEq, Eq)]
pub enum ContextRecoveryOutcome {
    Current,
    Selected { target: WorkspaceTarget },
    Ambiguous { candidates: Vec<WorkspaceTarget> },
    NotFound,
}

#[derive(Clone, Copy, Debug, PartialEq, Eq)]
pub enum RuntimeRecoveryError {
    RuntimeAlreadyBound,
    CandidateNotUsable,
    RequestMismatch,
}

/// The runtime manager's recovery state: its binding and the receipt it pinned.
#[derive(Clone, Debug, PartialEq, Eq)]
pub struct RecoveryRuntimeManagerState {
    pub binding: RuntimeBindingState,
    pub prepared_receipt: Option<RootAdmissionReceipt>,
}

impl Default for RecoveryRuntimeManagerState {
    fn default() -> (r: Self)
        ensures
            r.binding == RuntimeBindingState::Bootstrap,
            r.prepared_receipt is None,
    {
        RecoveryRuntimeManagerState { binding: RuntimeBindingState::Bootstrap, prepared_receipt: None }
    }
}

/// The receipt that preparing admission for `candidate` pins when none is pinned yet.
pub open spec fn fresh_receipt(
    candidate: PreparedWorkspaceCandidate,
    receipt_id: String,
    execution_id: String,
) -> RootAdmissionReceipt {
    RootAdmissionReceipt {
        receipt_id,
        request_id: candidate.request_id,
        target: candidate.target,
        execution_id,
        state: RootAdmissionReceiptState::Prepared,
    }
}

/// The receipt the manager may bind with: the pinned one, committed.
pub open spec fn binds(expected: RootAdmissionReceipt, receipt: RootAdmissionReceipt) -> bool {
    &&& expected.request_id@ == receipt.request_id@
    &&& target_eq(expected.target, receipt.target)
    &&& expected.execution_id@ == receipt.execution_id@
    &&& receipt.state == RootAdmissionReceiptState::Committed
}

impl RecoveryRuntimeManagerState {
    /// Pins a root admission receipt for a usable candidate while bootstrapping.
    /// A repeated request gets the receipt already pinned for it, whatever target
    /// the repeated candidate names; a different request is refused.
    pub fn prepare_root_admission(
        &mut self,
        candidate: &PreparedWorkspaceCandidate,
        receipt_id: String,
        execution_id: String,
    ) -> (r: Result<RootAdmissionReceipt, RuntimeRecoveryError>)
        ensures
            old(self).binding != RuntimeBindingState::Bootstrap ==> r == Err::<
                RootAdmissionReceipt,
                _,
            >(RuntimeRecoveryError::RuntimeAlreadyBound) && *final(self) == *old(self),
            old(self).binding == RuntimeBindingState::Bootstrap && !candidate_usable(*candidate)
                ==> r == Err::<RootAdmissionReceipt, _>(RuntimeRecoveryError::CandidateNotUsable)
                && *final(self) == *old(self),
            old(self).binding == RuntimeBindingState::Bootstrap && candidate_usable(*candidate)
                ==> match old(self).prepared_receipt {
                Some(existing) => *final(self) == *old(self) && if existing.request_id@
                    == candidate.request_id@ {
                    r == Ok::<_, RuntimeRecoveryError>(existing)
                } else {
                    r == Err::<RootAdmissionReceipt, _>(RuntimeRecoveryError::RequestMismatch)
                },
                None => {
                    &&& r == Ok::<_, RuntimeRecoveryError>(
                        fresh_receipt(*candidate, receipt_id, execution_id),
                    )
                    &&& *final(self) == RecoveryRuntimeManagerState {
                        binding: old(self).binding,
                        prepared_receipt: Some(fresh_receipt(*candidate, receipt_id, execution_id)),
                    }
                },
            },
    {
        if let RuntimeBindingState::Bound = self.binding {
            return Err(RuntimeRecoveryError::RuntimeAlreadyBound);
        }
        if !candidate.is_usable() {
            return Err(RuntimeRecoveryError::CandidateNotUsable);
        }
        if let Some(existing) = &self.prepared_receipt {
            if !(existing.request_id == candidate.request_id) {
                return Err(RuntimeRecoveryError::RequestMismatch);
            }
            return Ok(existing.duplicate());
        }
        let receipt = RootAdmissionReceipt {
            receipt_id,
            request_id: candidate.request_id.clone(),
            target: candidate.target.duplicate(),
            execution_id,
            state: RootAdmissionReceiptState::Prepared,
        };
        self.prepared_receipt = Some(receipt.duplicate());
        Ok(receipt)
    }

    /// Binds the runtime once the pinned receipt has been committed.
    pub fn mark_bound(&mut self, receipt: &RootAdmissionReceipt) -> (r: Result<(), RuntimeRecoveryError>)
        ensures
            match old(self).prepared_receipt {
                Some(expected) if binds(expected, *receipt) => r is Ok && *final(self)
                    == RecoveryRuntimeManagerState {
                    binding: RuntimeBindingState::Bound,
                    prepared_receipt: old(self).prepared_receipt,
                },
                _ => r == Err::<(), _>(RuntimeRecoveryError::RequestMismatch) && *final(self)
                    == *old(self),
            },
            r is Ok ==> (old(self).prepared_receipt matches Some(expected) && target_view(expected.target)
                == target_view(receipt.target) && receipt.state == RootAdmissionReceiptState::Committed),
    {
        let matches = match &self.prepared_receipt {
            None => false,
            Some(expected) => expected.request_id == receipt.request_id && expected.target.same_as(
                &receipt.target,
            ) && expected.execution_id == receipt.execution_id,
        };
        if !matches {
            return Err(RuntimeRecoveryError::RequestMismatch);
        }
        if !matches!(receipt.state, RootAdmissionReceiptState::Committed) {
            return Err(RuntimeRecoveryError::RequestMismatch);
        }
        self.binding = RuntimeBindingState::Bound;
        Ok(())
    }
}


/// A receipt reconciles only with a copy that names exactly its request, its
/// execution and its target: the same workspace, the same canonical root and
/// the same repository. A copy that differs in any of them is refused.
pub proof fn lemma_reconcile_only_identical_copies(a: RootAdmissionReceipt, b: RootAdmissionReceipt)
    ensures
        reconcile_outcome(a, b) is Ok <==> (a.request_id@ == b.request_id@ && target_view(a.target)
            == target_view(b.target) && a.execution_id@ == b.execution_id@),
        a.request_id@ == b.request_id@ && a.target.canonical_root@ != b.target.canonical_root@
            ==> reconcile_outcome(a, b) == Err::<(), _>(RootAdmissionReceiptError::TargetChanged),
{
    if target_view(a.target) == target_view(b.target) {
        assert(option_text_eq(a.target.canonical_repository, b.target.canonical_repository));
    }
    if target_eq(a.target, b.target) {
        assert(option_text_view(a.target.canonical_repository) == option_text_view(b.target.canonical_repository));
    }
}

/// The runtime binds only with a committed receipt naming the pinned
/// request, execution and target (workspace, canonical root and repository).
pub proof fn lemma_binding_needs_the_pinned_target(expected: RootAdmissionReceipt, receipt: RootAdmissionReceipt)
    ensures
        binds(expected, receipt) <==> (expected.request_id@ == receipt.request_id@ && target_view(expected.target)
            == target_view(receipt.target) && expected.execution_id@ == receipt.execution_id@
            && receipt.state == RootAdmissionReceiptState::Committed),
{
    if target_view(expected.target) == target_view(receipt.target) {
        assert(option_text_eq(expected.target.canonical_repository, receipt.target.canonical_repository));
    }
    if target_eq(expected.target, receipt.target) {
        assert(option_text_view(expected.target.canonical_repository) == option_text_view(
            receipt.target.canonical_repository,
        ));
    }
}

} // verus!
