use phenix::context_recovery::{
    CandidatePreparationMode, PreparedWorkspaceCandidate, RecoveryRuntimeManagerState,
    RootAdmissionReceiptError, RootAdmissionReceiptState, RuntimeBindingState,
    RuntimeRecoveryError, WorkspaceTarget,
};

fn target(id: &str) -> WorkspaceTarget {
    WorkspaceTarget {
        workspace_id: id.into(),
        canonical_root: format!("/work/{id}"),
        canonical_repository: Some(format!("github.com/example/{id}")),
    }
}

fn candidate() -> PreparedWorkspaceCandidate {
    PreparedWorkspaceCandidate {
        target: target("phenix"),
        request_id: "request-1".into(),
        preparation_mode: CandidatePreparationMode::DiscoveryOnly,
        workspace_identity_validated: true,
        repository_identity_validated: true,
        live_query_validated: true,
    }
}

#[test]
fn workspace_replacement_is_bootstrap_only() {
    let mut manager = RecoveryRuntimeManagerState {
        binding: RuntimeBindingState::Bound,
        prepared_receipt: None,
    };
    assert_eq!(
        manager.prepare_root_admission(&candidate(), "receipt-1".into(), "execution-1".into()),
        Err(RuntimeRecoveryError::RuntimeAlreadyBound)
    );
}

#[test]
fn repeated_prepare_for_same_request_reuses_pinned_target() {
    let mut manager = RecoveryRuntimeManagerState::default();
    let first = manager
        .prepare_root_admission(&candidate(), "receipt-1".into(), "execution-1".into())
        .unwrap();
    let mut changed = candidate();
    changed.target = target("other");
    let second = manager
        .prepare_root_admission(&changed, "receipt-2".into(), "execution-2".into())
        .unwrap();
    assert_eq!(first, second);
    assert_eq!(second.target.workspace_id, "phenix");
}

#[test]
fn committed_receipt_is_required_before_binding() {
    let mut manager = RecoveryRuntimeManagerState::default();
    let mut receipt = manager
        .prepare_root_admission(&candidate(), "receipt-1".into(), "execution-1".into())
        .unwrap();
    assert!(manager.mark_bound(&receipt).is_err());
    receipt.commit().unwrap();
    manager.mark_bound(&receipt).unwrap();
    assert_eq!(manager.binding, RuntimeBindingState::Bound);
}

#[test]
fn unvalidated_candidate_is_not_usable() {
    let mut manager = RecoveryRuntimeManagerState::default();
    let mut unvalidated = candidate();
    unvalidated.live_query_validated = false;
    assert!(!unvalidated.is_usable());
    assert_eq!(
        manager.prepare_root_admission(&unvalidated, "receipt-1".into(), "execution-1".into()),
        Err(RuntimeRecoveryError::CandidateNotUsable)
    );
    assert_eq!(manager.prepared_receipt, None);
}

#[test]
fn another_request_cannot_replace_the_pinned_receipt() {
    let mut manager = RecoveryRuntimeManagerState::default();
    manager
        .prepare_root_admission(&candidate(), "receipt-1".into(), "execution-1".into())
        .unwrap();
    let mut other = candidate();
    other.request_id = "request-2".into();
    assert_eq!(
        manager.prepare_root_admission(&other, "receipt-2".into(), "execution-2".into()),
        Err(RuntimeRecoveryError::RequestMismatch)
    );
}

#[test]
fn receipt_settles_once() {
    let mut manager = RecoveryRuntimeManagerState::default();
    let mut receipt = manager
        .prepare_root_admission(&candidate(), "receipt-1".into(), "execution-1".into())
        .unwrap();
    receipt.commit().unwrap();
    assert_eq!(receipt.state, RootAdmissionReceiptState::Committed);
    assert_eq!(receipt.commit(), Err(RootAdmissionReceiptError::AlreadyCommitted));
    assert_eq!(receipt.abort(), Err(RootAdmissionReceiptError::AlreadyCommitted));

    let mut aborted = manager
        .prepare_root_admission(&candidate(), "receipt-1".into(), "execution-1".into())
        .unwrap();
    aborted.abort().unwrap();
    assert_eq!(aborted.commit(), Err(RootAdmissionReceiptError::AlreadyAborted));
    assert!(manager.mark_bound(&aborted).is_err());
}

#[test]
fn reconcile_names_the_first_changed_field() {
    let mut manager = RecoveryRuntimeManagerState::default();
    let receipt = manager
        .prepare_root_admission(&candidate(), "receipt-1".into(), "execution-1".into())
        .unwrap();
    let mut observed = receipt.clone();
    assert_eq!(receipt.reconcile(&observed), Ok(()));
    observed.execution_id = "execution-2".into();
    assert_eq!(receipt.reconcile(&observed), Err(RootAdmissionReceiptError::ExecutionChanged));
    observed.target = target("other");
    assert_eq!(receipt.reconcile(&observed), Err(RootAdmissionReceiptError::TargetChanged));
    observed.request_id = "request-2".into();
    assert_eq!(receipt.reconcile(&observed), Err(RootAdmissionReceiptError::RequestChanged));
}

#[test]
fn binding_with_another_execution_is_refused() {
    let mut manager = RecoveryRuntimeManagerState::default();
    let mut receipt = manager
        .prepare_root_admission(&candidate(), "receipt-1".into(), "execution-1".into())
        .unwrap();
    receipt.commit().unwrap();
    let mut other = receipt.clone();
    other.execution_id = "execution-9".into();
    assert_eq!(manager.mark_bound(&other), Err(RuntimeRecoveryError::RequestMismatch));
    assert_eq!(manager.binding, RuntimeBindingState::Bootstrap);
}
