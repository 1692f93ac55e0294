use phenix::attempts::{
    check_state_size, commit_attempt_state, reads_only, AttemptStateError, StepAttemptCommandKind,
    MAX_ATTEMPT_STATE_BYTES, AttemptLedger, AttemptLedgerError, AttemptOutcome, StepAttemptPhase, StepAttemptRecord,
    UsageAttemptKind, UsageAttribution,
};

fn attribution(attempt_id: &str, kind: UsageAttemptKind, parent: Option<&str>) -> UsageAttribution {
    UsageAttribution {
        root_execution_id: "root".into(),
        execution_id: "root".into(),
        attempt_id: attempt_id.into(),
        parent_attempt_id: parent.map(str::to_owned),
        policy_revision: "policy-1".into(),
        kind,
        task_id: None,
    }
}

fn planned(attempt_id: &str, kind: UsageAttemptKind, parent: Option<&str>) -> StepAttemptRecord {
    StepAttemptRecord {
        attribution: attribution(attempt_id, kind, parent),
        phase: StepAttemptPhase::Planned,
        outcome: None,
    }
}

fn settle(outcome: AttemptOutcome) -> impl FnOnce(StepAttemptRecord) -> Result<StepAttemptRecord, String> {
    move |mut record: StepAttemptRecord| {
        if record.phase == StepAttemptPhase::Settled {
            return Err("InvalidPhase".into());
        }
        record.phase = StepAttemptPhase::Settled;
        record.outcome = Some(outcome);
        Ok(record)
    }
}

#[test]
fn allocated_identities_are_fresh_and_numbered() {
    let mut ledger = AttemptLedger::new();
    let first = ledger
        .allocate_identity("root".into(), "root".into(), None, "policy-1".into())
        .unwrap();
    assert_eq!(first.attempt_id, "attempt-1");
    assert_eq!(first.kind, UsageAttemptKind::Root);
    assert_eq!(first.task_id, None);
    // The identity is not recorded until the attempt is created, so a second
    // allocation moves on regardless.
    let second = ledger
        .allocate_identity("root".into(), "root".into(), None, "policy-1".into())
        .unwrap();
    assert_eq!(second.attempt_id, "attempt-2");
    ledger.create(planned("attempt-3", UsageAttemptKind::Root, None)).unwrap();
    let fourth = ledger
        .allocate_identity("root".into(), "root".into(), None, "policy-1".into())
        .unwrap();
    assert_eq!(fourth.attempt_id, "attempt-4");
}

#[test]
fn blank_identities_are_refused_in_order() {
    let mut ledger = AttemptLedger::new();
    assert_eq!(
        ledger.allocate_identity(" ".into(), "".into(), None, "".into()),
        Err(AttemptLedgerError::EmptyIdentity { label: "root execution id".into() })
    );
    assert_eq!(
        ledger.allocate_identity("root".into(), "".into(), None, "".into()),
        Err(AttemptLedgerError::EmptyIdentity { label: "execution id".into() })
    );
    assert_eq!(
        ledger.allocate_identity("root".into(), "root".into(), None, " ".into()),
        Err(AttemptLedgerError::EmptyIdentity { label: "policy revision".into() })
    );
    assert_eq!(
        ledger.allocate_identity("root".into(), "root".into(), Some("".into()), "p".into()),
        Err(AttemptLedgerError::EmptyIdentity { label: "parent attempt id".into() })
    );
    assert_eq!(
        ledger.allocate_identity("root".into(), "root".into(), Some("attempt-9".into()), "p".into()),
        Err(AttemptLedgerError::UnknownParent { parent_attempt_id: "attempt-9".into() })
    );
}

#[test]
fn retry_requires_a_settled_unsuccessful_parent_in_the_same_root() {
    let mut ledger = AttemptLedger::new();
    ledger.create(planned("attempt-1", UsageAttemptKind::Root, None)).unwrap();
    assert_eq!(
        ledger.create(planned("retry-1", UsageAttemptKind::Retry, Some("attempt-1"))),
        Err(AttemptLedgerError::ParentNotSettled)
    );
    assert_eq!(
        ledger.mutate(&"attempt-1".to_string(), settle(AttemptOutcome::Failed)).unwrap().phase,
        StepAttemptPhase::Settled
    );
    let retry = ledger.create(planned("retry-1", UsageAttemptKind::Retry, Some("attempt-1"))).unwrap();
    assert_eq!(retry.attribution.parent_attempt_id.as_deref(), Some("attempt-1"));
    let mut other_root = planned("retry-2", UsageAttemptKind::Retry, Some("attempt-1"));
    other_root.attribution.root_execution_id = "other".into();
    assert_eq!(ledger.create(other_root), Err(AttemptLedgerError::ParentInOtherRoot));
    let allocated = ledger
        .allocate_identity("root".into(), "root".into(), Some("attempt-1".into()), "policy-1".into())
        .unwrap();
    assert_eq!(allocated.kind, UsageAttemptKind::Retry);
}

#[test]
fn settled_attempt_cannot_be_rewritten_or_retried_after_success() {
    let mut ledger = AttemptLedger::new();
    ledger.create(planned("attempt-1", UsageAttemptKind::Root, None)).unwrap();
    ledger.mutate(&"attempt-1".to_string(), settle(AttemptOutcome::Succeeded)).unwrap();
    assert_eq!(
        ledger.mutate(&"attempt-1".to_string(), settle(AttemptOutcome::Failed)),
        Err(AttemptLedgerError::Transition { reason: "InvalidPhase".into() })
    );
    assert_eq!(
        ledger.get(&"attempt-1".to_string()).unwrap().outcome,
        Some(AttemptOutcome::Succeeded)
    );
    assert_eq!(
        ledger.create(planned("retry-1", UsageAttemptKind::Retry, Some("attempt-1"))),
        Err(AttemptLedgerError::SucceededAttemptRetried)
    );
    assert_eq!(
        ledger.mutate(&"attempt-7".to_string(), settle(AttemptOutcome::Failed)),
        Err(AttemptLedgerError::UnknownAttempt { attempt_id: "attempt-7".into() })
    );
}

#[test]
fn create_checks_identity_and_lineage_shape() {
    let mut ledger = AttemptLedger::new();
    ledger.create(planned("attempt-1", UsageAttemptKind::Root, None)).unwrap();
    assert_eq!(
        ledger.create(planned("attempt-1", UsageAttemptKind::Root, None)),
        Err(AttemptLedgerError::AlreadyExists { attempt_id: "attempt-1".into() })
    );
    assert_eq!(
        ledger.create(planned("attempt-2", UsageAttemptKind::Retry, Some("attempt-2"))),
        Err(AttemptLedgerError::SelfParent)
    );
    assert_eq!(
        ledger.create(planned("attempt-2", UsageAttemptKind::Root, Some("attempt-1"))),
        Err(AttemptLedgerError::RootWithParent)
    );
    assert_eq!(
        ledger.create(planned("attempt-2", UsageAttemptKind::Retry, None)),
        Err(AttemptLedgerError::RetryWithoutParent)
    );
    // A delegated attempt may name an active parent.
    assert!(ledger.create(planned("attempt-2", UsageAttemptKind::Delegated, Some("attempt-1"))).is_ok());
}

#[test]
fn list_root_returns_the_root_attempts_in_identity_order() {
    let mut ledger = AttemptLedger::new();
    ledger.create(planned("attempt-2", UsageAttemptKind::Root, None)).unwrap();
    let mut other = planned("attempt-1", UsageAttemptKind::Root, None);
    other.attribution.root_execution_id = "other".into();
    ledger.create(other).unwrap();
    ledger.create(planned("attempt-3", UsageAttemptKind::Root, None)).unwrap();
    let ids: Vec<String> = ledger
        .list_root(&"root".to_string())
        .into_iter()
        .map(|record| record.attribution.attempt_id)
        .collect();
    assert_eq!(ids, ["attempt-2", "attempt-3"]);
    assert_eq!(ledger.list_root(&"other".to_string()).len(), 1);
}

#[test]
fn only_lookups_take_the_read_path() {
    assert!(reads_only(StepAttemptCommandKind::Get));
    assert!(reads_only(StepAttemptCommandKind::ListRoot));
    assert!(!reads_only(StepAttemptCommandKind::Settle));
    assert!(!reads_only(StepAttemptCommandKind::AllocateIdentity));
}

#[test]
fn ledger_state_is_bounded_to_sixteen_mebibytes() {
    assert_eq!(MAX_ATTEMPT_STATE_BYTES, 16 * 1024 * 1024);
    assert_eq!(check_state_size(MAX_ATTEMPT_STATE_BYTES), Ok(()));
    let error = check_state_size(MAX_ATTEMPT_STATE_BYTES + 1).unwrap_err();
    assert_eq!(error, AttemptStateError::StateTooLarge { limit: MAX_ATTEMPT_STATE_BYTES });
    assert_eq!(error.message(), "step attempt state exceeds 16777216 bytes");

    let mut ledger = AttemptLedger::new();
    let mut next = AttemptLedger::new();
    next.allocate_identity("root".into(), "root".into(), None, "policy-1".into()).unwrap();
    assert!(commit_attempt_state(&mut ledger, next.clone(), MAX_ATTEMPT_STATE_BYTES + 1).is_err());
    assert_eq!(ledger, AttemptLedger::new());
    assert_eq!(commit_attempt_state(&mut ledger, next.clone(), 10), Ok(()));
    assert_eq!(ledger, next);
}
