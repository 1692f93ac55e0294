use phenix::delegation::{
    texts_within, validate_reservation_binding, BindingTerms, BudgetReservation,
    BudgetReservationPurpose, DelegatedTaskStore, DelegatedTaskStoreError, ExecutionResourceError,
    ExecutionResourceState, ReservationTerms, TaskReservationBinding, WorkerTaskRecord,
    WorkerTaskState,
};

fn authority(items: &[&str]) -> Vec<String> {
    items.iter().map(|item| item.to_string()).collect()
}

fn task(id: &str, depends_on: &[&str], delegated: Vec<String>) -> WorkerTaskRecord {
    WorkerTaskRecord {
        id: id.into(),
        parent_execution: "root".into(),
        graph_generation: "g1".into(),
        description: "inspect".into(),
        depends_on: authority(depends_on),
        delegated_authority: delegated,
        state: WorkerTaskState::Pending,
    }
}

#[test]
fn delegated_authority_cannot_expand_parent_authority() {
    let mut store: DelegatedTaskStore<u32, String> = DelegatedTaskStore::new();
    let child = authority(&["workspace.read", "workspace.write"]);
    let record = task("task-1", &[], child.clone());
    assert_eq!(
        store.create(record, 1, &child, &authority(&["workspace.read"]), Ok(()), Ok(())),
        Err(DelegatedTaskStoreError::AuthorityExpanded)
    );
    assert!(store.get(&"task-1".to_string()).is_none());
}

#[test]
fn admitted_task_runs_and_completes_once() {
    let mut store: DelegatedTaskStore<u32, String> = DelegatedTaskStore::new();
    let read = authority(&["workspace.read"]);
    assert_eq!(store.create(task("task-1", &[], read.clone()), 7, &read, &read, Ok(()), Ok(())), Ok(()));
    assert_eq!(
        store.create(task("task-1", &[], read.clone()), 7, &read, &read, Ok(()), Ok(())),
        Err(DelegatedTaskStoreError::DuplicateTask { task_id: "task-1".into() })
    );
    assert_eq!(store.create(task("task-2", &["task-1"], read.clone()), 8, &read, &read, Ok(()), Ok(())), Ok(()));
    assert_eq!(store.runnable(), vec!["task-1".to_string()]);
    assert_eq!(store.child_count(&"root".to_string()), 2);
    assert_eq!(
        store.start(&"task-2".to_string(), "exec-2".into(), Ok(())),
        Err(DelegatedTaskStoreError::NotRunnable { task_id: "task-2".into() })
    );
    assert_eq!(store.start(&"task-1".to_string(), "exec-1".into(), Ok(())), Ok(()));
    assert!(store.runnable().is_empty());
    assert_eq!(
        store.complete(&"task-1".to_string(), &"exec-9".to_string(), "r".into(), Ok(()), Vec::new()),
        Err(DelegatedTaskStoreError::ExecutionMismatch { task_id: "task-1".into() })
    );
    assert_eq!(
        store.complete(
            &"task-1".to_string(),
            &"exec-1".to_string(),
            "result".into(),
            Ok(()),
            vec!["ref-1".into()]
        ),
        Ok(())
    );
    let done = store.get(&"task-1".to_string()).unwrap();
    assert_eq!(
        done.task.state,
        WorkerTaskState::Completed { execution_id: "exec-1".into(), result_refs: vec!["ref-1".into()] }
    );
    assert_eq!(done.result, Some("result".to_string()));
    assert_eq!(store.runnable(), vec!["task-2".to_string()]);
    assert_eq!(
        store.complete(&"task-1".to_string(), &"exec-1".to_string(), "again".into(), Ok(()), Vec::new()),
        Err(DelegatedTaskStoreError::InvalidState { task_id: "task-1".into() })
    );
    assert_eq!(
        store.fail(&"task-3".to_string(), &"exec-1".to_string(), "gone".into()),
        Err(DelegatedTaskStoreError::UnknownTask { task_id: "task-3".into() })
    );
}

#[test]
fn binding_authority_and_outside_checks_gate_admission() {
    let mut store: DelegatedTaskStore<u32, String> = DelegatedTaskStore::new();
    let read = authority(&["workspace.read"]);
    assert_eq!(
        store.create(task("task-1", &[], read.clone()), 1, &authority(&["other"]), &read, Ok(()), Ok(())),
        Err(DelegatedTaskStoreError::BindingAuthorityMismatch)
    );
    assert_eq!(
        store.create(task("task-1", &[], read.clone()), 1, &read, &read, Err("policy".into()), Ok(())),
        Err(DelegatedTaskStoreError::Admission { reason: "policy".into() })
    );
    assert_eq!(
        store.create(task("task-1", &[], read.clone()), 1, &read, &read, Ok(()), Err("deadline".into())),
        Err(DelegatedTaskStoreError::Admission { reason: "deadline".into() })
    );
    assert!(texts_within(&read, &authority(&["workspace.read", "workspace.write"])));
    assert!(!texts_within(&authority(&["workspace.write"]), &read));
}

fn budget() -> BudgetReservation {
    BudgetReservation { input_tokens: 100, output_tokens: 10, cost_microunits: None }
}

fn terms() -> (ReservationTerms, BindingTerms) {
    (
        ReservationTerms {
            purpose: BudgetReservationPurpose::Delegation,
            policy_revision: "policy-1".into(),
            budget: budget(),
            attempts: 2,
        },
        BindingTerms { parent_policy_revision: "policy-1".into(), budget: budget(), attempts: 2 },
    )
}

#[test]
fn reservation_must_match_the_binding_terms() {
    let (reservation, binding) = terms();
    assert_eq!(validate_reservation_binding(&reservation, &binding), Ok(()));
    let mut root = reservation.clone();
    root.purpose = BudgetReservationPurpose::RootStep;
    assert_eq!(
        validate_reservation_binding(&root, &binding),
        Err(ExecutionResourceError::ReservationPurposeMismatch)
    );
    let mut policy = reservation.clone();
    policy.policy_revision = "policy-2".into();
    assert_eq!(
        validate_reservation_binding(&policy, &binding),
        Err(ExecutionResourceError::ReservationPolicyMismatch)
    );
    let mut larger = reservation.clone();
    larger.budget.input_tokens = 101;
    assert_eq!(
        validate_reservation_binding(&larger, &binding),
        Err(ExecutionResourceError::ReservationBudgetMismatch)
    );
    let mut attempts = reservation;
    attempts.attempts = 3;
    assert_eq!(
        validate_reservation_binding(&attempts, &binding),
        Err(ExecutionResourceError::ReservationAttemptMismatch)
    );
}

fn reserve_ten(ledger: &u64) -> Result<u64, String> {
    if *ledger >= 10 {
        Ok(ledger - 10)
    } else {
        Err("budget exhausted".into())
    }
}

fn admit_task(
    state: &mut ExecutionResourceState<u64, u32, String>,
    id: &str,
    max_children: u32,
) -> Result<(), ExecutionResourceError> {
    let (reservation, binding) = terms();
    let read = authority(&["workspace.read"]);
    state.admit_delegated(
        "root".into(),
        format!("reservation-{id}"),
        &reservation,
        &binding,
        task(id, &[], read.clone()),
        1,
        &read,
        &read,
        max_children,
        reserve_ten,
        Ok(()),
        Ok(()),
    )
}

#[test]
fn max_children_is_enforced_before_second_reservation() {
    let mut state: ExecutionResourceState<u64, u32, String> = ExecutionResourceState::new();
    assert_eq!(
        admit_task(&mut state, "task-0", 1),
        Err(ExecutionResourceError::UnknownRootBudget { root_execution_id: "root".into() })
    );
    assert_eq!(state.register_root_budget("root".into(), 15), Ok(()));
    assert_eq!(
        state.register_root_budget("root".into(), 99),
        Err(ExecutionResourceError::DuplicateRootBudget { root_execution_id: "root".into() })
    );
    assert_eq!(admit_task(&mut state, "task-1", 1), Ok(()));
    assert_eq!(state.ledger(&"root".to_string()), Ok(&5));
    assert_eq!(
        state.task_reservation(&"task-1".to_string()),
        Ok(&TaskReservationBinding {
            root_execution_id: "root".into(),
            reservation_id: "reservation-task-1".into()
        })
    );
    assert_eq!(
        admit_task(&mut state, "task-1", 2),
        Err(ExecutionResourceError::DuplicateTaskReservation { task_id: "task-1".into() })
    );
    assert_eq!(
        admit_task(&mut state, "task-2", 1),
        Err(ExecutionResourceError::ChildLimitExceeded { parent_execution: "root".into(), allowed: 1 })
    );
    assert!(state.task_reservation(&"task-2".to_string()).is_err());
}

#[test]
fn failed_task_admission_does_not_consume_reserved_budget() {
    let mut state: ExecutionResourceState<u64, u32, String> = ExecutionResourceState::new();
    state.register_root_budget("root".into(), 15).unwrap();
    let (reservation, binding) = terms();
    let read = authority(&["workspace.read"]);
    let refused = state.admit_delegated(
        "root".into(),
        "reservation-1".into(),
        &reservation,
        &binding,
        task("task-1", &[], authority(&["workspace.write"])),
        1,
        &authority(&["workspace.write"]),
        &read,
        2,
        reserve_ten,
        Ok(()),
        Ok(()),
    );
    assert_eq!(refused, Err(ExecutionResourceError::Task(DelegatedTaskStoreError::AuthorityExpanded)));
    assert_eq!(state.ledger(&"root".to_string()), Ok(&15));
    assert_eq!(admit_task(&mut state, "task-1", 2), Ok(()));
    assert_eq!(
        admit_task(&mut state, "task-2", 2),
        Err(ExecutionResourceError::Budget { reason: "budget exhausted".into() })
    );
    assert_eq!(state.ledger(&"root".to_string()), Ok(&5));
    assert!(state.delegated.get(&"task-2".to_string()).is_none());
}

#[test]
fn settlement_and_completion_commit_together() {
    let mut state: ExecutionResourceState<u64, u32, String> = ExecutionResourceState::new();
    state.register_root_budget("root".into(), 30).unwrap();
    admit_task(&mut state, "task-1", 2).unwrap();
    admit_task(&mut state, "task-2", 2).unwrap();
    assert_eq!(state.start_delegated(&"task-1".to_string(), "child-1".into(), Ok(())), Ok(()));
    let refuse = |_: &u64| -> Result<u64, String> { Err("settlement refused".into()) };
    assert_eq!(
        state.complete_delegated(&"task-1".to_string(), &"child-1".to_string(), "r".into(), Ok(()), Vec::new(), refuse),
        Err(ExecutionResourceError::Budget { reason: "settlement refused".into() })
    );
    assert!(matches!(
        state.delegated.get(&"task-1".to_string()).unwrap().task.state,
        WorkerTaskState::Running { .. }
    ));
    let settle = |ledger: &u64| -> Result<u64, String> { Ok(ledger + 4) };
    assert_eq!(
        state.complete_delegated(&"task-1".to_string(), &"child-1".to_string(), "r".into(), Ok(()), Vec::new(), settle),
        Ok(())
    );
    assert_eq!(state.ledger(&"root".to_string()), Ok(&14));
    assert_eq!(
        state.fail_delegated(&"task-2".to_string(), &"child-2".to_string(), "lost".into(), settle),
        Err(ExecutionResourceError::Task(DelegatedTaskStoreError::InvalidState { task_id: "task-2".into() }))
    );
    assert_eq!(state.start_delegated(&"task-2".to_string(), "child-2".into(), Ok(())), Ok(()));
    assert_eq!(
        state.fail_delegated(&"task-2".to_string(), &"child-2".to_string(), "lost".into(), settle),
        Ok(())
    );
    assert_eq!(state.ledger(&"root".to_string()), Ok(&18));
    assert_eq!(
        state.fail_delegated(&"task-9".to_string(), &"child-2".to_string(), "lost".into(), settle),
        Err(ExecutionResourceError::UnknownTaskReservation { task_id: "task-9".into() })
    );
    assert_eq!(state.update_ledger(&"root".to_string(), |l: &u64| Ok(l - 8)), Ok(()));
    assert_eq!(state.ledger(&"root".to_string()), Ok(&10));
    assert_eq!(
        state.update_ledger(&"other".to_string(), |l: &u64| Ok(*l)),
        Err(ExecutionResourceError::UnknownRootBudget { root_execution_id: "other".into() })
    );
}
