use std::cell::RefCell;

use phenix::application::{
    self, clear_interaction_handlers, continues_projection, set_interaction_handlers,
    InteractionHandlers, InteractionKind, load_session_snapshot, AllocationError, ApplicationOrdinals,
    SessionJournalError,
};
use phenix::projection::{SessionChange, SessionInfo, SessionProjectionStore, SessionUpdate};

fn session(id: &str, title: Option<&str>) -> SessionInfo {
    SessionInfo {
        session_id: id.into(),
        title: title.map(str::to_owned),
        working_directory: "/workspace".into(),
    }
}

fn rename(id: &str, sequence: u64, title: &str) -> SessionUpdate {
    SessionUpdate {
        session_id: id.into(),
        sequence,
        update: SessionChange::Renamed { title: title.to_owned() },
    }
}

#[test]
fn fixed_application_queue_capacities_match_the_runtime_contract() {
    assert_eq!(application::APPLICATION_INVOCATION_CAPACITY, 64);
    assert_eq!(application::CLIENT_CAPABILITY_CAPACITY, 64);
    assert_eq!(application::APPLICATION_EVENT_CAPACITY, 256);
}

#[test]
fn execution_identities_count_up_from_one() {
    let mut ordinals = ApplicationOrdinals::new();
    assert_eq!(ordinals.allocate_execution_id().unwrap(), "execution-1");
    assert_eq!(ordinals.allocate_execution_id().unwrap(), "execution-2");
    assert_eq!(ordinals.next_session_candidate().unwrap(), "session-1");
    assert_eq!(ordinals.next_session_candidate().unwrap(), "session-2");
    assert_eq!(ordinals.allocate_execution_id().unwrap(), "execution-3");
    let _ = AllocationError::ExecutionIdsExhausted;
}

#[test]
fn journal_read_becomes_a_snapshot() {
    let snapshot = load_session_snapshot(
        session("session-1", None),
        None,
        2,
        vec![rename("session-1", 1, "one"), rename("session-1", 2, "two")],
    )
    .unwrap();
    assert_eq!(snapshot.through_sequence, 2);
    assert_eq!(snapshot.updates.len(), 2);

    let resumed = load_session_snapshot(
        session("session-1", None),
        Some(1),
        2,
        vec![rename("session-1", 2, "two")],
    )
    .unwrap();
    assert_eq!(resumed.updates[0].sequence, 2);
}

#[test]
fn journal_gap_and_resume_ahead_are_refused() {
    assert_eq!(
        load_session_snapshot(
            session("session-1", None),
            None,
            3,
            vec![rename("session-1", 1, "one"), rename("session-1", 3, "three")],
        ),
        Err(SessionJournalError::Gap { expected: 2, actual: 3 })
    );
    assert_eq!(
        load_session_snapshot(session("session-1", None), Some(5), 4, Vec::new()),
        Err(SessionJournalError::ResumeAhead { after_sequence: 5, through_sequence: 4 })
    );
    assert_eq!(
        load_session_snapshot(
            session("session-1", None),
            Some(u64::MAX - 1),
            u64::MAX,
            vec![rename("session-1", u64::MAX, "last")],
        ),
        Err(SessionJournalError::SequenceExhausted)
    );
}

#[test]
fn only_the_next_sequence_continues_a_projection() {
    let mut store = SessionProjectionStore::new();
    store.insert_created(session("session-1", None)).unwrap();
    assert!(continues_projection(&store, &"session-1".to_string(), 1));
    assert!(!continues_projection(&store, &"session-1".to_string(), 2));
    assert!(!continues_projection(&store, &"missing".to_string(), 1));
}

use phenix::application::{
    application_session_info, application_sessions, require_open_application_session,
    SessionAccessError, SessionLifecycle, SessionRecord,
};

fn record(id: &str, working_directory: Option<&str>, lifecycle: SessionLifecycle) -> SessionRecord {
    SessionRecord {
        id: id.into(),
        title: Some(format!("title of {id}")),
        working_directory: working_directory.map(str::to_owned),
        lifecycle,
    }
}

#[test]
fn worker_hides_non_application_sessions_from_the_list() {
    let sessions = vec![
        record("session-1", Some("/workspace"), SessionLifecycle::Open),
        record("internal", None, SessionLifecycle::Open),
        record("session-2", Some("/other"), SessionLifecycle::Closed),
    ];
    let listed = application_sessions(&sessions, &None).unwrap();
    let ids: Vec<&str> = listed.iter().map(|s| s.session_id.as_str()).collect();
    assert_eq!(ids, ["session-1", "session-2"]);
    assert_eq!(listed[0].working_directory, "/workspace");
    assert_eq!(listed[0].title.as_deref(), Some("title of session-1"));
    assert_eq!(application_sessions(&sessions, &Some("c".into())), Err(SessionAccessError::CursorNotIssued));
    assert_eq!(
        application_session_info(&sessions[1]),
        Err(SessionAccessError::NotFound { resource: "internal".into() })
    );
}

#[test]
fn only_open_application_sessions_accept_operations() {
    let open = record("session-1", Some("/workspace"), SessionLifecycle::Open);
    assert_eq!(require_open_application_session(&"session-1".to_string(), Some(open.clone())), Ok(open));
    assert_eq!(
        require_open_application_session(&"session-9".to_string(), None),
        Err(SessionAccessError::NotFound { resource: "session-9".into() })
    );
    assert_eq!(
        require_open_application_session(
            &"internal".to_string(),
            Some(record("internal", None, SessionLifecycle::Open))
        ),
        Err(SessionAccessError::NotFound { resource: "internal".into() })
    );
    assert_eq!(
        require_open_application_session(
            &"session-2".to_string(),
            Some(record("session-2", Some("/w"), SessionLifecycle::Closed))
        ),
        Err(SessionAccessError::Closed { session_id: "session-2".into() })
    );
}

#[test]
fn interaction_registration_admits_exact_schemas_before_replacing_slots() {
    let mut current: InteractionHandlers<String> = InteractionHandlers { permission: None, elicitation: None };
    let permission = "permission-handler".to_owned();
    let elicitation = "elicitation-handler".to_owned();
    let admitted: RefCell<Vec<(String, InteractionKind)>> = RefCell::new(Vec::new());

    let result = set_interaction_handlers(
        &mut current,
        InteractionHandlers {
            permission: Some(permission.clone()),
            elicitation: Some(elicitation.clone()),
        },
        |callable: &String, kind: InteractionKind| {
            admitted.borrow_mut().push((callable.clone(), kind));
            Ok(())
        },
    );

    assert!(result.is_ok());
    let admitted = admitted.into_inner();
    assert_eq!(admitted.len(), 2);
    assert_eq!(admitted[0].1, InteractionKind::Permission);
    assert_eq!(admitted[1].1, InteractionKind::Elicitation);
    assert_eq!(current.permission, Some(permission));
    assert_eq!(current.elicitation, Some(elicitation));
}

#[test]
fn failed_interaction_admission_keeps_previous_handler_slots() {
    let previous = "previous-permission".to_owned();
    let mut current = InteractionHandlers { permission: Some(previous.clone()), elicitation: None };
    let replacement = "replacement-permission".to_owned();

    let error = set_interaction_handlers(
        &mut current,
        InteractionHandlers { permission: Some(replacement), elicitation: None },
        |_callable: &String, _kind: InteractionKind| Err("fixture rejection".to_owned()),
    )
    .unwrap_err();

    assert_eq!(error, "fixture rejection");
    assert_eq!(current.permission, Some(previous));
    assert!(current.elicitation.is_none());
}

#[test]
fn clearing_interaction_handlers_empties_both_slots() {
    let mut current = InteractionHandlers {
        permission: Some("p".to_owned()),
        elicitation: Some("e".to_owned()),
    };
    clear_interaction_handlers(&mut current);
    assert!(current.permission.is_none());
    assert!(current.elicitation.is_none());
}
