use phenix::projection::{
    SessionChange, SessionInfo, SessionProjectionError, SessionProjectionReducer,
    SessionProjectionStore, SessionProjectionStoreError, SessionSnapshot, SessionUpdate,
};

fn session(id: &str, title: Option<&str>) -> SessionInfo {
    SessionInfo {
        session_id: id.into(),
        title: title.map(str::to_owned),
        working_directory: "/workspace".into(),
    }
}

fn rename(id: &str, sequence: u64, title: &str) -> SessionUpdate {
    SessionUpdate {
        session_id: id.into(),
        sequence,
        update: SessionChange::Renamed { title: title.to_owned() },
    }
}

fn key(id: &str) -> String {
    id.to_owned()
}

#[test]
fn create_starts_projection_at_sequence_zero() {
    let mut reducer = SessionProjectionReducer::new();
    reducer.insert_created(session("session-1", None));

    let projection = reducer.state().session(&key("session-1")).unwrap();
    assert_eq!(projection.through_sequence, 0);
    assert!(projection.updates.is_empty());
}

#[test]
fn full_resume_replaces_projection() {
    let mut reducer = SessionProjectionReducer::new();
    reducer.insert_created(session("session-1", Some("old")));
    reducer.replace_snapshot(SessionSnapshot {
        session: session("session-1", Some("resumed")),
        through_sequence: 4,
        updates: Vec::new(),
    });

    let projection = reducer.state().session(&key("session-1")).unwrap();
    assert_eq!(projection.session.title.as_deref(), Some("resumed"));
    assert_eq!(projection.through_sequence, 4);
}

#[test]
fn ordered_rename_updates_history_and_projected_metadata() {
    let mut reducer = SessionProjectionReducer::new();
    reducer.insert_created(session("session-1", None));
    reducer.apply_update(rename("session-1", 1, "new title")).unwrap();

    let projection = reducer.state().session(&key("session-1")).unwrap();
    assert_eq!(projection.through_sequence, 1);
    assert_eq!(projection.session.title.as_deref(), Some("new title"));
    assert_eq!(projection.updates.len(), 1);
}

#[test]
fn missing_projection_and_sequence_gap_require_repair() {
    let mut reducer = SessionProjectionReducer::new();
    let missing = reducer
        .apply_update(SessionUpdate {
            session_id: "missing".into(),
            sequence: 1,
            update: SessionChange::Closed,
        })
        .unwrap_err();
    assert!(matches!(missing, SessionProjectionError::Missing { .. }));

    reducer.insert_created(session("session-1", None));
    let gap = reducer
        .apply_update(SessionUpdate {
            session_id: "session-1".into(),
            sequence: 2,
            update: SessionChange::Closed,
        })
        .unwrap_err();
    assert_eq!(
        gap,
        SessionProjectionError::SequenceGap {
            session_id: "session-1".into(),
            expected: 1,
            actual: 2,
        }
    );
    assert_eq!(reducer.state().session(&key("session-1")).unwrap().through_sequence, 0);
}

#[test]
fn projection_gap_does_not_advance_observable_version() {
    let mut projection = SessionProjectionStore::new();
    projection.insert_created(session("session-1", None)).unwrap();
    let before = projection.state().clone();

    let error = projection
        .apply_update(SessionUpdate {
            session_id: "session-1".into(),
            sequence: 2,
            update: SessionChange::Closed,
        })
        .unwrap_err();
    assert!(matches!(
        error,
        SessionProjectionStoreError::Projection(SessionProjectionError::SequenceGap { .. })
    ));
    assert_eq!(projection.state(), &before);
    assert_eq!(projection.state().session(&key("session-1")).unwrap().through_sequence, 0);
}

#[test]
fn repair_discards_snapshot_covered_updates_and_applies_contiguous_suffix() {
    let mut projection = SessionProjectionStore::new();
    projection.insert_created(session("session-1", Some("stale"))).unwrap();
    projection
        .repair_with_snapshot(
            SessionSnapshot {
                session: session("session-1", Some("snapshot")),
                through_sequence: 2,
                updates: vec![rename("session-1", 1, "one"), rename("session-1", 2, "snapshot")],
            },
            vec![
                rename("session-1", 2, "covered duplicate"),
                rename("session-1", 3, "after repair"),
            ],
        )
        .unwrap();

    let repaired = projection.state().session(&key("session-1")).unwrap();
    assert_eq!(repaired.through_sequence, 3);
    assert_eq!(repaired.updates.len(), 3);
    assert_eq!(repaired.session.title.as_deref(), Some("after repair"));
}

#[test]
fn repair_keeps_authoritative_snapshot_when_suffix_still_has_gap() {
    let mut projection = SessionProjectionStore::new();
    projection.insert_created(session("session-1", Some("stale"))).unwrap();

    let error = projection
        .repair_with_snapshot(
            SessionSnapshot {
                session: session("session-1", Some("repaired")),
                through_sequence: 2,
                updates: vec![rename("session-1", 1, "one"), rename("session-1", 2, "repaired")],
            },
            vec![rename("session-1", 4, "still gapped")],
        )
        .unwrap_err();

    assert!(matches!(
        error,
        SessionProjectionStoreError::Projection(SessionProjectionError::SequenceGap {
            expected: 3,
            actual: 4,
            ..
        })
    ));
    let repaired = projection.state().session(&key("session-1")).unwrap();
    assert_eq!(repaired.through_sequence, 2);
    assert_eq!(repaired.session.title.as_deref(), Some("repaired"));
}

#[test]
fn observable_projection_commits_match_reducer_state() {
    let mut projection = SessionProjectionStore::new();
    let mut reducer = SessionProjectionReducer::new();
    projection.insert_created(session("session-1", None)).unwrap();
    reducer.insert_created(session("session-1", None));
    projection.apply_update(rename("session-1", 1, "observable")).unwrap();
    reducer.apply_update(rename("session-1", 1, "observable")).unwrap();

    assert_eq!(projection.state(), reducer.state());
    assert_eq!(
        projection.state().session(&key("session-1")).unwrap().session.title.as_deref(),
        Some("observable")
    );
}

#[test]
fn repair_refuses_updates_of_another_session() {
    let mut projection = SessionProjectionStore::new();
    projection.insert_created(session("session-1", None)).unwrap();
    let error = projection
        .repair_with_snapshot(
            SessionSnapshot {
                session: session("session-1", Some("repaired")),
                through_sequence: 0,
                updates: Vec::new(),
            },
            vec![rename("session-2", 1, "foreign")],
        )
        .unwrap_err();
    assert!(matches!(
        error,
        SessionProjectionStoreError::Projection(SessionProjectionError::RepairSessionMismatch { .. })
    ));
}
