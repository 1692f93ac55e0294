use phenix::debug::{probed_service_names, DiagnosticEntry, DiagnosticSnapshot};

#[test]
fn snapshot_records_answers_and_errors_per_service() {
    assert_eq!(
        probed_service_names(),
        vec!["sessions", "context", "planning_history", "jobs", "models", "frontends"]
    );
    let mut snapshot: DiagnosticSnapshot<u32> = DiagnosticSnapshot::new();
    snapshot.record_probe("sessions", Ok(3));
    snapshot.record_probe("context", Err("no provider for optional import".into()));
    assert_eq!(
        snapshot.services.get(&"sessions".to_string()),
        Some(&DiagnosticEntry::Available { value: 3 })
    );
    assert_eq!(
        snapshot.services.get(&"context".to_string()),
        Some(&DiagnosticEntry::Unavailable { error: "no provider for optional import".into() })
    );
    snapshot.record_probe("sessions", Ok(4));
    assert_eq!(snapshot.services.len(), 2);
    assert_eq!(
        snapshot.services.get(&"sessions".to_string()),
        Some(&DiagnosticEntry::Available { value: 4 })
    );
}
