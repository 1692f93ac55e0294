use phenix::benchmark::{
    evidence, record_key_material, validate_lookup, validate_record, BenchmarkField,
    BenchmarkOutcomeError, BenchmarkOutcomeInterface, BenchmarkOutcomeProjection,
    BenchmarkOutcomeRecord, EvaluationOutcome, BENCHMARK_OUTCOME_SERVICE,
};

fn record(outcome: EvaluationOutcome) -> BenchmarkOutcomeRecord {
    BenchmarkOutcomeRecord {
        task_fixture_revision: "fixture-1".into(),
        root_execution_id: "root-1".into(),
        evaluator_identity: "evaluator-1".into(),
        evidence_revision: "evidence-1".into(),
        outcome,
    }
}

#[test]
fn terminal_evidence_is_published_once_and_replayed_identically() {
    let mut projection = BenchmarkOutcomeProjection::new();
    let first = projection.publish(record(EvaluationOutcome::Failed), "key-1".into()).unwrap();
    assert_eq!(first.source_identity, "benchmark-outcome:key-1");
    assert_eq!(first.evaluator_identity, "evaluator-1");
    assert_eq!(first.evidence_revision, "evidence-1");
    assert_eq!(first.outcome, EvaluationOutcome::Failed);
    let replay = projection.publish(record(EvaluationOutcome::Failed), "key-1".into()).unwrap();
    assert_eq!(replay, first);

    assert_eq!(
        projection.publish(record(EvaluationOutcome::Succeeded), "key-1".into()),
        Err(BenchmarkOutcomeError::DifferentEvidence)
    );
    assert_eq!(
        projection.publish(record(EvaluationOutcome::Unresolved), "key-1".into()),
        Err(BenchmarkOutcomeError::NotTerminal)
    );
    assert_eq!(
        projection.get(&"key-1".to_string()),
        Some(&record(EvaluationOutcome::Failed))
    );
    assert_eq!(projection.get(&"key-2".to_string()), None);
}

#[test]
fn blank_identities_name_their_field() {
    assert_eq!(validate_lookup("f", "r", "e"), Ok(()));
    assert_eq!(
        validate_lookup(" ", "r", "e"),
        Err(BenchmarkOutcomeError::EmptyIdentity { field: BenchmarkField::TaskFixtureRevision })
    );
    assert_eq!(
        validate_lookup("f", "", "e"),
        Err(BenchmarkOutcomeError::EmptyIdentity { field: BenchmarkField::RootExecutionId })
    );
    assert_eq!(
        validate_lookup("f", "r", "\t"),
        Err(BenchmarkOutcomeError::EmptyIdentity { field: BenchmarkField::EvaluatorIdentity })
    );
    let mut blank_evidence = record(EvaluationOutcome::Succeeded);
    blank_evidence.evidence_revision = String::new();
    assert_eq!(
        validate_record(&blank_evidence),
        Err(BenchmarkOutcomeError::EmptyIdentity { field: BenchmarkField::EvidenceRevision })
    );
    assert_eq!(validate_record(&record(EvaluationOutcome::Succeeded)), Ok(()));
}

#[test]
fn key_material_frames_each_identity_with_its_length() {
    let material = record_key_material("ab", "", "c");
    let mut expected = Vec::new();
    expected.extend_from_slice(&2u64.to_be_bytes());
    expected.extend_from_slice(b"ab");
    expected.extend_from_slice(&0u64.to_be_bytes());
    expected.extend_from_slice(&1u64.to_be_bytes());
    expected.extend_from_slice(b"c");
    assert_eq!(material, expected);
    assert_ne!(record_key_material("a", "bc", ""), record_key_material("ab", "c", ""));
}

#[test]
fn evidence_names_its_source_and_interface() {
    let e = evidence(&record(EvaluationOutcome::Succeeded), "k");
    assert_eq!(e.source_identity, "benchmark-outcome:k");
    assert_eq!(BenchmarkOutcomeInterface::interface_id(), BENCHMARK_OUTCOME_SERVICE);
    assert_eq!(BENCHMARK_OUTCOME_SERVICE, "phenix.benchmark-outcomes@1");
}
