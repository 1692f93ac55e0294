use phenix::context::{
    append_section, conservative_token_estimate, content_hash, file_name, injection_admission_key,
    injections_key, materialize_invocation, parent_path, plan_context_load, project_file_kind,
    resource_key, section_id, section_label, AdmittedContextItem, CachePlacement,
    CompactionProposal, ContextAdmissionResult, ContextInjection, ContextInjectionLifetime,
    ContextInjectionRequester, ContextLoad, ContextLoadError, ContextProjectionForm,
    ContextProjectionState, ContextResourceKind, ContextRetention, ContextSource,
    ContextStateError, ContextStateService, ExactContextReference, MaterializationError,
    ProjectionCheckpoint, ProjectionRevision, ProjectionStateError, PromptAssembly,
    PromptSection, PromptSectionKind, PromptSectionRole, RetentionTransition,
};

fn contains(haystack: &[u8], needle: &[u8]) -> Option<usize> {
    haystack.windows(needle.len()).position(|window| window == needle)
}

fn revision() -> ProjectionRevision {
    ProjectionRevision { revision: 4, cache_epoch: 2 }
}

fn exact(id: &str) -> ExactContextReference {
    ExactContextReference { resource_id: id.into(), revision: "revision-1".into() }
}

fn section(reference: Option<ExactContextReference>, content: &[u8]) -> PromptSection {
    PromptSection {
        role: PromptSectionRole::Context,
        kind: PromptSectionKind::ProjectDocument,
        source: "README.md".into(),
        reference,
        content: content.to_vec(),
    }
}

fn item(reference: ExactContextReference) -> AdmittedContextItem {
    AdmittedContextItem {
        id: format!("{}@{}", reference.resource_id, reference.revision),
        source: ContextSource::Exact { reference: reference.clone() },
        content_identity: "sha256:content".into(),
        form: ContextProjectionForm::Full,
        cache: CachePlacement::Epoch,
        retention: ContextRetention::Full,
        estimated_tokens: 8,
        recovery: Some(reference),
    }
}

fn state_with(item: AdmittedContextItem) -> ContextProjectionState {
    let mut state = ContextProjectionState::new("execution-1".into());
    state.revision = revision();
    state.set_admitted(item);
    state
}

fn assembly(sections: Vec<PromptSection>) -> PromptAssembly {
    PromptAssembly { execution_id: "execution-1".into(), sections }
}

#[test]
fn full_context_precedes_request() {
    let reference = exact("doc");
    let state = state_with(item(reference.clone()));
    let assembly = assembly(vec![section(Some(reference), b"context body")]);
    let materialized = materialize_invocation(&assembly, &state, b"request body", revision()).unwrap();
    let context = contains(&materialized.input, b"context body").unwrap();
    let request = contains(&materialized.input, b"request body").unwrap();
    assert!(context < request);
}

#[test]
fn request_suffix_does_not_change_cache_prefix_identity() {
    let reference = exact("doc");
    let state = state_with(item(reference.clone()));
    let assembly = assembly(vec![section(Some(reference), b"stable context")]);
    let first = materialize_invocation(&assembly, &state, b"request one", revision()).unwrap();
    let second = materialize_invocation(&assembly, &state, b"request two", revision()).unwrap();
    assert_eq!(first.cache_identity_material, second.cache_identity_material);
    assert_eq!(first.cache_prefix_bytes, second.cache_prefix_bytes);
    assert!(first.cache_prefix_bytes > 0);
    assert_ne!(first.input, second.input);
}

#[test]
fn cache_epoch_changes_prefix_identity_even_when_prefix_bytes_match() {
    let reference = exact("doc");
    let mut state = state_with(item(reference.clone()));
    let assembly = assembly(vec![section(Some(reference), b"stable context")]);
    let first = materialize_invocation(&assembly, &state, b"request", revision()).unwrap();
    state.revision.cache_epoch += 1;
    let next = state.revision;
    let second = materialize_invocation(&assembly, &state, b"request", next).unwrap();
    assert_eq!(first.cache_prefix_bytes, second.cache_prefix_bytes);
    assert_ne!(first.cache_identity_material, second.cache_identity_material);
}

#[test]
fn reference_never_reexpands_original_content() {
    let reference = exact("doc");
    let mut admitted = item(reference.clone());
    admitted.form = ContextProjectionForm::Reference;
    admitted.retention = ContextRetention::Reference;
    let state = state_with(admitted);
    let assembly = assembly(vec![section(Some(reference.clone()), b"secret original body")]);
    let materialized = materialize_invocation(&assembly, &state, b"request", revision()).unwrap();
    let text = String::from_utf8(materialized.input).unwrap();
    assert!(!text.contains("secret original body"));
    assert!(text.contains(&format!("{}@{}", reference.resource_id, reference.revision)));
}

#[test]
fn committed_checkpoint_replaces_compacted_source_body() {
    let reference = exact("doc");
    let mut admitted = item(reference.clone());
    admitted.retention = ContextRetention::Compact;
    let mut state = state_with(admitted);
    let checkpoint_id = "checkpoint-1";
    let checkpoint_item_id = format!("phenix:checkpoint:{checkpoint_id}");
    state.set_admitted(AdmittedContextItem {
        id: checkpoint_item_id.clone(),
        source: ContextSource::Inline { identity: checkpoint_item_id },
        content_identity: "sha256:summary".into(),
        form: ContextProjectionForm::Full,
        cache: CachePlacement::Epoch,
        retention: ContextRetention::Full,
        estimated_tokens: 4,
        recovery: None,
    });
    state.committed_checkpoint = Some(ProjectionCheckpoint {
        checkpoint_id: checkpoint_id.into(),
        execution_id: "execution-1".into(),
        source_revision: ProjectionRevision { revision: 3, cache_epoch: 1 },
        content_identity: "sha256:summary".into(),
        compact_view: b"compact summary".to_vec(),
        exact_sources: vec![reference.clone()],
    });
    let assembly = assembly(vec![section(Some(reference), b"large original body")]);
    let materialized = materialize_invocation(&assembly, &state, b"request", revision()).unwrap();
    let text = String::from_utf8(materialized.input).unwrap();
    assert!(text.contains("compact summary"));
    assert!(!text.contains("large original body"));
}

#[test]
fn stale_projection_is_rejected_before_materialization() {
    let mut state = ContextProjectionState::new("execution-1".into());
    state.revision = revision();
    let stale = ProjectionRevision { revision: 3, cache_epoch: 2 };
    assert_eq!(
        materialize_invocation(&assembly(Vec::new()), &state, b"request", stale),
        Err(MaterializationError::StaleProjection { expected: stale, actual: revision() })
    );
}

#[test]
fn unrepresented_admitted_item_is_not_materializable() {
    let state = state_with(item(exact("doc")));
    assert_eq!(
        materialize_invocation(&assembly(Vec::new()), &state, b"request", revision()),
        Err(MaterializationError::NotMaterializable { item_id: "doc@revision-1".into() })
    );
}

#[test]
fn reference_without_exact_source_is_refused() {
    let mut admitted = item(exact("doc"));
    admitted.form = ContextProjectionForm::Reference;
    admitted.recovery = None;
    admitted.source = ContextSource::Inline { identity: "doc".into() };
    let state = state_with(admitted);
    let assembly = assembly(vec![section(Some(exact("doc")), b"body")]);
    assert_eq!(
        materialize_invocation(&assembly, &state, b"request", revision()),
        Err(MaterializationError::MissingRecoverySource { item_id: "doc@revision-1".into() })
    );
}

fn admission(epoch: u64) -> ContextAdmissionResult {
    ContextAdmissionResult {
        execution_id: "execution-1".into(),
        policy_revision: "policy-1".into(),
        cache_epoch: epoch,
        admitted: vec![AdmittedContextItem {
            id: "item-1".into(),
            source: ContextSource::Inline { identity: "item-1".into() },
            content_identity: "sha256:item-1".into(),
            form: ContextProjectionForm::Full,
            cache: CachePlacement::Epoch,
            retention: ContextRetention::Full,
            estimated_tokens: 100,
            recovery: None,
        }],
        used_input_tokens: 100,
        omitted_input_tokens: 0,
        deduplicated_items: 0,
    }
}

fn admitted_state() -> ContextProjectionState {
    let mut state = ContextProjectionState::new("execution-1".into());
    state.apply_admission(admission(1)).unwrap();
    state
}

fn proposal(state: &ContextProjectionState) -> CompactionProposal {
    CompactionProposal {
        execution_id: state.execution_id.clone(),
        expected_projection: state.revision,
        next_cache_epoch: state.revision.cache_epoch + 1,
        transitions: vec![RetentionTransition {
            item_id: "item-1".into(),
            from: ContextRetention::Full,
            to: ContextRetention::DropAllowed,
            recovery: None,
        }],
        checkpoint: ProjectionCheckpoint {
            checkpoint_id: "checkpoint-1".into(),
            execution_id: state.execution_id.clone(),
            source_revision: state.revision,
            content_identity: "sha256:checkpoint".into(),
            compact_view: b"summary".to_vec(),
            exact_sources: Vec::new(),
        },
    }
}

#[test]
fn context_mutation_invalidates_prepared_compaction() {
    let mut state = admitted_state();
    let p = proposal(&state);
    state.prepare_compaction(p, Ok(())).unwrap();
    state.invalidate_for_context_mutation();
    assert!(matches!(
        state.commit_compaction(&"checkpoint-1".to_string(), Ok(())),
        Err(ProjectionStateError::UnknownPreparedCheckpoint { .. })
    ));
}

#[test]
fn compaction_commit_advances_revision_and_cache_epoch() {
    let mut state = admitted_state();
    let original = state.revision;
    let p = proposal(&state);
    state.prepare_compaction(p, Ok(())).unwrap();
    let commit = state.commit_compaction(&"checkpoint-1".to_string(), Ok(())).unwrap();
    assert_eq!(commit.committed_projection.revision, original.revision + 1);
    assert_eq!(commit.committed_projection.cache_epoch, original.cache_epoch + 1);
    assert_eq!(
        state.admitted_item(&"item-1".to_string()).unwrap().form,
        ContextProjectionForm::Omitted
    );
    assert_eq!(state.committed_checkpoint.as_ref().unwrap().checkpoint_id, "checkpoint-1");
}

#[test]
fn admission_rules() {
    let mut state = admitted_state();
    assert_eq!(state.revision, ProjectionRevision { revision: 1, cache_epoch: 1 });
    let mut other = admission(2);
    other.execution_id = "execution-2".into();
    assert_eq!(state.apply_admission(other), Err(ProjectionStateError::ExecutionMismatch));
    assert_eq!(
        state.apply_admission(admission(0)),
        Err(ProjectionStateError::StaleAdmissionEpoch { current: 1, incoming: 0 })
    );
    state.apply_admission(admission(3)).unwrap();
    assert_eq!(state.revision, ProjectionRevision { revision: 2, cache_epoch: 3 });
}

#[test]
fn prepare_rules() {
    let mut state = admitted_state();
    let p = proposal(&state);
    assert_eq!(
        state.prepare_compaction(p.clone(), Err("stale".into())),
        Err(ProjectionStateError::Compaction { reason: "stale".into() })
    );
    state.prepare_compaction(p.clone(), Ok(())).unwrap();
    assert_eq!(
        state.prepare_compaction(p, Ok(())),
        Err(ProjectionStateError::DuplicatePreparedCheckpoint { checkpoint_id: "checkpoint-1".into() })
    );
}

#[test]
fn commit_with_unknown_item_reports_it() {
    let mut state = admitted_state();
    let mut p = proposal(&state);
    p.transitions[0].item_id = "missing".into();
    state.prepare_compaction(p, Ok(())).unwrap();
    assert_eq!(
        state.commit_compaction(&"checkpoint-1".to_string(), Ok(())),
        Err(ProjectionStateError::UnknownContextItem { item_id: "missing".into() })
    );
    assert!(state.prepared_proposal(&"checkpoint-1".to_string()).is_none());
}

#[test]
fn state_service_keeps_one_projection_per_execution() {
    let mut service = ContextStateService::new();
    let result = service.apply_admission("execution-1".into(), Ok(admission(1))).unwrap();
    assert_eq!(result.cache_epoch, 1);
    assert_eq!(
        service.projection_revision(&"execution-1".to_string()),
        Some(ProjectionRevision { revision: 1, cache_epoch: 1 })
    );
    assert_eq!(
        service.invalidate_projection(&"execution-2".to_string()),
        Err(ContextStateError::UnknownExecution { execution_id: "execution-2".into() })
    );
    assert_eq!(
        service.invalidate_if_present(&"execution-1".to_string()),
        Some(ProjectionRevision { revision: 2, cache_epoch: 1 })
    );
    assert_eq!(
        service.apply_admission("execution-1".into(), Err("over budget".into())),
        Err(ContextStateError::Admission { reason: "over budget".into() })
    );
}

#[test]
fn keys_and_paths() {
    assert_eq!(resource_key("doc", "abc"), "resource/doc/abc");
    assert_eq!(injections_key("execution-1"), "injections/execution-1");
    assert_eq!(
        injection_admission_key("execution-1", "admission-1"),
        "injection-admission/execution-1/admission-1"
    );
    assert_eq!(file_name("docs/guide/AGENTS.md"), "AGENTS.md");
    assert_eq!(file_name("AGENTS.md"), "AGENTS.md");
    assert_eq!(parent_path("docs/guide/AGENTS.md"), Some("docs/guide".to_string()));
    assert_eq!(parent_path("AGENTS.md"), None);
    assert_eq!(project_file_kind("a/AGENTS.override.md"), Some(ContextResourceKind::ProjectInstruction));
    assert_eq!(project_file_kind("DEVELOPMENT.md"), Some(ContextResourceKind::ProjectDocument));
    assert_eq!(project_file_kind("skills/review/SKILL.md"), Some(ContextResourceKind::Skill));
    assert_eq!(project_file_kind("README.md"), None);
    assert_eq!(conservative_token_estimate(b"request"), 7);
}

#[test]
fn content_hash_is_the_hex_sha256_digest() {
    assert_eq!(
        content_hash(b""),
        "e3b0c44298fc1c149afbf4c8996fb92427ae41e4649b934ca495991b7852b855"
    );
    assert_eq!(
        content_hash(b"abc"),
        "ba7816bf8f01cfea414140de5dae2223b00361a396177a9cb410ff61f20015ad"
    );
}

#[test]
fn sections_are_framed() {
    let mut output = Vec::new();
    append_section(&mut output, "instruction", "phenix", b"identity");
    append_section(&mut output, "request", "user", b"hello");
    assert_eq!(
        String::from_utf8(output).unwrap(),
        "--- phenix instruction [phenix] ---\nidentity\n\n--- phenix request [user] ---\nhello\n"
    );
    assert_eq!(section_label(PromptSectionKind::ProjectDocument), "project-context");
    assert_eq!(section_label(PromptSectionKind::HarnessIdentity), "instruction");
    assert_eq!(section_id(&section(None, b"")), "phenix:harness-identity");
    assert_eq!(section_id(&section(Some(exact("doc")), b"")), "doc@revision-1");
}

fn reference() -> ExactContextReference {
    exact("doc")
}

#[test]
fn loads_are_sequenced_and_admissions_replay() {
    let first = plan_context_load(
        "execution-1".into(),
        reference(),
        ContextInjectionRequester::User,
        ContextInjectionLifetime::Execution,
        "needed".into(),
        None,
        None,
        Vec::new(),
    )
    .unwrap();
    let ContextLoad::Appended { injection, injections } = first else {
        panic!("expected an appended injection");
    };
    assert_eq!(injection.sequence, 1);
    assert_eq!(injections, vec![injection.clone()]);

    let replay = plan_context_load(
        "execution-1".into(),
        reference(),
        ContextInjectionRequester::User,
        ContextInjectionLifetime::Execution,
        "needed".into(),
        Some("admission-1".into()),
        Some(injection.clone()),
        injections.clone(),
    )
    .unwrap();
    assert_eq!(replay, ContextLoad::Replayed(injection.clone()));

    let reused = plan_context_load(
        "execution-1".into(),
        reference(),
        ContextInjectionRequester::Orchestration,
        ContextInjectionLifetime::Execution,
        "needed".into(),
        Some("admission-1".into()),
        Some(injection.clone()),
        injections.clone(),
    );
    assert_eq!(reused, Err(ContextLoadError::AdmissionReused { admission_id: "admission-1".into() }));

    let second = plan_context_load(
        "execution-1".into(),
        reference(),
        ContextInjectionRequester::User,
        ContextInjectionLifetime::Execution,
        "again".into(),
        None,
        None,
        injections,
    )
    .unwrap();
    let ContextLoad::Appended { injection: next, .. } = second else {
        panic!("expected an appended injection");
    };
    assert_eq!(next.sequence, 2);
    let _: ContextInjection = next;

    assert_eq!(
        plan_context_load(
            " ".into(),
            reference(),
            ContextInjectionRequester::User,
            ContextInjectionLifetime::Execution,
            "needed".into(),
            None,
            None,
            Vec::new(),
        ),
        Err(ContextLoadError::EmptyExecutionId)
    );
    // A blank admission identity is refused before anything else is checked.
    assert_eq!(
        plan_context_load(
            " ".into(),
            reference(),
            ContextInjectionRequester::User,
            ContextInjectionLifetime::Execution,
            " ".into(),
            Some("  ".into()),
            None,
            Vec::new(),
        ),
        Err(ContextLoadError::EmptyAdmissionId)
    );
}
