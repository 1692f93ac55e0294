use phenix::context::{
    AdmittedContextItem, CachePlacement, ContextProjectionForm, ContextProjectionState,
    ContextRetention, ContextSource, ExactContextReference, ProjectionCheckpoint,
    ProjectionRevision, PromptAssembly, PromptSection, PromptSectionKind, PromptSectionRole,
};
use phenix::preparation::{checkpoint_candidate, context_candidate, invocation_preparation, is_reduced_item};

fn identity_section() -> PromptSection {
    PromptSection {
        role: PromptSectionRole::Instruction,
        kind: PromptSectionKind::HarnessIdentity,
        source: "phenix".into(),
        reference: None,
        content: b"identity".to_vec(),
    }
}

fn document_section(id: &str) -> PromptSection {
    PromptSection {
        role: PromptSectionRole::Context,
        kind: PromptSectionKind::ProjectDocument,
        source: format!("{id}.md"),
        reference: Some(ExactContextReference { resource_id: id.into(), revision: "rev".into() }),
        content: b"document body".to_vec(),
    }
}

fn item(id: &str, form: ContextProjectionForm, retention: ContextRetention) -> AdmittedContextItem {
    AdmittedContextItem {
        id: id.into(),
        source: ContextSource::Inline { identity: id.into() },
        content_identity: "c".into(),
        form,
        cache: CachePlacement::Epoch,
        retention,
        estimated_tokens: 1,
        recovery: None,
    }
}

#[test]
fn invocation_preparation_keeps_request_budget_separate_from_context_candidates() {
    let assembly = PromptAssembly { execution_id: "execution-1".into(), sections: vec![identity_section()] };
    let preparation = invocation_preparation(
        &assembly,
        None,
        ProjectionRevision { revision: 3, cache_epoch: 2 },
        b"request",
    );

    assert_eq!(preparation.request_input_tokens, 7);
    assert_eq!(preparation.projection.revision, 3);
    assert_eq!(preparation.projection.cache_epoch, 2);
    assert_eq!(preparation.candidates.len(), 1);
    let identity = &preparation.candidates[0];
    assert!(identity.mandatory);
    assert_eq!(identity.retention, ContextRetention::Pinned);
    assert_eq!(identity.cache, CachePlacement::StablePrefix);
    assert!(matches!(identity.source, ContextSource::Inline { .. }));
}

#[test]
fn reduced_items_are_not_offered_again_and_the_checkpoint_is() {
    let mut state = ContextProjectionState::new("execution-1".into());
    state.set_admitted(item("a@rev", ContextProjectionForm::Reference, ContextRetention::Reference));
    state.set_admitted(item("b@rev", ContextProjectionForm::Full, ContextRetention::Compact));
    state.set_admitted(item("c@rev", ContextProjectionForm::Full, ContextRetention::Full));
    state.committed_checkpoint = Some(ProjectionCheckpoint {
        checkpoint_id: "checkpoint-1".into(),
        execution_id: "execution-1".into(),
        source_revision: ProjectionRevision { revision: 1, cache_epoch: 0 },
        content_identity: "sha256:summary".into(),
        compact_view: b"summary".to_vec(),
        exact_sources: Vec::new(),
    });
    let assembly = PromptAssembly {
        execution_id: "execution-1".into(),
        sections: vec![identity_section(), document_section("a"), document_section("b"), document_section("c")],
    };
    let preparation =
        invocation_preparation(&assembly, Some(&state), ProjectionRevision { revision: 2, cache_epoch: 0 }, b"");
    let ids: Vec<&str> = preparation.candidates.iter().map(|c| c.id.as_str()).collect();
    assert_eq!(ids, ["phenix:harness-identity", "c@rev", "phenix:checkpoint:checkpoint-1"]);
    let last = preparation.candidates.last().unwrap();
    assert_eq!(last.retention, ContextRetention::DropAllowed);
    assert_eq!(last.content, b"summary".to_vec());
    assert_eq!(preparation.request_input_tokens, 0);
}

#[test]
fn candidates_carry_their_digest_and_placement() {
    let candidate = context_candidate(&document_section("doc"));
    assert_eq!(candidate.id, "doc@rev");
    assert!(!candidate.mandatory);
    assert_eq!(candidate.retention, ContextRetention::Full);
    assert_eq!(candidate.cache, CachePlacement::Epoch);
    assert_eq!(candidate.estimated_tokens, 13);
    assert_eq!(candidate.content_identity.len(), 64);
    assert_eq!(candidate.recovery, Some(ExactContextReference { resource_id: "doc".into(), revision: "rev".into() }));
    let checkpoint = ProjectionCheckpoint {
        checkpoint_id: "cp".into(),
        execution_id: "e".into(),
        source_revision: ProjectionRevision { revision: 1, cache_epoch: 0 },
        content_identity: "x".into(),
        compact_view: b"view".to_vec(),
        exact_sources: Vec::new(),
    };
    let c = checkpoint_candidate(&checkpoint);
    assert_eq!(c.id, "phenix:checkpoint:cp");
    assert_eq!(c.source, ContextSource::Inline { identity: "phenix:checkpoint:cp".into() });
    assert!(is_reduced_item(&item("x", ContextProjectionForm::Omitted, ContextRetention::Full)));
    assert!(!is_reduced_item(&item("x", ContextProjectionForm::Full, ContextRetention::Pinned)));
}
