use phenix::language::{
    entity_current_key, entity_lineage_key, entity_revision_key, file_fallback_document,
    identity_continuity_key, observation_key, store_entity_lineage, store_entity_revision,
    validate_code_entity_lineage, validate_code_entity_revision, validate_documents,
    validate_identity_continuity, CodeEntityFacetRevisions, CodeEntityLineage,
    CodeEntityLineageConfidence, CodeEntityLineageKind, CodeEntityRevision, DocumentProvenance,
    LanguageDocumentIdentity, LanguageError, LanguageField, LanguageProviders, LogicalCodeEntity,
    ProviderEpoch, StoreDecision,
};
use phenix::text_map::TextMap;

fn epoch(value: u64) -> ProviderEpoch {
    ProviderEpoch::new(value).unwrap()
}

fn revision(name: &str, sequence: u64) -> CodeEntityRevision {
    CodeEntityRevision {
        entity: LogicalCodeEntity { id: "entity-1".into(), repository_id: "repo-1".into() },
        revision: name.into(),
        sequence,
        document: LanguageDocumentIdentity {
            path: "src/lib.rs".into(),
            file_version: Some("sha256:lib".into()),
            provenance: DocumentProvenance::WorkspaceBacked,
        },
        symbol: Some("crate::entity".into()),
        name: "entity".into(),
        signature_identity: Some("signature".into()),
        body_identity: Some("body".into()),
        provider_id: "rust-analyzer".into(),
        provider_epoch: epoch(1),
        facets: CodeEntityFacetRevisions {
            existence: "existence-1".into(),
            name_location: "location-1".into(),
            signature: Some("signature-1".into()),
            body: Some("body-1".into()),
            relations: TextMap::new(),
        },
    }
}

fn lineage(from: &str, to: &str, kind: CodeEntityLineageKind) -> CodeEntityLineage {
    CodeEntityLineage {
        from_entity_id: from.into(),
        to_entity_id: to.into(),
        kind,
        confidence: CodeEntityLineageConfidence::Confirmed,
        evidence_observation_ids: vec!["language-1".into()],
    }
}

#[test]
fn logical_entity_identity_is_independent_of_revision_location_and_name() {
    let entity = LogicalCodeEntity { id: "entity-1".into(), repository_id: "repo-1".into() };
    let facets = CodeEntityFacetRevisions {
        existence: "existence-1".into(),
        name_location: "location-1".into(),
        signature: Some("signature-1".into()),
        body: Some("body-1".into()),
        relations: TextMap::new(),
    };
    let before = CodeEntityRevision {
        entity: entity.clone(),
        revision: "revision-1".into(),
        sequence: 1,
        document: LanguageDocumentIdentity {
            path: "src/old.rs".into(),
            file_version: Some("sha256:old".into()),
            provenance: DocumentProvenance::WorkspaceBacked,
        },
        symbol: Some("crate::old_name".into()),
        name: "old_name".into(),
        signature_identity: Some("signature".into()),
        body_identity: Some("body".into()),
        provider_id: "rust-analyzer".into(),
        provider_epoch: epoch(1),
        facets: facets.clone(),
    };
    let mut after = before.clone();
    after.revision = "revision-2".into();
    after.sequence = 2;
    after.document.path = "src/new.rs".into();
    after.name = "new_name".into();
    after.facets.name_location = "location-2".into();

    assert_eq!(before.entity, after.entity);
    assert_ne!(before.revision, after.revision);
    assert_ne!(before.document.path, after.document.path);
    assert_ne!(before.name, after.name);
}

#[test]
fn ambiguous_lineage_can_remain_tentative_without_forcing_identity() {
    let lineage = CodeEntityLineage {
        from_entity_id: "entity-1".into(),
        to_entity_id: "entity-2".into(),
        kind: CodeEntityLineageKind::Split,
        confidence: CodeEntityLineageConfidence::Tentative,
        evidence_observation_ids: vec!["language-1".into()],
    };

    assert_ne!(lineage.from_entity_id, lineage.to_entity_id);
    assert_eq!(lineage.confidence, CodeEntityLineageConfidence::Tentative);
    assert_eq!(validate_code_entity_lineage("repo-1", &lineage), Ok(()));
}

#[test]
fn zero_provider_epoch_is_rejected_at_decode_boundary() {
    assert!(ProviderEpoch::new(0).is_err());
    assert_eq!(ProviderEpoch::new(0), Err(LanguageError::ZeroEpoch));
    assert_eq!(ProviderEpoch::new(7).unwrap().get(), 7);
}

#[test]
fn out_of_order_revision_cannot_replace_the_current_one() {
    let current = revision("revision-2", 2);
    let older = revision("revision-1", 1);
    assert_eq!(
        store_entity_revision(&older, &None, &Some(current.clone())),
        Err(LanguageError::SequenceNotAdvanced { sequence: 1, current: 2 })
    );
    let same_sequence = revision("revision-3", 2);
    assert_eq!(
        store_entity_revision(&same_sequence, &None, &Some(current.clone())),
        Err(LanguageError::SequenceNotAdvanced { sequence: 2, current: 2 })
    );
    let newer = revision("revision-3", 3);
    assert_eq!(store_entity_revision(&newer, &None, &Some(current)), Ok(StoreDecision::Record));
    assert_eq!(store_entity_revision(&newer, &None, &None), Ok(StoreDecision::Record));
}

#[test]
fn replaying_a_recorded_revision_writes_nothing() {
    let recorded = revision("revision-1", 1);
    let current = revision("revision-2", 2);
    assert_eq!(
        store_entity_revision(&recorded, &Some(recorded.clone()), &Some(current.clone())),
        Ok(StoreDecision::AlreadyRecorded)
    );
    let mut rewritten = recorded.clone();
    rewritten.name = "renamed".into();
    assert_eq!(
        store_entity_revision(&rewritten, &Some(recorded), &Some(current)),
        Err(LanguageError::RevisionConflict { revision: "revision-1".into() })
    );
    assert_eq!(
        store_entity_revision(&revision("revision-0", 0), &None, &None),
        Err(LanguageError::ZeroSequence)
    );
}

#[test]
fn revision_checks_name_the_blank_field() {
    assert_eq!(validate_code_entity_revision(&revision("revision-1", 1)), Ok(()));
    let mut blank_name = revision("revision-1", 1);
    blank_name.name = "  ".into();
    assert_eq!(
        validate_code_entity_revision(&blank_name),
        Err(LanguageError::EmptyIdentity { field: LanguageField::EntityName })
    );
    let mut blank_entity = revision("revision-1", 1);
    blank_entity.entity.id = String::new();
    assert_eq!(
        validate_code_entity_revision(&blank_entity),
        Err(LanguageError::EmptyIdentity { field: LanguageField::EntityId })
    );
}

#[test]
fn lineage_kinds_constrain_identity() {
    assert_eq!(
        validate_code_entity_lineage("repo-1", &lineage("entity-1", "entity-2", CodeEntityLineageKind::Move)),
        Err(LanguageError::LineageIdentityChanged)
    );
    assert_eq!(
        validate_code_entity_lineage("repo-1", &lineage("entity-1", "entity-1", CodeEntityLineageKind::Move)),
        Ok(())
    );
    assert_eq!(
        validate_code_entity_lineage(
            "repo-1",
            &lineage("entity-old", "entity-old", CodeEntityLineageKind::Replacement)
        ),
        Err(LanguageError::LineageIdentityReused)
    );
    assert_eq!(
        validate_code_entity_lineage(
            "repo-1",
            &lineage("entity-old", "entity-new", CodeEntityLineageKind::Replacement)
        ),
        Ok(())
    );
}

#[test]
fn recorded_lineage_is_immutable() {
    let link = lineage("entity-1", "entity-1", CodeEntityLineageKind::Move);
    assert_eq!(store_entity_lineage(&link, None), Ok(StoreDecision::Record));
    assert_eq!(store_entity_lineage(&link, Some(&link)), Ok(StoreDecision::AlreadyRecorded));
    let mut other = link.clone();
    other.confidence = CodeEntityLineageConfidence::Tentative;
    assert_eq!(store_entity_lineage(&other, Some(&link)), Err(LanguageError::LineageConflict));
}

#[test]
fn stale_provider_epoch_is_refused() {
    let mut providers: LanguageProviders<u32> = LanguageProviders::new();
    let documents = vec![LanguageDocumentIdentity {
        path: "src/lib.rs".into(),
        file_version: Some("sha256:lib".into()),
        provenance: DocumentProvenance::WorkspaceBacked,
    }];
    assert!(providers.activate_provider("workspace".into(), "rust-analyzer".into(), epoch(1)).is_ok());
    assert_eq!(providers.publish_diagnostics("workspace".into(), "rust-analyzer", epoch(1), &documents, 5), Ok(()));
    assert_eq!(providers.current_diagnostics(&"workspace".to_string()), Ok(Some(&5)));
    assert!(providers.activate_provider("workspace".into(), "rust-analyzer".into(), epoch(2)).is_ok());
    assert_eq!(providers.current_diagnostics(&"workspace".to_string()), Ok(None));
    assert_eq!(
        providers.admit_observation("obs-1", "exec-1", "workspace", "rust-analyzer", epoch(1), &documents),
        Err(LanguageError::ProviderChanged { active: Some(("rust-analyzer".into(), 2)) })
    );
    assert_eq!(
        providers.admit_observation("obs-1", "exec-1", "workspace", "rust-analyzer", epoch(2), &documents),
        Ok(())
    );
    assert_eq!(
        providers.activate_provider("workspace".into(), "rust-analyzer".into(), epoch(2)),
        Err(LanguageError::EpochNotAdvanced { current: 2 })
    );
    assert_eq!(providers.end_provider(&"workspace".to_string(), "rust-analyzer", epoch(2)), Ok(()));
    assert_eq!(
        providers.require_epoch("workspace", "rust-analyzer", epoch(2)),
        Err(LanguageError::ProviderChanged { active: None })
    );
}

#[test]
fn workspace_evidence_requires_a_version_but_unsaved_frontend_text_does_not() {
    let workspace = vec![LanguageDocumentIdentity {
        path: "src/lib.rs".into(),
        file_version: None,
        provenance: DocumentProvenance::WorkspaceBacked,
    }];
    assert_eq!(validate_documents(&workspace), Err(LanguageError::MissingFileVersion));
    let unsaved = vec![LanguageDocumentIdentity {
        path: "src/lib.rs".into(),
        file_version: None,
        provenance: DocumentProvenance::FrontendUnsaved,
    }];
    assert_eq!(validate_documents(&unsaved), Ok(()));
}

#[test]
fn providerless_fallback_reads_the_requested_path_only() {
    assert_eq!(
        file_fallback_document("src/lib.rs".into(), &"src/lib.rs".to_string(), Some("sha256:abc".into())),
        Ok(LanguageDocumentIdentity {
            path: "src/lib.rs".into(),
            file_version: Some("sha256:abc".into()),
            provenance: DocumentProvenance::WorkspaceBacked,
        })
    );
    assert_eq!(
        file_fallback_document("src/lib.rs".into(), &"src/main.rs".to_string(), Some("sha256:abc".into())),
        Err(LanguageError::FallbackPathMismatch {
            requested: "src/lib.rs".into(),
            observed: "src/main.rs".into()
        })
    );
    assert_eq!(
        file_fallback_document("src/lib.rs".into(), &"src/lib.rs".to_string(), None),
        Err(LanguageError::FallbackAbsent { path: "src/lib.rs".into() })
    );
}

#[test]
fn continuity_and_storage_keys() {
    assert_eq!(validate_identity_continuity("repo-1", &None), Ok(()));
    assert_eq!(
        validate_identity_continuity("repo-1", &Some(" ".into())),
        Err(LanguageError::EmptyIdentity { field: LanguageField::ContinuityReason })
    );
    assert_eq!(
        validate_identity_continuity("", &None),
        Err(LanguageError::EmptyIdentity { field: LanguageField::RepositoryId })
    );
    assert_eq!(observation_key("obs-1"), "observation/obs-1");
    assert_eq!(identity_continuity_key("repo-1"), "entity/repo-1/continuity");
    assert_eq!(entity_current_key("repo-1", "entity-1"), "entity/repo-1/entity-1/current");
    assert_eq!(
        entity_revision_key("repo-1", "entity-1", "revision-1"),
        "entity/repo-1/entity-1/revision/revision-1"
    );
    assert_eq!(
        entity_lineage_key("repo-1", &lineage("entity-1", "entity-1", CodeEntityLineageKind::Move)),
        "entity/repo-1/lineage/entity-1/entity-1/move"
    );
}

use phenix::language::{facet_changes, CodeEntityFacetChanges};

fn facets(location: &str, relations: &[(&str, &str)]) -> CodeEntityFacetRevisions {
    let mut map = TextMap::new();
    for (name, revision) in relations {
        map.insert(name.to_string(), revision.to_string());
    }
    CodeEntityFacetRevisions {
        existence: "existence-stable".into(),
        name_location: location.into(),
        signature: Some("signature-stable".into()),
        body: Some("body-stable".into()),
        relations: map,
    }
}

#[test]
fn facet_changes_report_only_changed_neighborhoods() {
    let first = facets("location-1", &[("callers", "callers-1")]);
    let second = facets("location-2", &[("callers", "callers-2")]);
    assert_eq!(
        facet_changes(&first, &second),
        CodeEntityFacetChanges {
            existence: false,
            name_location: true,
            signature: false,
            body: false,
            relations: vec!["callers".into()],
        }
    );
    let before = facets("l", &[("callers", "1"), ("callees", "1"), ("types", "1")]);
    let mut after = facets("l", &[("callers", "1"), ("implementations", "1"), ("types", "2")]);
    after.body = None;
    let changes = facet_changes(&before, &after);
    assert!(!changes.name_location);
    assert!(changes.body);
    assert_eq!(changes.relations, vec!["callees".to_string(), "implementations".to_string(), "types".to_string()]);
    assert_eq!(facet_changes(&before, &before).relations, Vec::<String>::new());
}
