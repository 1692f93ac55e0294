use phenix::context::{ContextResourceKind, ExactContextReference};
use phenix::delegation::{DelegatedWorkerTaskRecord, WorkerTaskRecord, WorkerTaskState};
use phenix::resources::{
    completed_result, delegation_admission_id, delegation_reason, insert_ref, plan_discovery,
    register_resource, sort_dedup_refs, sort_descriptors, sort_sources, ContextDescriptor, ContextScope,
    DelegatedResultError, RepositoryContextSource, ResourceError, ResourceRegistration,
};

const ABC: &str = "ba7816bf8f01cfea414140de5dae2223b00361a396177a9cb410ff61f20015ad";

fn reference(id: &str, rev: &str) -> ExactContextReference {
    ExactContextReference { resource_id: id.into(), revision: rev.into() }
}

#[test]
fn a_new_revision_is_named_by_its_digest_and_joins_a_sorted_index() {
    let registration = register_resource(
        "doc".into(),
        ContextResourceKind::External,
        "notes".into(),
        ContextScope::Workspace,
        b"abc".to_vec(),
        None,
        vec![reference("zeta", "1"), reference("alpha", "2"), reference("alpha", "1"), reference("zeta", "1")],
    )
    .unwrap();
    let ResourceRegistration::New { resource, key, refs } = registration else {
        panic!("expected a new revision");
    };
    assert_eq!(resource.descriptor.revision, ABC);
    assert_eq!(resource.descriptor.content_identity, ABC);
    assert_eq!(resource.descriptor.estimated_bytes, 3);
    assert_eq!(resource.content, b"abc".to_vec());
    assert_eq!(key, format!("resource/doc/{ABC}"));
    assert_eq!(
        refs,
        vec![reference("alpha", "1"), reference("alpha", "2"), reference("doc", ABC), reference("zeta", "1")]
    );
}

#[test]
fn a_recorded_revision_is_immutable() {
    let first = register_resource(
        "doc".into(),
        ContextResourceKind::External,
        "notes".into(),
        ContextScope::Workspace,
        b"abc".to_vec(),
        None,
        Vec::new(),
    )
    .unwrap();
    let ResourceRegistration::New { resource, .. } = first else { panic!("expected a new revision") };
    let again = register_resource(
        "doc".into(),
        ContextResourceKind::External,
        "notes".into(),
        ContextScope::Workspace,
        b"abc".to_vec(),
        Some(resource.clone()),
        Vec::new(),
    );
    assert_eq!(again, Ok(ResourceRegistration::Existing { resource: resource.clone() }));
    let other_source = register_resource(
        "doc".into(),
        ContextResourceKind::External,
        "elsewhere".into(),
        ContextScope::Workspace,
        b"abc".to_vec(),
        Some(resource),
        Vec::new(),
    );
    assert_eq!(
        other_source,
        Err(ResourceError::RevisionCollision { resource_id: "doc".into(), revision: ABC.into() })
    );
}

#[test]
fn blank_sources_and_scopes_are_refused() {
    let blank = |source: &str, scope: ContextScope| {
        register_resource("doc".into(), ContextResourceKind::External, source.into(), scope, Vec::new(), None, Vec::new())
    };
    assert_eq!(
        blank(" ", ContextScope::Workspace),
        Err(ResourceError::EmptyIdentity { label: "context source".into() })
    );
    assert_eq!(
        blank("notes", ContextScope::PathPrefix("".into())),
        Err(ResourceError::EmptyIdentity { label: "context path scope".into() })
    );
}

#[test]
fn index_insertion_keeps_one_sorted_copy() {
    let mut refs = sort_dedup_refs(vec![reference("b", "1"), reference("a", "9"), reference("b", "1")]);
    assert_eq!(refs, vec![reference("a", "9"), reference("b", "1")]);
    insert_ref(&mut refs, reference("a", "10"));
    insert_ref(&mut refs, reference("b", "1"));
    assert_eq!(refs, vec![reference("a", "10"), reference("a", "9"), reference("b", "1")]);
}

#[test]
fn discovery_plans_project_files_in_path_order() {
    let source = |path: &str| RepositoryContextSource { path: path.into(), content: path.as_bytes().to_vec() };
    let plan = plan_discovery(
        "ws",
        vec![
            source("src/AGENTS.md"),
            source("README.md"),
            source("skills/review/SKILL.md"),
            source("AGENTS.md"),
            source("docs/CONTRIBUTING.md"),
        ],
    )
    .unwrap();
    let summary: Vec<(String, ContextResourceKind, ContextScope)> =
        plan.into_iter().map(|p| (p.resource_id, p.kind, p.scope)).collect();
    assert_eq!(
        summary,
        vec![
            ("project-instruction:ws:AGENTS.md".to_string(), ContextResourceKind::ProjectInstruction, ContextScope::Workspace),
            (
                "project-document:ws:docs/CONTRIBUTING.md".to_string(),
                ContextResourceKind::ProjectDocument,
                ContextScope::PathPrefix("docs".into()),
            ),
            ("skill:ws:skills/review/SKILL.md".to_string(), ContextResourceKind::Skill, ContextScope::Workspace),
            (
                "project-instruction:ws:src/AGENTS.md".to_string(),
                ContextResourceKind::ProjectInstruction,
                ContextScope::PathPrefix("src".into()),
            ),
        ]
    );
    assert_eq!(
        plan_discovery(" ", Vec::new()),
        Err(ResourceError::EmptyIdentity { label: "workspace id".into() })
    );
}

#[test]
fn descriptors_are_listed_by_resource_then_revision() {
    let descriptor = |id: &str, rev: &str| ContextDescriptor {
        resource_id: id.into(),
        revision: rev.into(),
        kind: ContextResourceKind::Skill,
        source: "s".into(),
        scope: ContextScope::Workspace,
        content_identity: rev.into(),
        estimated_bytes: 0,
    };
    let sorted = sort_descriptors(vec![descriptor("b", "1"), descriptor("a", "2"), descriptor("a", "1")]);
    let keys: Vec<(String, String)> = sorted.into_iter().map(|d| (d.resource_id, d.revision)).collect();
    assert_eq!(
        keys,
        vec![("a".into(), "1".into()), ("a".into(), "2".into()), ("b".into(), "1".into())]
    );
}

#[test]
fn only_completed_delegated_results_load() {
    let task = |state: WorkerTaskState| WorkerTaskRecord {
        id: "task-1".into(),
        parent_execution: "root".into(),
        graph_generation: "g1".into(),
        description: "inspect".into(),
        depends_on: Vec::new(),
        delegated_authority: Vec::new(),
        state,
    };
    let done = DelegatedWorkerTaskRecord {
        task: task(WorkerTaskState::Completed { execution_id: "child".into(), result_refs: Vec::new() }),
        binding: (),
        result: Some("summary".to_string()),
    };
    assert_eq!(completed_result("task-1", Some(&done)), Ok(&"summary".to_string()));
    let running: DelegatedWorkerTaskRecord<(), String> = DelegatedWorkerTaskRecord {
        task: task(WorkerTaskState::Running { execution_id: "child".into() }),
        binding: (),
        result: None,
    };
    assert_eq!(
        completed_result("task-1", Some(&running)),
        Err(DelegatedResultError::NotCompleted { task_id: "task-1".into() })
    );
    let empty: DelegatedWorkerTaskRecord<(), String> = DelegatedWorkerTaskRecord { result: None, ..done.clone() };
    assert_eq!(
        completed_result("task-1", Some(&empty)),
        Err(DelegatedResultError::MissingResult { task_id: "task-1".into() })
    );
    assert_eq!(
        completed_result::<(), String>("task-2", None),
        Err(DelegatedResultError::UnknownTask { task_id: "task-2".into() })
    );
    assert_eq!(completed_result::<(), String>(" ", None), Err(DelegatedResultError::EmptyTaskId));
    assert_eq!(delegation_admission_id("task-1"), "delegation-result:task-1");
    assert_eq!(delegation_reason("task-1"), "delegated result task-1");
}

#[test]
fn sources_with_equal_paths_keep_the_order_they_came_in() {
    let source = |path: &str, content: &[u8]| RepositoryContextSource {
        path: path.to_owned(),
        content: content.to_vec(),
    };
    let sorted = sort_sources(vec![
        source("b.md", b"1"),
        source("a.md", b"2"),
        source("b.md", b"3"),
        source("a.md", b"4"),
    ]);
    let order: Vec<(&str, &[u8])> =
        sorted.iter().map(|s| (s.path.as_str(), s.content.as_slice())).collect();
    assert_eq!(
        order,
        vec![("a.md", &b"2"[..]), ("a.md", &b"4"[..]), ("b.md", &b"1"[..]), ("b.md", &b"3"[..])]
    );
}
