use phenix::workspace_discovery::{
    descriptor_match, text_set, scan_workspace_descriptors, WorkspaceDiscoveryCompleteness, WorkspaceDiscoveryDescriptorError,
    WorkspaceDiscoveryDescriptorV1, WorkspaceDiscoveryMatch, WorkspaceDiscoveryQuery,
    MAX_WORKSPACE_DISCOVERY_DESCRIPTOR_BYTES,
};

fn descriptor(id: &str, terms: &[&str]) -> WorkspaceDiscoveryDescriptorV1 {
    WorkspaceDiscoveryDescriptorV1 {
        version: 1,
        workspace_id: id.into(),
        canonical_root: format!("/work/{id}"),
        repository_remotes: Vec::new(),
        recall_terms: text_set(terms.iter().map(|term| (*term).to_owned()).collect()),
        observation_count: 1,
        confirmed_recoveries: 0,
        last_observed_at: 1,
    }
}

fn query(ids: &[&str], remotes: &[&str], terms: &[&str]) -> WorkspaceDiscoveryQuery {
    WorkspaceDiscoveryQuery {
        workspace_ids: ids.iter().map(|s| (*s).to_owned()).collect(),
        repository_remotes: remotes.iter().map(|s| (*s).to_owned()).collect(),
        recall_terms: terms.iter().map(|s| (*s).to_owned()).collect(),
    }
}

// The encoded size of a small descriptor; it stays far below the limit.
const ENCODED: usize = 200;

#[test]
fn lexical_descriptor_discovery_is_bounded_and_rebuildable() {
    let query = query(&[], &[], &["phenix", "prs"]);
    let result = scan_workspace_descriptors(
        vec![
            (descriptor("one", &["phenix", "prs"]), ENCODED),
            (descriptor("two", &["other"]), ENCODED),
        ],
        &query,
    );
    assert_eq!(result.candidates.len(), 1);
    assert_eq!(result.candidates[0].descriptor.workspace_id, "one");
    assert_eq!(result.completeness, WorkspaceDiscoveryCompleteness::Complete);
}

#[test]
fn exact_workspace_identity_outranks_lexical_terms() {
    let query = query(&["exact"], &[], &["phenix"]);
    let result = scan_workspace_descriptors(
        vec![
            (descriptor("lexical", &["phenix"]), ENCODED),
            (descriptor("exact", &[]), ENCODED),
        ],
        &query,
    );
    assert_eq!(result.candidates[0].descriptor.workspace_id, "exact");
    assert_eq!(result.candidates[0].evidence, WorkspaceDiscoveryMatch::ExactWorkspaceId);
    assert_eq!(result.candidates[1].evidence, WorkspaceDiscoveryMatch::LexicalTerms { matched: 1 });
}

#[test]
fn more_shared_terms_rank_first_and_ties_fall_to_the_identity() {
    let query = query(&[], &[], &["a", "b"]);
    let result = scan_workspace_descriptors(
        vec![
            (descriptor("zeta", &["a"]), ENCODED),
            (descriptor("beta", &["a", "b"]), ENCODED),
            (descriptor("alpha", &["b"]), ENCODED),
        ],
        &query,
    );
    let order: Vec<&str> =
        result.candidates.iter().map(|c| c.descriptor.workspace_id.as_str()).collect();
    assert_eq!(order, vec!["beta", "alpha", "zeta"]);
}

#[test]
fn invalid_descriptors_are_counted_not_matched() {
    let mut relative = descriptor("relative", &["phenix"]);
    relative.canonical_root = "work/relative".into();
    assert_eq!(relative.validate(ENCODED), Err(WorkspaceDiscoveryDescriptorError::RelativeRoot));
    let mut empty = descriptor(" ", &["phenix"]);
    empty.canonical_root = "/work/empty".into();
    assert_eq!(empty.validate(ENCODED), Err(WorkspaceDiscoveryDescriptorError::EmptyWorkspaceId));
    let big = descriptor("big", &["phenix"]);
    assert_eq!(
        big.validate(MAX_WORKSPACE_DISCOVERY_DESCRIPTOR_BYTES + 1),
        Err(WorkspaceDiscoveryDescriptorError::SerializedDescriptorTooLarge {
            requested: MAX_WORKSPACE_DISCOVERY_DESCRIPTOR_BYTES + 1,
            allowed: MAX_WORKSPACE_DISCOVERY_DESCRIPTOR_BYTES,
        })
    );
    let result = scan_workspace_descriptors(
        vec![(relative, ENCODED), (descriptor("ok", &["phenix"]), ENCODED)],
        &query(&[], &[], &["phenix"]),
    );
    assert_eq!(result.invalid_descriptors, 1);
    assert_eq!(result.scanned_descriptors, 2);
    assert_eq!(result.candidates.len(), 1);
}

#[test]
fn shared_remote_is_exact_repository_evidence() {
    let mut d = descriptor("remote", &[]);
    d.repository_remotes = vec!["github.com/example/phenix".into()];
    let result = scan_workspace_descriptors(
        vec![(d, ENCODED)],
        &query(&[], &["github.com/example/phenix"], &[]),
    );
    assert_eq!(result.candidates[0].evidence, WorkspaceDiscoveryMatch::ExactRepositoryRemote);
    assert_eq!(result.candidates[0].evidence.class(), 2);
}

#[test]
fn scan_result_does_not_depend_on_descriptor_order() {
    let query = query(&["exact"], &[], &["a", "b"]);
    let items = vec![
        (descriptor("zeta", &["a"]), ENCODED),
        (descriptor("exact", &[]), ENCODED),
        (descriptor("beta", &["a", "b"]), ENCODED),
        (descriptor("alpha", &["b"]), ENCODED),
    ];
    let mut reversed = items.clone();
    reversed.reverse();
    let forward = scan_workspace_descriptors(items, &query);
    let backward = scan_workspace_descriptors(reversed, &query);
    assert_eq!(forward, backward);
    let order: Vec<&str> =
        forward.candidates.iter().map(|c| c.descriptor.workspace_id.as_str()).collect();
    assert_eq!(order, vec!["exact", "beta", "alpha", "zeta"]);
}

#[test]
fn a_scan_past_the_limit_says_why_it_is_incomplete() {
    let query = query(&[], &[], &["a"]);
    let items: Vec<_> = (0..4097).map(|i| (descriptor(&format!("w{i}"), &["z"]), ENCODED)).collect();
    let result = scan_workspace_descriptors(items, &query);
    assert_eq!(result.scanned_descriptors, 4096);
    assert_eq!(
        result.completeness,
        WorkspaceDiscoveryCompleteness::Incomplete {
            reason: "workspace descriptor scan exceeded 4096 entries".to_owned(),
        }
    );
}

#[test]
fn recall_terms_are_a_set_and_the_smallest_oversized_term_is_named() {
    assert_eq!(
        text_set(vec!["b".into(), "a".into(), "b".into()]),
        vec!["a".to_string(), "b".to_string()]
    );
    // A term given twice is shared once.
    let d = descriptor("twice", &["a", "a", "b"]);
    assert_eq!(
        descriptor_match(&d, &query(&[], &[], &["a", "b"])),
        Some(WorkspaceDiscoveryMatch::LexicalTerms { matched: 2 })
    );
    let long_z = "z".repeat(65);
    let long_a = "a".repeat(65);
    let d = descriptor("long", &[long_z.as_str(), long_a.as_str()]);
    assert_eq!(
        d.validate(ENCODED),
        Err(WorkspaceDiscoveryDescriptorError::RecallTermTooLarge {
            term: long_a.clone(),
            requested: 65,
            allowed: 64,
        })
    );
}
