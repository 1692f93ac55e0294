use phenix::configuration::{
    direct_profile_name_of, distinct_targets, reconcile, settings_assignments, unique,
    ConfigurationError, OptionAssignment, OptionScope, SettingValue, SettingsConfiguration,
};
use phenix::text_map::TextMap;

fn map(pairs: &[(&str, &str)]) -> TextMap<String> {
    let mut m = TextMap::new();
    for (k, v) in pairs {
        m.insert(k.to_string(), v.to_string());
    }
    m
}

#[test]
fn duplicate_definitions_are_refused() {
    let ok = unique(vec![("agent.b".to_string(), 2), ("agent.a".to_string(), 1)]).unwrap();
    assert_eq!(ok.len(), 2);
    assert_eq!(ok.get(&"agent.a".to_string()), Some(&1));
    let dup = unique(vec![
        ("agent.a".to_string(), 1),
        ("agent.b".to_string(), 2),
        ("agent.a".to_string(), 3),
        ("agent.b".to_string(), 4),
    ]);
    assert!(matches!(dup, Err(ConfigurationError::DuplicateCallable { ref id }) if id == "agent.a"));
}

#[test]
fn packaged_definitions_are_recorded_and_owned() {
    let mut records = map(&[("agent.user", "mine")]);
    let mut owned = TextMap::new();
    let desired = map(&[("agent.scout", "v1"), ("agent.review", "v1")]);
    let active = reconcile(&mut records, &mut owned, desired).unwrap();
    assert_eq!(active, vec!["agent.review".to_string(), "agent.scout".to_string()]);
    assert_eq!(records.len(), 3);
    assert_eq!(owned.len(), 2);
    assert_eq!(records.get(&"agent.user".to_string()), Some(&"mine".to_string()));

    // A restart with updated definitions replaces what the package owns.
    let desired = map(&[("agent.scout", "v2")]);
    reconcile(&mut records, &mut owned, desired).unwrap();
    assert_eq!(records.get(&"agent.scout".to_string()), Some(&"v2".to_string()));
    assert_eq!(records.get(&"agent.review".to_string()), Some(&"v1".to_string()));
}

#[test]
fn out_of_band_owned_profile_change_blocks_configuration() {
    let mut records = map(&[("router.test", "changed outside configuration")]);
    let mut owned = map(&[("router.test", "packaged")]);
    let desired = map(&[("router.test", "packaged")]);
    assert_eq!(
        reconcile(&mut records, &mut owned, desired),
        Err(ConfigurationError::ChangedOutsideConfiguration { id: "router.test".into() })
    );
    assert_eq!(records.get(&"router.test".to_string()), Some(&"changed outside configuration".to_string()));
}

#[test]
fn foreign_definitions_cannot_be_replaced() {
    let mut records = map(&[("agent.scout", "user defined")]);
    let mut owned = TextMap::new();
    let desired = map(&[("agent.scout", "packaged")]);
    assert_eq!(
        reconcile(&mut records, &mut owned, desired),
        Err(ConfigurationError::ForeignCallableImmutable { id: "agent.scout".into() })
    );
    assert_eq!(owned.len(), 0);
    // The same definition is adopted.
    let desired = map(&[("agent.scout", "user defined")]);
    assert!(reconcile(&mut records, &mut owned, desired).is_ok());
    assert_eq!(owned.len(), 1);
}

#[test]
fn startup_settings_use_structural_option_scopes() {
    let mut global = TextMap::new();
    global.insert("model.default".to_string(), SettingValue::String("router.default".into()));
    global.insert("a.flag".to_string(), SettingValue::Bool(true));
    let mut session = TextMap::new();
    session.insert("limit".to_string(), SettingValue::Integer(3));
    let mut sessions = TextMap::new();
    sessions.insert("session-1".to_string(), session);
    let mut agent = TextMap::new();
    agent.insert("model.default".to_string(), SettingValue::String("router.scout".into()));
    let mut agents = TextMap::new();
    agents.insert("agent.scout".to_string(), agent);
    let settings = SettingsConfiguration { global, sessions, agents };
    assert_eq!(
        settings_assignments(&settings),
        vec![
            OptionAssignment { key: "a.flag".into(), scope: OptionScope::Global, value: SettingValue::Bool(true) },
            OptionAssignment {
                key: "model.default".into(),
                scope: OptionScope::Global,
                value: SettingValue::String("router.default".into()),
            },
            OptionAssignment {
                key: "limit".into(),
                scope: OptionScope::Session("session-1".into()),
                value: SettingValue::Integer(3),
            },
            OptionAssignment {
                key: "model.default".into(),
                scope: OptionScope::Agent("agent.scout".into()),
                value: SettingValue::String("router.scout".into()),
            },
        ]
    );
}

#[test]
fn direct_profiles_are_named_by_the_digest_of_their_target() {
    assert_eq!(direct_profile_name_of("p", "m", b""), "model.p.m.e3b0c44298fc1c14");
    assert_eq!(direct_profile_name_of("provider.fixture", "model.test", b"abc"), "model.provider.fixture.model.test.ba7816bf8f01cfea");
    let kept = distinct_targets(vec![
        ("b".to_string(), 1),
        ("a".to_string(), 2),
        ("b".to_string(), 3),
    ]);
    assert_eq!(kept.into_entries(), vec![("a".to_string(), 2), ("b".to_string(), 1)]);
}

use phenix::configuration::{available_agent_ids, packaged_definitions};

#[test]
fn invalid_orchestration_and_duplicate_profiles_do_not_publish_definitions() {
    let agents = vec![("agent.scout".to_string(), 1), ("agent.review".to_string(), 2)];
    let orchestrations = vec![("orchestration.review".to_string(), 3)];
    let (a, o) = packaged_definitions(agents.clone(), orchestrations).unwrap();
    assert_eq!(a.len(), 2);
    assert_eq!(o.len(), 1);
    assert_eq!(
        packaged_definitions(agents.clone(), vec![("agent.scout".to_string(), 9)]),
        Err(ConfigurationError::AgentOrchestrationOverlap)
    );
    assert_eq!(
        packaged_definitions(vec![("agent.a".to_string(), 1), ("agent.a".to_string(), 1)], Vec::<(String, u8)>::new()),
        Err(ConfigurationError::DuplicateCallable { id: "agent.a".into() })
    );
    assert_eq!(
        packaged_definitions(agents, vec![("o".to_string(), 1), ("o".to_string(), 2)]),
        Err(ConfigurationError::DuplicateCallable { id: "o".into() })
    );
}

#[test]
fn retired_packaged_agents_are_not_available_to_orchestrations() {
    let records = map(&[("agent.retired", "v1"), ("agent.scout", "v2"), ("agent.user", "mine")]);
    let owned = map(&[("agent.retired", "v1"), ("agent.scout", "v2")]);
    let active = vec!["agent.scout".to_string()];
    assert_eq!(
        available_agent_ids(&records, &owned, &active),
        vec!["agent.scout".to_string(), "agent.user".to_string()]
    );
}
