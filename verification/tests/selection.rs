use phenix::selection::{
    authentication_methods, authentication_request, direct_profile_id, is_direct_profile,
    selectable_profiles, AuthKind, AuthenticationError, AuthenticationMethod,
    AuthenticationMethodKind, AuthenticationRequest, DIRECT_PROFILE_PREFIX, MODEL_DEFAULT_OPTION,
};

#[test]
fn direct_profiles_are_named_by_provider_and_model_and_hidden_from_choice() {
    let direct = direct_profile_id("provider.fixture", "model.test");
    assert_eq!(direct, "phenix.application.direct.provider.fixture.model.test");
    assert!(direct.starts_with(DIRECT_PROFILE_PREFIX));
    assert!(is_direct_profile(&direct));
    assert!(!is_direct_profile("router.default"));
    assert!(!is_direct_profile("phenix.application"));
    let ids = vec!["router.default".to_string(), direct, "router.review".to_string()];
    assert_eq!(selectable_profiles(&ids), vec!["router.default".to_string(), "router.review".to_string()]);
    assert_eq!(MODEL_DEFAULT_OPTION, "model.default");
}

#[test]
fn authentication_methods_follow_each_providers_kinds() {
    let methods = authentication_methods(&vec![
        ("openai".to_string(), vec![AuthKind::ApiToken, AuthKind::OAuth]),
        ("local".to_string(), Vec::new()),
        ("anthropic".to_string(), vec![AuthKind::ApiToken]),
    ]);
    assert_eq!(
        methods,
        vec![
            AuthenticationMethod {
                id: "openai:api-key".into(),
                name: "openai API key".into(),
                description: Some("Authenticate openai using API key".into()),
                kind: AuthenticationMethodKind::ApiKey,
            },
            AuthenticationMethod {
                id: "openai:oauth".into(),
                name: "openai OAuth".into(),
                description: Some("Authenticate openai using OAuth".into()),
                kind: AuthenticationMethodKind::OAuth,
            },
            AuthenticationMethod {
                id: "anthropic:api-key".into(),
                name: "anthropic API key".into(),
                description: Some("Authenticate anthropic using API key".into()),
                kind: AuthenticationMethodKind::ApiKey,
            },
        ]
    );
}

#[test]
fn authentication_requests_split_at_the_last_colon() {
    assert_eq!(
        authentication_request("provider:x:api-key", Some("secret".into())),
        Ok(AuthenticationRequest::AddApiToken { provider: "provider:x".into(), secret: "secret".into() })
    );
    assert_eq!(authentication_request("no-colon", None), Err(AuthenticationError::MalformedMethodId));
    assert_eq!(authentication_request("p:api-key", None), Err(AuthenticationError::MissingSecret));
    assert_eq!(
        authentication_request("p:api-key", Some("  ".into())),
        Err(AuthenticationError::EmptySecret)
    );
    assert_eq!(
        authentication_request("p:oauth", None),
        Err(AuthenticationError::OAuthUnavailable { provider: "p".into() })
    );
    assert_eq!(
        authentication_request("p:other", None),
        Err(AuthenticationError::UnknownMethod { method: "other".into() })
    );
}

use phenix::selection::{
    check_routing_selection, direct_model_profile, direct_profile_registration, model_infos,
    model_targets, selected_model, selected_routing, ModelInfo, ModelTarget, RoutingProfile,
    SelectionError,
};
use phenix::text_map::TextMap;

fn target(provider: &str, model: &str) -> ModelTarget {
    ModelTarget { provider_plugin: provider.into(), model: model.into(), options: "{}".into() }
}

#[test]
fn models_resolve_to_one_target_across_profiles() {
    let direct = direct_profile_id("provider.z", "model.z");
    let targets = model_targets(&vec![
        ("router.default".to_string(), vec![target("provider.a", "model.b"), target("provider.a", "model.a")]),
        (direct, vec![target("provider.z", "model.b")]),
        ("router.review".to_string(), vec![target("provider.a", "model.a")]),
    ])
    .unwrap();
    assert_eq!(targets.len(), 2);
    assert_eq!(
        model_infos(&targets),
        vec![
            ModelInfo {
                id: "model.a".into(),
                name: "provider.a/model.a".into(),
                description: Some("Provider provider.a".into()),
            },
            ModelInfo {
                id: "model.b".into(),
                name: "provider.a/model.b".into(),
                description: Some("Provider provider.a".into()),
            },
        ]
    );
    let ambiguous = model_targets(&vec![
        ("router.default".to_string(), vec![target("provider.a", "model.a")]),
        ("router.review".to_string(), vec![target("provider.b", "model.a")]),
    ]);
    assert_eq!(
        ambiguous,
        Err(SelectionError::AmbiguousModel {
            model: "model.a".into(),
            existing_provider: "provider.a".into(),
            provider: "provider.b".into(),
        })
    );
}

#[test]
fn selecting_a_model_registers_its_direct_profile_once() {
    let mut targets = TextMap::new();
    targets.insert("model.a".to_string(), target("provider.a", "model.a"));
    let profile = direct_model_profile(&targets, &"model.a".to_string()).unwrap();
    assert_eq!(profile.id, "phenix.application.direct.provider.a.model.a");
    assert_eq!(profile.default_target, target("provider.a", "model.a"));
    assert_eq!(
        direct_model_profile(&targets, &"model.x".to_string()),
        Err(SelectionError::UnknownModel { model: "model.x".into() })
    );
    assert_eq!(direct_profile_registration(&profile, None), Ok(true));
    assert_eq!(direct_profile_registration(&profile, Some(&profile.clone())), Ok(false));
    let mut other = profile.clone();
    other.default_target.options = "{\"inference\":1}".into();
    assert_eq!(
        direct_profile_registration(&profile, Some(&other)),
        Err(SelectionError::DirectProfileConflict { profile_id: profile.id.clone() })
    );
    assert_eq!(selected_model(&Some(profile.id.clone()), Some(&profile)), Some("model.a".to_string()));
    let routed = RoutingProfile { id: "router.default".into(), ..profile.clone() };
    assert_eq!(selected_model(&Some("router.default".into()), Some(&routed)), None);
    assert_eq!(selected_model(&None, Some(&profile)), None);
}

#[test]
fn routing_profiles_are_picked_by_name_only_when_selectable() {
    assert_eq!(check_routing_selection(&"router.default".to_string(), true), Ok(()));
    assert_eq!(
        check_routing_selection(&"router.gone".to_string(), false),
        Err(SelectionError::UnknownProfile { profile_id: "router.gone".into() })
    );
    assert_eq!(
        check_routing_selection(&direct_profile_id("p", "m"), true),
        Err(SelectionError::DirectProfileNotSelectable)
    );
    let available = vec!["router.default".to_string(), "router.review".to_string()];
    assert_eq!(selected_routing(&available, Some("router.review".into())), Some("router.review".to_string()));
    assert_eq!(selected_routing(&available, Some(direct_profile_id("p", "m"))), None);
    assert_eq!(selected_routing(&available, None), None);
}
