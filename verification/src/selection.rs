//! Model, routing-profile and authentication choices an application makes:
//! direct model profiles, the profiles a user may pick, and the
//! authentication methods the providers offer.
use crate::identity::{is_blank, is_blank_str};
use crate::text_map::TextMap;
use vstd::prelude::*;

verus! {

/// The option that holds a session's routing profile.
pub const MODEL_DEFAULT_OPTION: &'static str = "model.default";

/// The prefix of the profiles made for one directly selected model.
pub const DIRECT_PROFILE_PREFIX: &'static str = "phenix.application.direct.";

/// Whether a profile was made for a directly selected model.
pub fn is_direct_profile(profile_id: &str) -> (r: bool)
    ensures
        r == (DIRECT_PROFILE_PREFIX@.len() <= profile_id@.len() && profile_id@.take(
            DIRECT_PROFILE_PREFIX@.len() as int,
        ) == DIRECT_PROFILE_PREFIX@),
{
    let prefix = DIRECT_PROFILE_PREFIX;
    let n = prefix.unicode_len();
    if profile_id.unicode_len() < n {
        return false;
    }
    let mut i: usize = 0;
    while i < n
        invariant
            n == prefix@.len(),
            prefix@ == DIRECT_PROFILE_PREFIX@,
            n <= profile_id@.len(),
            i <= n,
            forall|j: int| 0 <= j < i ==> profile_id@[j] == prefix@[j],
        decreases n - i,
    {
        if profile_id.get_char(i) != prefix.get_char(i) {
            return false;
        }
        i = i + 1;
    }
    assert(profile_id@.take(n as int) =~= DIRECT_PROFILE_PREFIX@);
    true
}

pub open spec fn direct_profile_id_spec(provider: Seq<char>, model: Seq<char>) -> Seq<char> {
    DIRECT_PROFILE_PREFIX@ + provider + "."@ + model
}

/// The identity of the profile that routes to exactly one model of one provider.
pub fn direct_profile_id(provider_plugin: &str, model: &str) -> (r: String)
    ensures
        r@ == direct_profile_id_spec(provider_plugin@, model@),
{
    let mut s = String::from_str(DIRECT_PROFILE_PREFIX);
    s.append(provider_plugin);
    s.append(".");
    s.append(model);
    s
}

/// The identities of the profiles a user may pick: all but the direct ones, in order.
pub open spec fn selectable(ids: Seq<Seq<char>>) -> Seq<Seq<char>>
    decreases ids.len(),
{
    if ids.len() == 0 {
        Seq::empty()
    } else {
        let rest = selectable(ids.drop_last());
        let id = ids.last();
        if DIRECT_PROFILE_PREFIX@.len() <= id.len() && id.take(DIRECT_PROFILE_PREFIX@.len() as int)
            == DIRECT_PROFILE_PREFIX@ {
            rest
        } else {
            rest.push(id)
        }
    }
}

pub fn selectable_profiles(ids: &Vec<String>) -> (r: Vec<String>)
    ensures
        r@.map_values(|s: String| s@) == selectable(ids@.map_values(|s: String| s@)),
{
    let ghost all = ids@.map_values(|s: String| s@);
    let mut out: Vec<String> = Vec::new();
    let mut i: usize = 0;
    while i < ids.len()
        invariant
            all == ids@.map_values(|s: String| s@),
            i <= ids@.len(),
            out@.map_values(|s: String| s@) == selectable(all.take(i as int)),
        decreases ids@.len() - i,
    {
        proof {
            assert(all.take(i + 1).drop_last() =~= all.take(i as int));
            assert(all.take(i + 1).last() == ids@[i as int]@);
        }
        if !is_direct_profile(ids[i].as_str()) {
            let ghost before = out@;
            out.push(ids[i].clone());
            proof {
                assert(out@.map_values(|s: String| s@) =~= before.map_values(|s: String| s@).push(
                    ids@[i as int]@,
                ));
            }
        }
        i = i + 1;
    }
    proof {
        assert(all.take(i as int) =~= all);
    }
    out
}

/// The kinds of credential a provider accepts.
#[derive(Clone, Copy, Debug, PartialEq, Eq, Structural)]
pub enum AuthKind {
    ApiToken,
    OAuth,
}

/// How an application presents an authentication method.
#[derive(Clone, Copy, Debug, PartialEq, Eq, Structural)]
pub enum AuthenticationMethodKind {
    ApiKey,
    OAuth,
}

/// One way to authenticate with one provider.
#[derive(Clone, Debug, PartialEq, Eq)]
pub struct AuthenticationMethod {
    pub id: String,
    pub name: String,
    pub description: Option<String>,
    pub kind: AuthenticationMethodKind,
}

pub open spec fn method_suffix(kind: AuthKind) -> Seq<char> {
    match kind {
        AuthKind::ApiToken => "api-key"@,
        AuthKind::OAuth => "oauth"@,
    }
}

pub open spec fn method_label(kind: AuthKind) -> Seq<char> {
    match kind {
        AuthKind::ApiToken => "API key"@,
        AuthKind::OAuth => "OAuth"@,
    }
}

pub open spec fn method_kind(kind: AuthKind) -> AuthenticationMethodKind {
    match kind {
        AuthKind::ApiToken => AuthenticationMethodKind::ApiKey,
        AuthKind::OAuth => AuthenticationMethodKind::OAuth,
    }
}

/// The method of a provider for a credential kind: `provider:suffix`, named
/// `provider label`, described as `Authenticate provider using label`.
pub open spec fn method_matches(m: AuthenticationMethod, provider: Seq<char>, kind: AuthKind) -> bool {
    &&& m.id@ == provider + ":"@ + method_suffix(kind)
    &&& m.name@ == provider + " "@ + method_label(kind)
    &&& m.description matches Some(d) && d@ == "Authenticate "@ + provider + " using "@ + method_label(
        kind,
    )
    &&& m.kind == method_kind(kind)
}

/// The (provider, kind) pairs in order: each provider's kinds in turn.
pub open spec fn method_pairs(providers: Seq<(String, Vec<AuthKind>)>) -> Seq<(Seq<char>, AuthKind)>
    decreases providers.len(),
{
    if providers.len() == 0 {
        Seq::empty()
    } else {
        let last = providers.last();
        method_pairs(providers.drop_last()) + last.1@.map_values(|k: AuthKind| (last.0@, k))
    }
}

fn method_for(provider: &str, kind: AuthKind) -> (m: AuthenticationMethod)
    ensures
        method_matches(m, provider@, kind),
{
    let (suffix, label, method) = match kind {
        AuthKind::ApiToken => ("api-key", "API key", AuthenticationMethodKind::ApiKey),
        AuthKind::OAuth => ("oauth", "OAuth", AuthenticationMethodKind::OAuth),
    };
    let mut id = String::from_str(provider);
    id.append(":");
    id.append(suffix);
    let mut name = String::from_str(provider);
    name.append(" ");
    name.append(label);
    let mut description = String::from_str("Authenticate ");
    description.append(provider);
    description.append(" using ");
    description.append(label);
    AuthenticationMethod { id, name, description: Some(description), kind: method }
}

/// The authentication methods of the providers, each provider's in the
/// order of its credential kinds.
pub fn authentication_methods(providers: &Vec<(String, Vec<AuthKind>)>) -> (r: Vec<AuthenticationMethod>)
    ensures
        r@.len() == method_pairs(providers@).len(),
        forall|i: int| 0 <= i < r@.len() ==> method_matches(
            #[trigger] r@[i],
            method_pairs(providers@)[i].0,
            method_pairs(providers@)[i].1,
        ),
{
    let mut out: Vec<AuthenticationMethod> = Vec::new();
    let mut p: usize = 0;
    while p < providers.len()
        invariant
            p <= providers@.len(),
            out@.len() == method_pairs(providers@.take(p as int)).len(),
            forall|i: int| 0 <= i < out@.len() ==> method_matches(
                #[trigger] out@[i],
                method_pairs(providers@.take(p as int))[i].0,
                method_pairs(providers@.take(p as int))[i].1,
            ),
        decreases providers@.len() - p,
    {
        let (provider, kinds) = &providers[p];
        let ghost before = out@;
        let ghost prev = method_pairs(providers@.take(p as int));
        let ghost added = kinds@.map_values(|k: AuthKind| (provider@, k));
        proof {
            assert(providers@.take(p + 1).drop_last() =~= providers@.take(p as int));
            assert(providers@.take(p + 1).last() == providers@[p as int]);
        }
        let mut k: usize = 0;
        while k < kinds.len()
            invariant
                k <= kinds@.len(),
                out@.len() == before.len() + k,
                before.len() == prev.len(),
                forall|i: int| 0 <= i < before.len() ==> out@[i] == before[i],
                forall|i: int| 0 <= i < before.len() ==> method_matches(
                    #[trigger] before[i],
                    prev[i].0,
                    prev[i].1,
                ),
                forall|i: int| 0 <= i < k ==> method_matches(
                    #[trigger] out@[before.len() + i],
                    provider@,
                    kinds@[i],
                ),
            decreases kinds@.len() - k,
        {
            out.push(method_for(provider.as_str(), kinds[k]));
            k = k + 1;
        }
        proof {
            let next = method_pairs(providers@.take(p + 1));
            assert(next =~= prev + added);
            assert forall|i: int| 0 <= i < out@.len() implies method_matches(
                #[trigger] out@[i],
                next[i].0,
                next[i].1,
            ) by {
                if i < before.len() {
                    assert(out@[i] == before[i]);
                } else {
                    assert(next[i] == added[i - before.len()]);
                    assert(method_matches(out@[before.len() + (i - before.len())], provider@, kinds@[i - before.len()]));
                }
            }
        }
        p = p + 1;
    }
    proof {
        assert(providers@.take(p as int) =~= providers@);
    }
    out
}

/// What an authentication request asks for.
#[derive(Clone, Debug, PartialEq, Eq)]
pub enum AuthenticationRequest {
    /// Add an API token to the provider's credentials.
    AddApiToken { provider: String, secret: String },
}

/// Why an authentication request was refused.
#[derive(Clone, Debug, PartialEq, Eq)]
pub enum AuthenticationError {
    MalformedMethodId,
    MissingSecret,
    EmptySecret,
    OAuthUnavailable { provider: String },
    UnknownMethod { method: String },
}

/// The position of the last `:` in a text, if any.
pub open spec fn last_colon(s: Seq<char>) -> Option<int> {
    if exists|i: int| 0 <= i < s.len() && s[i] == ':' {
        Some(choose|i: int| 0 <= i < s.len() && s[i] == ':' && forall|j: int| i < j < s.len() ==> s[j] != ':')
    } else {
        None
    }
}

fn find_last_colon(s: &str) -> (r: Option<usize>)
    ensures
        match r {
            Some(i) => i < s@.len() && s@[i as int] == ':' && forall|j: int| i < j < s@.len() ==> s@[j] != ':',
            None => forall|j: int| 0 <= j < s@.len() ==> s@[j] != ':',
        },
{
    let n = s.unicode_len();
    let mut i: usize = n;
    while i > 0
        invariant
            i <= n,
            n == s@.len(),
            forall|j: int| i <= j < n ==> s@[j] != ':',
        decreases i,
    {
        if s.get_char(i - 1) == ':' {
            return Some(i - 1);
        }
        i = i - 1;
    }
    None
}

proof fn lemma_last_colon(s: Seq<char>, i: int)
    requires
        0 <= i < s.len(),
        s[i] == ':',
        forall|j: int| i < j < s.len() ==> s[j] != ':',
    ensures
        last_colon(s) == Some(i),
{
    let k = choose|k: int| 0 <= k < s.len() && s[k] == ':' && forall|j: int| k < j < s.len() ==> s[j] != ':';
    assert(0 <= i < s.len() && s[i] == ':' && forall|j: int| i < j < s.len() ==> s[j] != ':');
    if k < i {
        assert(s[i] != ':');
    } else if k > i {
        assert(s[k] != ':');
    }
}

fn same_text(s: &str, lit: &str) -> (r: bool)
    ensures
        r == (s@ == lit@),
{
    let n = s.unicode_len();
    if n != lit.unicode_len() {
        return false;
    }
    let mut i: usize = 0;
    while i < n
        invariant
            n == s@.len(),
            n == lit@.len(),
            i <= n,
            forall|j: int| 0 <= j < i ==> s@[j] == lit@[j],
        decreases n - i,
    {
        if s.get_char(i) != lit.get_char(i) {
            return false;
        }
        i = i + 1;
    }
    assert(s@ =~= lit@);
    true
}

/// Reads an authentication request: the method id is `provider:method`,
/// split at its last `:`; an API key needs a secret that is not blank, and
/// OAuth has no interactive flow here. The provider is returned as written.
pub fn authentication_request(method_id: &str, secret: Option<String>) -> (r: Result<
    AuthenticationRequest,
    AuthenticationError,
>)
    ensures
        last_colon(method_id@) is None ==> r == Err::<AuthenticationRequest, _>(
            AuthenticationError::MalformedMethodId,
        ),
        last_colon(method_id@) matches Some(c) ==> {
            let provider = method_id@.take(c);
            let method = method_id@.skip(c + 1);
            if method == "api-key"@ {
                match secret {
                    None => r == Err::<AuthenticationRequest, _>(AuthenticationError::MissingSecret),
                    Some(s) => if is_blank(s@) {
                        r == Err::<AuthenticationRequest, _>(AuthenticationError::EmptySecret)
                    } else {
                        r matches Ok(AuthenticationRequest::AddApiToken { provider: p, secret: t }) && p@
                            == provider && t == s
                    },
                }
            } else if method == "oauth"@ {
                r matches Err(AuthenticationError::OAuthUnavailable { provider: p }) && p@ == provider
            } else {
                r matches Err(AuthenticationError::UnknownMethod { method: m }) && m@ == method
            }
        },
{
    let n = method_id.unicode_len();
    let c = match find_last_colon(method_id) {
        None => {
            return Err(AuthenticationError::MalformedMethodId);
        },
        Some(c) => c,
    };
    proof {
        lemma_last_colon(method_id@, c as int);
    }
    let provider = method_id.substring_char(0, c);
    let method = method_id.substring_char(c + 1, n);
    assert(method@ =~= method_id@.skip(c + 1));
    if same_text(method, "api-key") {
        match secret {
            None => Err(AuthenticationError::MissingSecret),
            Some(s) => {
                if is_blank_str(s.as_str()) {
                    Err(AuthenticationError::EmptySecret)
                } else {
                    Ok(AuthenticationRequest::AddApiToken { provider: provider.to_string(), secret: s })
                }
            },
        }
    } else if same_text(method, "oauth") {
        Err(AuthenticationError::OAuthUnavailable { provider: provider.to_string() })
    } else {
        Err(AuthenticationError::UnknownMethod { method: method.to_string() })
    }
}

// ---------------------------------------------------------------------------
// Models and routing profiles a session can pick
// ---------------------------------------------------------------------------

/// A model target: the provider, the model, and the target's options in
/// their canonical encoding.
#[derive(Clone, Debug, PartialEq, Eq)]
pub struct ModelTarget {
    pub provider_plugin: String,
    pub model: String,
    pub options: String,
}

/// A routing profile: where its requests go by default, then on fallback,
/// and for particular callables.
#[derive(Clone, Debug, PartialEq, Eq)]
pub struct RoutingProfile {
    pub id: String,
    pub default_target: ModelTarget,
    pub fallback_targets: Vec<ModelTarget>,
    pub callable_targets: TextMap<ModelTarget>,
}

/// A model as an application lists it.
#[derive(Clone, Debug, PartialEq, Eq)]
pub struct ModelInfo {
    pub id: String,
    pub name: String,
    pub description: Option<String>,
}

/// Why a model or routing selection was refused.
#[derive(Clone, Debug, PartialEq, Eq)]
pub enum SelectionError {
    AmbiguousModel { model: String, existing_provider: String, provider: String },
    UnknownModel { model: String },
    DirectProfileConflict { profile_id: String },
    DirectProfileNotSelectable,
    UnknownProfile { profile_id: String },
}

pub open spec fn target_view(t: ModelTarget) -> (Seq<char>, Seq<char>, Seq<char>) {
    (t.provider_plugin@, t.model@, t.options@)
}

pub open spec fn is_direct(id: Seq<char>) -> bool {
    DIRECT_PROFILE_PREFIX@.len() <= id.len() && id.take(DIRECT_PROFILE_PREFIX@.len() as int)
        == DIRECT_PROFILE_PREFIX@
}

/// Adds one candidate target to the targets by model: a model may resolve to
/// one target only.
pub open spec fn merge_target(m: Map<Seq<char>, ModelTarget>, t: ModelTarget) -> Result<
    Map<Seq<char>, ModelTarget>,
    SelectionError,
> {
    if !m.contains_key(t.model@) {
        Ok(m.insert(t.model@, t))
    } else if target_view(m[t.model@]) == target_view(t) {
        Ok(m)
    } else {
        Err(
            SelectionError::AmbiguousModel {
                model: t.model,
                existing_provider: m[t.model@].provider_plugin,
                provider: t.provider_plugin,
            },
        )
    }
}

/// The candidate targets of the profiles merged in order.
pub open spec fn merge_targets(m: Map<Seq<char>, ModelTarget>, ts: Seq<ModelTarget>) -> Result<
    Map<Seq<char>, ModelTarget>,
    SelectionError,
>
    decreases ts.len(),
{
    if ts.len() == 0 {
        Ok(m)
    } else {
        match merge_targets(m, ts.drop_last()) {
            Err(e) => Err(e),
            Ok(m2) => merge_target(m2, ts.last()),
        }
    }
}

/// The models of the routing profiles that are not direct ones, each with
/// its one target.
pub open spec fn targets_of(profiles: Seq<(String, Vec<ModelTarget>)>) -> Result<
    Map<Seq<char>, ModelTarget>,
    SelectionError,
>
    decreases profiles.len(),
{
    if profiles.len() == 0 {
        Ok(Map::empty())
    } else {
        match targets_of(profiles.drop_last()) {
            Err(e) => Err(e),
            Ok(m) => if is_direct(profiles.last().0@) {
                Ok(m)
            } else {
                merge_targets(m, profiles.last().1@)
            },
        }
    }
}

fn clone_target(t: &ModelTarget) -> (r: ModelTarget)
    ensures
        r == *t,
{
    ModelTarget { provider_plugin: t.provider_plugin.clone(), model: t.model.clone(), options: t.options.clone() }
}

proof fn lemma_merge_error_stays(m: Map<Seq<char>, ModelTarget>, ts: Seq<ModelTarget>, j: int, k: int)
    requires
        0 <= j <= k <= ts.len(),
        merge_targets(m, ts.take(j)) is Err,
    ensures
        merge_targets(m, ts.take(k)) == merge_targets(m, ts.take(j)),
    decreases k - j,
{
    if k > j {
        lemma_merge_error_stays(m, ts, j, k - 1);
        assert(ts.take(k).drop_last() =~= ts.take(k - 1));
    }
}

fn merge_candidates(targets: &mut TextMap<ModelTarget>, candidates: &Vec<ModelTarget>) -> (r: Result<
    (),
    SelectionError,
>)
    requires
        old(targets).wf(),
    ensures
        final(targets).wf(),
        match merge_targets(old(targets)@, candidates@) {
            Ok(m) => r is Ok && final(targets)@ == m,
            Err(e) => r == Err::<(), SelectionError>(e),
        },
{
    let ghost start = targets@;
    let mut i: usize = 0;
    while i < candidates.len()
        invariant
            targets.wf(),
            i <= candidates@.len(),
            start == old(targets)@,
            merge_targets(start, candidates@.take(i as int)) == Ok::<_, SelectionError>(targets@),
        decreases candidates@.len() - i,
    {
        let t = &candidates[i];
        proof {
            assert(candidates@.take(i + 1).drop_last() =~= candidates@.take(i as int));
            assert(candidates@.take(i + 1).last() == *t);
        }
        match targets.get(&t.model) {
            None => {
                targets.insert(t.model.clone(), clone_target(t));
            },
            Some(existing) => {
                if !(existing.provider_plugin == t.provider_plugin && existing.model == t.model
                    && existing.options == t.options) {
                    let e = SelectionError::AmbiguousModel {
                        model: t.model.clone(),
                        existing_provider: existing.provider_plugin.clone(),
                        provider: t.provider_plugin.clone(),
                    };
                    proof {
                        lemma_merge_error_stays(start, candidates@, i + 1, candidates@.len() as int);
                        assert(candidates@.take(candidates@.len() as int) =~= candidates@);
                    }
                    return Err(e);
                }
            },
        }
        i = i + 1;
    }
    proof {
        assert(candidates@.take(i as int) =~= candidates@);
    }
    Ok(())
}

/// The target of every model that the routing profiles offer, from each
/// profile's candidates (`profiles` pairs a profile's identity with them);
/// direct profiles are passed over. A model that resolves to two different
/// targets is refused.
pub fn model_targets(profiles: &Vec<(String, Vec<ModelTarget>)>) -> (r: Result<
    TextMap<ModelTarget>,
    SelectionError,
>)
    ensures
        match targets_of(profiles@) {
            Ok(m) => r matches Ok(t) && t.wf() && t@ == m,
            Err(e) => r == Err::<TextMap<ModelTarget>, SelectionError>(e),
        },
{
    let mut targets: TextMap<ModelTarget> = TextMap::new();
    let mut i: usize = 0;
    while i < profiles.len()
        invariant
            targets.wf(),
            i <= profiles@.len(),
            targets_of(profiles@.take(i as int)) == Ok::<_, SelectionError>(targets@),
        decreases profiles@.len() - i,
    {
        let (id, candidates) = &profiles[i];
        proof {
            assert(profiles@.take(i + 1).drop_last() =~= profiles@.take(i as int));
            assert(profiles@.take(i + 1).last() == profiles@[i as int]);
        }
        if !is_direct_profile(id.as_str()) {
            let merged = merge_candidates(&mut targets, candidates);
            if let Err(e) = merged {
                proof {
                    lemma_targets_error_stays(profiles@, i + 1, profiles@.len() as int);
                    assert(profiles@.take(profiles@.len() as int) =~= profiles@);
                }
                return Err(e);
            }
        }
        i = i + 1;
    }
    proof {
        assert(profiles@.take(i as int) =~= profiles@);
    }
    Ok(targets)
}

proof fn lemma_targets_error_stays(ps: Seq<(String, Vec<ModelTarget>)>, j: int, k: int)
    requires
        0 <= j <= k <= ps.len(),
        targets_of(ps.take(j)) is Err,
    ensures
        targets_of(ps.take(k)) == targets_of(ps.take(j)),
    decreases k - j,
{
    if k > j {
        lemma_targets_error_stays(ps, j, k - 1);
        assert(ps.take(k).drop_last() =~= ps.take(k - 1));
    }
}

/// How a model is listed: by its identity, named `provider/model`, and
/// described by its provider.
pub open spec fn listed_as(info: ModelInfo, t: ModelTarget) -> bool {
    &&& info.id@ == t.model@
    &&& info.name@ == t.provider_plugin@ + "/"@ + t.model@
    &&& info.description matches Some(d) && d@ == "Provider "@ + t.provider_plugin@
}

/// The models a session can pick, in order of their identities.
pub fn model_infos(targets: &TextMap<ModelTarget>) -> (r: Vec<ModelInfo>)
    ensures
        r@.len() == targets.entry_seq().len(),
        forall|i: int| 0 <= i < r@.len() ==> listed_as(#[trigger] r@[i], targets.entry_seq()[i].1),
{
    let mut out: Vec<ModelInfo> = Vec::new();
    let mut i: usize = 0;
    while i < targets.len()
        invariant
            i <= targets.entry_seq().len(),
            out@.len() == i,
            forall|j: int| 0 <= j < i ==> listed_as(#[trigger] out@[j], targets.entry_seq()[j].1),
        decreases targets.entry_seq().len() - i,
    {
        let (_, t) = targets.entry(i);
        let mut name = t.provider_plugin.clone();
        name.append("/");
        name.append(t.model.as_str());
        let mut description = String::from_str("Provider ");
        description.append(t.provider_plugin.as_str());
        out.push(ModelInfo { id: t.model.clone(), name, description: Some(description) });
        i = i + 1;
    }
    out
}

/// The model a session has picked: the default model of its selected
/// profile when that profile is a direct one. `profile` is the selected
/// profile as routing knows it, if it does.
pub fn selected_model(selected: &Option<String>, profile: Option<&RoutingProfile>) -> (r: Option<String>)
    ensures
        match (selected, profile) {
            (Some(s), Some(p)) => if is_direct(s@) {
                r == Some(p.default_target.model)
            } else {
                r is None
            },
            _ => r is None,
        },
{
    match (selected, profile) {
        (Some(s), Some(p)) => {
            if is_direct_profile(s.as_str()) {
                Some(p.default_target.model.clone())
            } else {
                None
            }
        },
        _ => None,
    }
}

/// The direct profile that selecting a model registers: it routes every
/// request to the model's one target.
pub fn direct_model_profile(targets: &TextMap<ModelTarget>, model_id: &String) -> (r: Result<
    RoutingProfile,
    SelectionError,
>)
    requires
        targets.wf(),
    ensures
        !targets@.contains_key(model_id@) ==> r == Err::<RoutingProfile, _>(
            SelectionError::UnknownModel { model: *model_id },
        ),
        targets@.contains_key(model_id@) ==> (r matches Ok(p) && {
            let t = targets@[model_id@];
            &&& p.id@ == direct_profile_id_spec(t.provider_plugin@, t.model@)
            &&& p.default_target == t
            &&& only_default(p)
            &&& p.callable_targets.wf()
            &&& p.callable_targets@ == Map::<Seq<char>, ModelTarget>::empty()
        }),
{
    match targets.get(model_id) {
        None => Err(SelectionError::UnknownModel { model: model_id.clone() }),
        Some(t) => Ok(
            RoutingProfile {
                id: direct_profile_id(t.provider_plugin.as_str(), t.model.as_str()),
                default_target: clone_target(t),
                fallback_targets: Vec::new(),
                callable_targets: TextMap::new(),
            },
        ),
    }
}

/// Whether a profile routes every request to its default target alone.
pub open spec fn only_default(p: RoutingProfile) -> bool {
    p.fallback_targets@.len() == 0 && p.callable_targets.entry_seq().len() == 0
}

/// Whether a recorded profile is the direct profile `p` that is about to be registered.
pub open spec fn same_direct_profile(existing: RoutingProfile, p: RoutingProfile) -> bool {
    &&& existing.id@ == p.id@
    &&& target_view(existing.default_target) == target_view(p.default_target)
    &&& only_default(existing)
}

/// Whether a direct profile must be registered: not if routing already
/// records the same profile; a different profile under its identity is
/// refused. `profile` routes to its default target alone.
pub fn direct_profile_registration(profile: &RoutingProfile, existing: Option<&RoutingProfile>) -> (r: Result<
    bool,
    SelectionError,
>)
    requires
        only_default(*profile),
    ensures
        match existing {
            None => r == Ok::<bool, SelectionError>(true),
            Some(e) => if same_direct_profile(*e, *profile) {
                r == Ok::<bool, SelectionError>(false)
            } else {
                r == Err::<bool, _>(SelectionError::DirectProfileConflict { profile_id: profile.id })
            },
        },
{
    match existing {
        None => Ok(true),
        Some(e) => {
            let same = e.id == profile.id && e.default_target.provider_plugin
                == profile.default_target.provider_plugin && e.default_target.model
                == profile.default_target.model && e.default_target.options
                == profile.default_target.options && e.fallback_targets.len() == 0
                && e.callable_targets.len() == 0;
            if same {
                Ok(false)
            } else {
                Err(SelectionError::DirectProfileConflict { profile_id: profile.id.clone() })
            }
        },
    }
}

/// A routing profile picked by name must exist and not be a direct one;
/// `known` says whether routing knows it.
pub fn check_routing_selection(profile_id: &String, known: bool) -> (r: Result<(), SelectionError>)
    ensures
        is_direct(profile_id@) ==> r == Err::<(), _>(SelectionError::DirectProfileNotSelectable),
        !is_direct(profile_id@) && !known ==> r == Err::<(), _>(
            SelectionError::UnknownProfile { profile_id: *profile_id },
        ),
        !is_direct(profile_id@) && known ==> r is Ok,
{
    if is_direct_profile(profile_id.as_str()) {
        return Err(SelectionError::DirectProfileNotSelectable);
    }
    if !known {
        return Err(SelectionError::UnknownProfile { profile_id: profile_id.clone() });
    }
    Ok(())
}

/// The routing profile a session shows as selected: its selected profile,
/// if that is one of the profiles it can pick.
pub fn selected_routing(available: &Vec<String>, selected: Option<String>) -> (r: Option<String>)
    ensures
        match selected {
            Some(s) => if exists|i: int| 0 <= i < available@.len() && (#[trigger] available@[i])@ == s@ {
                r == Some(s)
            } else {
                r is None
            },
            None => r is None,
        },
{
    match selected {
        None => None,
        Some(s) => {
            let mut i: usize = 0;
            let mut found = false;
            while i < available.len() && !found
                invariant
                    i <= available@.len(),
                    found ==> 0 < i && available@[i - 1]@ == s@,
                    !found ==> forall|j: int| 0 <= j < i ==> (#[trigger] available@[j])@ != s@,
                decreases available@.len() - i,
            {
                if available[i] == s {
                    found = true;
                }
                i = i + 1;
            }
            if found {
                proof {
                    let w = i - 1;
                    assert(0 <= w < available@.len() && (#[trigger] available@[w])@ == s@);
                }
                Some(s)
            } else {
                None
            }
        },
    }
}

} // verus!
