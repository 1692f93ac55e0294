//! Invocation defaults: the usage, intent and routing policy an invocation
//! runs under, for ordinary and helper invocations, and the bounded query a
//! context recovery asks for.
use crate::identity::{trim_white_space, trimmed};
use crate::text::{decimal, numbered};
use crate::text_map::TextMap;
use vstd::prelude::*;
use vstd::string::StringSliceAdditionalSpecFns;
use vstd::utf8::{encode_utf8, is_char_boundary};

verus! {

pub const INVOCATION_DEFAULTS_PLUGIN: &'static str = "phenix.harness.invocation-defaults";

pub const INVOCATION_DEFAULTS_COMPONENT: &'static str = "phenix.harness.invocation-defaults";

/// The option that names the default routing profile.
pub const ROUTING_PROFILE_OPTION: &'static str = "model.default";

pub const DEFAULT_POLICY_REVISION: &'static str = "harness.usage.default.v1";

pub const HELPER_POLICY_REVISION: &'static str = "harness.usage.helper.v1";

pub const DEFAULT_ROUTE_POLICY_REVISION: &'static str = "harness.routing.default.v1";

pub const HELPER_ROUTE_POLICY_REVISION: &'static str = "harness.routing.helper.v1";

/// `r` is the longest prefix of `value` that ends on a character boundary
/// and holds at most `max_bytes` bytes of UTF-8.
pub open spec fn utf8_bounded(value: Seq<char>, max_bytes: int, r: Seq<char>) -> bool {
    let bytes = encode_utf8(value);
    if bytes.len() <= max_bytes {
        r == value
    } else {
        exists|end: int|
            0 <= end <= max_bytes && is_char_boundary(bytes, end) && (forall|e: int|
                end < e <= max_bytes ==> !is_char_boundary(bytes, e)) && r.len() <= value.len()
                && encode_utf8(r) == bytes.subrange(0, end)
    }
}

/// The longest prefix of `value` that ends on a character boundary and
/// holds at most `max_bytes` bytes.
pub fn bounded_utf8(value: &str, max_bytes: usize) -> (r: String)
    requires
        value.spec_bytes().len() <= usize::MAX,
    ensures
        utf8_bounded(value@, max_bytes as int, r@),
{
    if value.len() <= max_bytes {
        return value.to_string();
    }
    proof {
        vstd::utf8::encode_utf8_valid_utf8(value@);
        vstd::utf8::is_char_boundary_start_end_of_seq(value.spec_bytes());
    }
    let mut end = max_bytes;
    while !value.is_char_boundary(end)
        invariant
            end <= max_bytes,
            max_bytes < value.spec_bytes().len(),
            is_char_boundary(value.spec_bytes(), 0),
            forall|e: int| end < e <= max_bytes ==> !is_char_boundary(value.spec_bytes(), e),
        decreases end,
    {
        end = end - 1;
    }
    let (head, _) = value.split_at(end);
    proof {
        vstd::utf8::encode_utf8_decode_utf8(head@);
        vstd::utf8::encode_utf8_decode_utf8(value@);
        vstd::utf8::decode_utf8_split(value.spec_bytes(), end as int);
        assert(head@ == vstd::utf8::decode_utf8(value.spec_bytes().subrange(0, end as int)));
    }
    head.to_string()
}

/// The usage limits an invocation runs under.
#[derive(Clone, Debug, PartialEq, Eq)]
pub struct UsagePolicy {
    pub revision: String,
    pub max_fresh_input_tokens: u64,
    pub max_output_tokens: u64,
    pub max_cost_microunits: Option<u64>,
    pub max_retries: u32,
    pub max_tool_result_bytes: u64,
    pub max_tool_schemas: u32,
    pub max_skills: u32,
    pub require_known_capacity: bool,
}

/// What an invocation asks of a route: room for output and the tools it may use.
pub struct InvocationIntent {
    pub output_reserve_tokens: u64,
    pub optional_tools: TextMap<()>,
    pub deadline_at_ms: Option<u64>,
}

/// How routes are chosen.
#[derive(Clone, Debug, PartialEq, Eq)]
pub struct RouteSelectionPolicy {
    pub revision: String,
    pub ignore_estimates: bool,
    pub max_candidate_attempts: u32,
}

/// The parameters an invocation runs with.
pub struct InvocationParams {
    pub profile_id: String,
    pub policy: UsagePolicy,
    pub intent: InvocationIntent,
    pub route_policy: RouteSelectionPolicy,
}

/// The identities of a list of tools, as a set.
pub open spec fn tool_set(tools: Seq<String>) -> Set<Seq<char>> {
    Set::new(|x: Seq<char>| exists|i: int| 0 <= i < tools.len() && (#[trigger] tools[i])@ == x)
}

/// The parameters of an invocation under `profile_id`: the fixed limits,
/// the given revisions and retries, and every offered tool as an optional tool.
pub open spec fn params_shape(
    r: InvocationParams,
    profile_id: String,
    tool_ids: Seq<String>,
    policy_revision: Seq<char>,
    route_policy_revision: Seq<char>,
    max_retries: u32,
) -> bool {
    &&& r.profile_id == profile_id
    &&& r.policy == (UsagePolicy {
        revision: r.policy.revision,
        max_fresh_input_tokens: 131072,
        max_output_tokens: 16384,
        max_cost_microunits: None,
        max_retries,
        max_tool_result_bytes: 1048576,
        max_tool_schemas: 128,
        max_skills: 64,
        require_known_capacity: false,
    })
    &&& r.policy.revision@ == policy_revision
    &&& r.intent.output_reserve_tokens == 8192
    &&& r.intent.deadline_at_ms is None
    &&& r.intent.optional_tools.wf()
    &&& r.intent.optional_tools@.dom() == tool_set(tool_ids)
    &&& r.route_policy.revision@ == route_policy_revision
    &&& r.route_policy.ignore_estimates
    &&& r.route_policy.max_candidate_attempts == 8
}

/// The parameters of an invocation: fixed limits, the given revisions and
/// retries, and every offered tool as an optional tool.
pub fn invocation_params(
    profile_id: String,
    tool_ids: &Vec<String>,
    policy_revision: &str,
    route_policy_revision: &str,
    max_retries: u32,
) -> (r: InvocationParams)
    ensures
        params_shape(r, profile_id, tool_ids@, policy_revision@, route_policy_revision@, max_retries),
{
    let mut tools: TextMap<()> = TextMap::new();
    let mut i: usize = 0;
    while i < tool_ids.len()
        invariant
            i <= tool_ids@.len(),
            tools.wf(),
            tools@.dom() == tool_set(tool_ids@.take(i as int)),
        decreases tool_ids@.len() - i,
    {
        let id = tool_ids[i].clone();
        tools.insert(id, ());
        proof {
            let before = tool_ids@.take(i as int);
            let after = tool_ids@.take(i + 1);
            assert forall|x: Seq<char>| tool_set(after).contains(x) == tool_set(before).insert(tool_ids@[i as int]@).contains(x) by {
                if tool_set(after).contains(x) {
                    let j = choose|j: int| 0 <= j < after.len() && (#[trigger] after[j])@ == x;
                    if j < i {
                        assert(before[j]@ == x);
                    }
                }
                if tool_set(before).contains(x) {
                    let j = choose|j: int| 0 <= j < before.len() && (#[trigger] before[j])@ == x;
                    assert(after[j]@ == x);
                }
                if x == tool_ids@[i as int]@ {
                    assert(after[i as int]@ == x);
                }
            }
            assert(tools@.dom() =~= tool_set(after));
        }
        i = i + 1;
    }
    proof {
        assert(tool_ids@.take(i as int) =~= tool_ids@);
    }
    InvocationParams {
        profile_id,
        policy: UsagePolicy {
            revision: String::from_str(policy_revision),
            max_fresh_input_tokens: 131072,
            max_output_tokens: 16384,
            max_cost_microunits: None,
            max_retries,
            max_tool_result_bytes: 1048576,
            max_tool_schemas: 128,
            max_skills: 64,
            require_known_capacity: false,
        },
        intent: InvocationIntent { output_reserve_tokens: 8192, optional_tools: tools, deadline_at_ms: None },
        route_policy: RouteSelectionPolicy {
            revision: String::from_str(route_policy_revision),
            ignore_estimates: true,
            max_candidate_attempts: 8,
        },
    }
}

/// Why defaults could not be resolved.
#[derive(Clone, Debug, PartialEq, Eq)]
pub enum InvocationDefaultsError {
    ProfileNotAString,
}

/// The defaults of an ordinary invocation: the routing profile the
/// `model.default` option names (`option_text`, the option's value when it
/// is text), the default policies, and one retry.
pub fn resolve_defaults(option_text: Option<String>, tool_ids: &Vec<String>) -> (r: Result<
    InvocationParams,
    InvocationDefaultsError,
>)
    ensures
        option_text is None ==> r matches Err(InvocationDefaultsError::ProfileNotAString),
        option_text matches Some(p) ==> (r matches Ok(params) && params_shape(
            params,
            p,
            tool_ids@,
            DEFAULT_POLICY_REVISION@,
            DEFAULT_ROUTE_POLICY_REVISION@,
            1,
        )),
{
    match option_text {
        None => Err(InvocationDefaultsError::ProfileNotAString),
        Some(profile) => Ok(
            invocation_params(
                profile,
                tool_ids,
                DEFAULT_POLICY_REVISION,
                DEFAULT_ROUTE_POLICY_REVISION,
                1,
            ),
        ),
    }
}

/// The defaults of a helper invocation: its pinned profile, the helper
/// policies, and no retries.
pub fn resolve_helper_defaults(profile_id: String, tool_ids: &Vec<String>) -> (r: InvocationParams)
    ensures
        params_shape(
            r,
            profile_id,
            tool_ids@,
            HELPER_POLICY_REVISION@,
            HELPER_ROUTE_POLICY_REVISION@,
            0,
        ),
{
    invocation_params(profile_id, tool_ids, HELPER_POLICY_REVISION, HELPER_ROUTE_POLICY_REVISION, 0)
}


// ---------------------------------------------------------------------------
// Context recovery assessment
// ---------------------------------------------------------------------------

/// UTF-8 encoding distributes over concatenation.
pub proof fn lemma_encode_utf8_concat(a: Seq<char>, b: Seq<char>)
    ensures
        encode_utf8(a + b) == encode_utf8(a) + encode_utf8(b),
    decreases a.len(),
{
    if a.len() == 0 {
        assert(a + b =~= b);
        assert(encode_utf8(a) + encode_utf8(b) =~= encode_utf8(b));
    } else {
        lemma_encode_utf8_concat(a.drop_first(), b);
        assert((a + b).drop_first() =~= a.drop_first() + b);
        assert((a + b)[0] == a[0]);
        let head = vstd::utf8::encode_scalar(a[0] as u32);
        assert(head + (encode_utf8(a.drop_first()) + encode_utf8(b)) =~= (head + encode_utf8(
            a.drop_first(),
        )) + encode_utf8(b));
    }
}

/// A piece of a text takes no more UTF-8 bytes than the text.
pub proof fn lemma_encode_utf8_subrange_len(s: Seq<char>, i: int, j: int)
    requires
        0 <= i <= j <= s.len(),
    ensures
        encode_utf8(s.subrange(i, j)).len() <= encode_utf8(s).len(),
{
    lemma_encode_utf8_concat(s.subrange(0, i), s.subrange(i, j));
    lemma_encode_utf8_concat(s.subrange(0, i) + s.subrange(i, j), s.subrange(j, s.len() as int));
    assert(s.subrange(0, i) + s.subrange(i, j) + s.subrange(j, s.len() as int) =~= s);
}

/// The bound of a text under a byte limit is one text.
pub proof fn lemma_utf8_bounded_unique(value: Seq<char>, max_bytes: int, r1: Seq<char>, r2: Seq<char>)
    requires
        utf8_bounded(value, max_bytes, r1),
        utf8_bounded(value, max_bytes, r2),
    ensures
        r1 == r2,
{
    let bytes = encode_utf8(value);
    if bytes.len() > max_bytes {
        let e1 = choose|end: int|
            0 <= end <= max_bytes && is_char_boundary(bytes, end) && (forall|e: int|
                end < e <= max_bytes ==> !is_char_boundary(bytes, e)) && r1.len() <= value.len()
                && encode_utf8(r1) == bytes.subrange(0, end);
        let e2 = choose|end: int|
            0 <= end <= max_bytes && is_char_boundary(bytes, end) && (forall|e: int|
                end < e <= max_bytes ==> !is_char_boundary(bytes, e)) && r2.len() <= value.len()
                && encode_utf8(r2) == bytes.subrange(0, end);
        assert(e1 == e2);
        vstd::utf8::encode_utf8_decode_utf8(r1);
        vstd::utf8::encode_utf8_decode_utf8(r2);
    }
}

/// The limits within which the current context is assessed.
#[derive(Clone, Copy, Debug, PartialEq, Eq)]
pub struct RecoveryClassifierLimits {
    pub max_prompt_bytes: u32,
    pub max_anchors: u32,
    pub max_need_query_bytes: u32,
}

/// What an assessment of the current context concluded: it suffices, or a
/// task-shaped need with the query to recover it by.
#[derive(Clone, Debug, PartialEq, Eq)]
pub enum ContextRecoveryDecision {
    Sufficient,
    MissingTask { query: String },
}

/// Why a recovery request could not be assessed.
#[derive(Clone, Copy, Debug, PartialEq, Eq, Structural)]
pub enum RecoveryAssessmentError {
    PromptTooLong { max_bytes: u32 },
    TooManyAnchors { max_anchors: u32 },
}

/// The text of a recovery assessment error.
pub open spec fn recovery_error_message(e: RecoveryAssessmentError) -> Seq<char> {
    match e {
        RecoveryAssessmentError::PromptTooLong { max_bytes } => "recovery prompt exceeds "@
            + decimal(max_bytes as nat) + " bytes"@,
        RecoveryAssessmentError::TooManyAnchors { max_anchors } => "recovery anchors exceed "@
            + decimal(max_anchors as nat) + " entries"@,
    }
}

impl RecoveryAssessmentError {
    pub fn message(&self) -> (r: String)
        ensures
            r@ == recovery_error_message(*self),
    {
        match self {
            RecoveryAssessmentError::PromptTooLong { max_bytes } => {
                let mut m = numbered("recovery prompt exceeds ", *max_bytes as u64);
                m.append(" bytes");
                m
            },
            RecoveryAssessmentError::TooManyAnchors { max_anchors } => {
                let mut m = numbered("recovery anchors exceed ", *max_anchors as u64);
                m.append(" entries");
                m
            },
        }
    }
}

/// The query a recovery of `prompt` would ask with: the prompt without its
/// surrounding white space, cut to the query limit.
pub open spec fn recovery_query(prompt: Seq<char>, max_query_bytes: int, q: Seq<char>) -> bool {
    utf8_bounded(trimmed(prompt), max_query_bytes, q)
}

/// Assesses whether the current context suffices for `prompt`.
/// `current_context_sufficient` is what the cold gate concluded of the
/// recovery state, and `anchor_count` the number of anchors it holds. An
/// oversized prompt or anchor list is refused; otherwise a sufficient
/// context, or a prompt that leaves no query, needs nothing, and any other
/// prompt asks for a task recovery by its trimmed, bounded text.
pub fn assess_recovery(
    prompt: &str,
    anchor_count: usize,
    current_context_sufficient: bool,
    limits: RecoveryClassifierLimits,
) -> (r: Result<ContextRecoveryDecision, RecoveryAssessmentError>)
    requires
        prompt.spec_bytes().len() <= usize::MAX,
    ensures
        prompt.spec_bytes().len() > limits.max_prompt_bytes ==> r == Err::<
            ContextRecoveryDecision,
            RecoveryAssessmentError,
        >(RecoveryAssessmentError::PromptTooLong { max_bytes: limits.max_prompt_bytes }),
        prompt.spec_bytes().len() <= limits.max_prompt_bytes && anchor_count > limits.max_anchors
            ==> r == Err::<ContextRecoveryDecision, RecoveryAssessmentError>(
            RecoveryAssessmentError::TooManyAnchors { max_anchors: limits.max_anchors },
        ),
        prompt.spec_bytes().len() <= limits.max_prompt_bytes && anchor_count <= limits.max_anchors
            && current_context_sufficient ==> r matches Ok(ContextRecoveryDecision::Sufficient),
        prompt.spec_bytes().len() <= limits.max_prompt_bytes && anchor_count <= limits.max_anchors
            && !current_context_sufficient ==> exists|q: Seq<char>|
            recovery_query(prompt@, limits.max_need_query_bytes as int, q) && (if q.len() == 0 {
                r matches Ok(ContextRecoveryDecision::Sufficient)
            } else {
                r matches Ok(ContextRecoveryDecision::MissingTask { query }) && query@ == q
            }),
{
    if prompt.len() > limits.max_prompt_bytes as usize {
        return Err(RecoveryAssessmentError::PromptTooLong { max_bytes: limits.max_prompt_bytes });
    }
    if anchor_count > limits.max_anchors as usize {
        return Err(RecoveryAssessmentError::TooManyAnchors { max_anchors: limits.max_anchors });
    }
    if current_context_sufficient {
        return Ok(ContextRecoveryDecision::Sufficient);
    }
    let trimmed_prompt = trim_white_space(prompt);
    proof {
        let (i, j) = choose|i: int, j: int|
            0 <= i <= j <= prompt@.len() && trimmed_prompt@ == prompt@.subrange(i, j);
        lemma_encode_utf8_subrange_len(prompt@, i, j);
    }
    let query = bounded_utf8(trimmed_prompt, limits.max_need_query_bytes as usize);
    if query.as_str().is_empty() {
        Ok(ContextRecoveryDecision::Sufficient)
    } else {
        Ok(ContextRecoveryDecision::MissingTask { query })
    }
}

} // verus!
