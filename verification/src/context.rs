//! Context resources and their projection into model invocations: content
//! revisions, storage keys, repository file kinds, the projection state of
//! an execution with its compaction protocol, and the byte framing of the
//! material a model sees.
use crate::identity::{is_blank, is_blank_str};
use crate::text_map::TextMap;
use sha2::Digest;
use vstd::prelude::*;
use vstd::string::StringSliceAdditionalSpecFns;

verus! {

// ---------------------------------------------------------------------------
// Content revisions
// ---------------------------------------------------------------------------

/// The SHA-256 digest of a byte string.
pub uninterp spec fn sha256(bytes: Seq<u8>) -> Seq<u8>;

/// Calls `sha2::Sha256::digest`: the digest of the content, 32 bytes long.
#[verifier::external_body]
pub(crate) fn sha256_digest(content: &[u8]) -> (r: Vec<u8>)
    ensures
        r@ == sha256(content@),
        r@.len() == 32,
{
    sha2::Sha256::digest(content).to_vec()
}

pub open spec fn hex_digit(d: u8) -> char {
    if d < 10 {
        (48u8 + d) as char
    } else {
        (97u8 + (d - 10)) as char
    }
}

/// Lower-case hexadecimal, two digits per byte.
pub open spec fn hex(bytes: Seq<u8>) -> Seq<char>
    decreases bytes.len(),
{
    if bytes.len() == 0 {
        Seq::empty()
    } else {
        hex(bytes.drop_last()) + seq![
            hex_digit(bytes.last() / 16),
            hex_digit(bytes.last() % 16),
        ]
    }
}

/// Whether a character is a lower-case hexadecimal digit.
pub open spec fn is_lower_hex(c: char) -> bool {
    ('0' <= c && c <= '9') || ('a' <= c && c <= 'f')
}

/// Hexadecimal text has two lower-case digits per byte.
pub proof fn lemma_hex_shape(bytes: Seq<u8>)
    ensures
        hex(bytes).len() == 2 * bytes.len(),
        forall|i: int| 0 <= i < hex(bytes).len() ==> is_lower_hex(#[trigger] hex(bytes)[i]),
    decreases bytes.len(),
{
    if bytes.len() > 0 {
        lemma_hex_shape(bytes.drop_last());
        let h = hex(bytes);
        let prev = hex(bytes.drop_last());
        assert forall|i: int| 0 <= i < h.len() implies is_lower_hex(#[trigger] h[i]) by {
            if i < prev.len() {
                assert(h[i] == prev[i]);
            } else {
                let d = if i == prev.len() { bytes.last() / 16 } else { bytes.last() % 16 };
                assert(d < 16);
                assert(h[i] == hex_digit(d));
                if d < 10 {
                    assert((48u8 + d) as char == hex_digit(d));
                } else {
                    assert((97u8 + (d - 10)) as char == hex_digit(d));
                }
            }
        }
    }
}

pub(crate) fn hex_text(d: u8) -> (r: &'static str)
    requires
        d < 16,
    ensures
        r@ == seq![hex_digit(d)],
{
    let table = "0123456789abcdef";
    proof {
        reveal_strlit("0123456789abcdef");
        assert(table@[d as int] == hex_digit(d)) by {
            if d < 8 {
                if d < 4 {
                    assert(d == 0 || d == 1 || d == 2 || d == 3);
                } else {
                    assert(d == 4 || d == 5 || d == 6 || d == 7);
                }
            } else if d < 12 {
                assert(d == 8 || d == 9 || d == 10 || d == 11);
            } else {
                assert(d == 12 || d == 13 || d == 14 || d == 15);
            }
        }
    }
    let r = table.substring_char(d as usize, d as usize + 1);
    assert(r@ =~= seq![hex_digit(d)]);
    r
}

/// The revision of a content: the lower-case hexadecimal SHA-256 digest.
pub open spec fn content_revision(content: Seq<u8>) -> Seq<char> {
    hex(sha256(content))
}

pub fn content_hash(content: &[u8]) -> (r: String)
    ensures
        r@ == content_revision(content@),
        r@.len() == 64,
        forall|i: int| 0 <= i < r@.len() ==> is_lower_hex(#[trigger] r@[i]),
{
    let digest = sha256_digest(content);
    let mut out = String::new();
    let mut i: usize = 0;
    while i < digest.len()
        invariant
            i <= digest@.len(),
            out@ == hex(digest@.take(i as int)),
        decreases digest@.len() - i,
    {
        let b = digest[i];
        out.append(hex_text(b / 16));
        out.append(hex_text(b % 16));
        proof {
            assert(digest@.take(i + 1).drop_last() =~= digest@.take(i as int));
        }
        i = i + 1;
    }
    proof {
        assert(digest@.take(i as int) =~= digest@);
        lemma_hex_shape(digest@);
    }
    out
}

/// A byte count as the service estimates tokens: one per byte, saturated.
pub fn conservative_token_estimate(content: &[u8]) -> (r: u64)
    ensures
        r == if content@.len() <= u64::MAX {
            content@.len() as u64
        } else {
            u64::MAX
        },
{
    let n = content.len();
    if n as u128 <= u64::MAX as u128 {
        n as u64
    } else {
        u64::MAX
    }
}

// ---------------------------------------------------------------------------
// Keys and paths
// ---------------------------------------------------------------------------

pub open spec fn resource_key_spec(resource_id: Seq<char>, revision: Seq<char>) -> Seq<char> {
    "resource/"@ + resource_id + "/"@ + revision
}

/// The key of one immutable revision of a context resource.
pub fn resource_key(resource_id: &str, revision: &str) -> (r: String)
    ensures
        r@ == resource_key_spec(resource_id@, revision@),
{
    let mut s = String::from_str("resource/");
    s.append(resource_id);
    s.append("/");
    s.append(revision);
    s
}

pub open spec fn injections_key_spec(execution_id: Seq<char>) -> Seq<char> {
    "injections/"@ + execution_id
}

/// The key of the injections of an execution.
pub fn injections_key(execution_id: &str) -> (r: String)
    ensures
        r@ == injections_key_spec(execution_id@),
{
    let mut s = String::from_str("injections/");
    s.append(execution_id);
    s
}

pub open spec fn injection_admission_key_spec(execution_id: Seq<char>, admission_id: Seq<char>) -> Seq<
    char,
> {
    "injection-admission/"@ + execution_id + "/"@ + admission_id
}

/// The key of the receipt of a load that names its admission.
pub fn injection_admission_key(execution_id: &str, admission_id: &str) -> (r: String)
    ensures
        r@ == injection_admission_key_spec(execution_id@, admission_id@),
{
    let mut s = String::from_str("injection-admission/");
    s.append(execution_id);
    s.append("/");
    s.append(admission_id);
    s
}

/// The position of the last `/` in a path, if any.
pub open spec fn last_slash(path: Seq<char>) -> Option<int> {
    if exists|i: int| 0 <= i < path.len() && path[i] == '/' {
        Some(
            choose|i: int|
                0 <= i < path.len() && path[i] == '/' && forall|j: int|
                    i < j < path.len() ==> path[j] != '/',
        )
    } else {
        None
    }
}

fn find_last_slash(path: &str) -> (r: Option<usize>)
    ensures
        match r {
            Some(i) => i < path@.len() && path@[i as int] == '/' && forall|j: int|
                i < j < path@.len() ==> path@[j] != '/',
            None => forall|j: int| 0 <= j < path@.len() ==> path@[j] != '/',
        },
{
    let n = path.unicode_len();
    let mut i: usize = n;
    while i > 0
        invariant
            i <= n,
            n == path@.len(),
            forall|j: int| i <= j < n ==> path@[j] != '/',
        decreases i,
    {
        if path.get_char(i - 1) == '/' {
            return Some(i - 1);
        }
        i = i - 1;
    }
    None
}

proof fn lemma_last_slash(path: Seq<char>, i: int)
    requires
        0 <= i < path.len(),
        path[i] == '/',
        forall|j: int| i < j < path.len() ==> path[j] != '/',
    ensures
        last_slash(path) == Some(i),
{
    let k = choose|k: int|
        0 <= k < path.len() && path[k] == '/' && forall|j: int| k < j < path.len() ==> path[j] != '/';
    assert(0 <= i < path.len() && path[i] == '/' && forall|j: int|
        i < j < path.len() ==> path[j] != '/');
    if k < i {
        assert(path[i] != '/');
    } else if k > i {
        assert(path[k] != '/');
    }
}

/// The last segment of a `/`-separated path.
pub open spec fn file_name_spec(path: Seq<char>) -> Seq<char> {
    match last_slash(path) {
        Some(i) => path.subrange(i + 1, path.len() as int),
        None => path,
    }
}

/// Everything before the last `/` of a path, if it has one.
pub open spec fn parent_path_spec(path: Seq<char>) -> Option<Seq<char>> {
    match last_slash(path) {
        Some(i) => Some(path.subrange(0, i)),
        None => None,
    }
}

pub fn file_name(path: &str) -> (r: String)
    ensures
        r@ == file_name_spec(path@),
{
    let n = path.unicode_len();
    match find_last_slash(path) {
        Some(i) => {
            proof {
                lemma_last_slash(path@, i as int);
            }
            path.substring_char(i + 1, n).to_string()
        },
        None => path.to_string(),
    }
}

pub fn parent_path(path: &str) -> (r: Option<String>)
    ensures
        match r {
            Some(p) => parent_path_spec(path@) == Some(p@),
            None => parent_path_spec(path@) is None,
        },
{
    match find_last_slash(path) {
        Some(i) => {
            proof {
                lemma_last_slash(path@, i as int);
            }
            Some(path.substring_char(0, i).to_string())
        },
        None => None,
    }
}

/// The kinds of context resource.
#[derive(Clone, Copy, Debug, PartialEq, Eq, Structural)]
pub enum ContextResourceKind {
    ProjectInstruction,
    ProjectDocument,
    Skill,
    External,
}

/// The kind of a repository file that is project context, if it is one.
pub open spec fn project_file_kind_spec(path: Seq<char>) -> Option<ContextResourceKind> {
    let name = file_name_spec(path);
    if name == "AGENTS.md"@ || name == "AGENTS.override.md"@ {
        Some(ContextResourceKind::ProjectInstruction)
    } else if name == "CONTRIBUTING.md"@ || name == "DEVELOPMENT.md"@ {
        Some(ContextResourceKind::ProjectDocument)
    } else if name == "SKILL.md"@ {
        Some(ContextResourceKind::Skill)
    } else {
        None
    }
}

fn same_text(s: &str, lit: &str) -> (r: bool)
    ensures
        r == (s@ == lit@),
{
    let n = s.unicode_len();
    if n != lit.unicode_len() {
        return false;
    }
    let mut i: usize = 0;
    while i < n
        invariant
            n == s@.len(),
            n == lit@.len(),
            i <= n,
            forall|j: int| 0 <= j < i ==> s@[j] == lit@[j],
        decreases n - i,
    {
        if s.get_char(i) != lit.get_char(i) {
            return false;
        }
        i = i + 1;
    }
    assert(s@ =~= lit@);
    true
}

pub fn project_file_kind(path: &str) -> (r: Option<ContextResourceKind>)
    ensures
        r == project_file_kind_spec(path@),
{
    let name = file_name(path);
    let name = name.as_str();
    if same_text(name, "AGENTS.md") || same_text(name, "AGENTS.override.md") {
        Some(ContextResourceKind::ProjectInstruction)
    } else if same_text(name, "CONTRIBUTING.md") || same_text(name, "DEVELOPMENT.md") {
        Some(ContextResourceKind::ProjectDocument)
    } else if same_text(name, "SKILL.md") {
        Some(ContextResourceKind::Skill)
    } else {
        None
    }
}

// ---------------------------------------------------------------------------
// Framing of the material a model sees
// ---------------------------------------------------------------------------

/// `--- phenix `
pub open spec fn frame_open() -> Seq<u8> {
    seq![45u8, 45, 45, 32, 112, 104, 101, 110, 105, 120, 32]
}

/// `] ---` and a line feed.
pub open spec fn frame_close() -> Seq<u8> {
    seq![93u8, 32, 45, 45, 45, 10]
}

/// One framed section appended to `out`: a line feed first unless `out` is
/// empty, then the header line naming kind and source, then the content and
/// a line feed.
pub open spec fn framed(out: Seq<u8>, kind: Seq<u8>, source: Seq<u8>, content: Seq<u8>) -> Seq<u8> {
    (if out.len() == 0 {
        out
    } else {
        out.push(10u8)
    }) + frame_open() + kind + seq![32u8, 91] + source + frame_close() + content + seq![10u8]
}

pub fn push_bytes(out: &mut Vec<u8>, bytes: &[u8])
    ensures
        final(out)@ == old(out)@ + bytes@,
{
    let mut i: usize = 0;
    while i < bytes.len()
        invariant
            i <= bytes@.len(),
            out@ == old(out)@ + bytes@.take(i as int),
        decreases bytes@.len() - i,
    {
        out.push(bytes[i]);
        proof {
            assert(bytes@.take(i + 1) =~= bytes@.take(i as int).push(bytes@[i as int]));
        }
        i = i + 1;
    }
    proof {
        assert(bytes@.take(i as int) =~= bytes@);
    }
}

/// Appends one framed section.
pub fn append_section(output: &mut Vec<u8>, kind: &str, source: &str, content: &[u8])
    ensures
        final(output)@ == framed(old(output)@, kind.spec_bytes(), source.spec_bytes(), content@),
{
    if output.len() > 0 {
        output.push(10u8);
    }
    let open: [u8; 11] = [45u8, 45, 45, 32, 112, 104, 101, 110, 105, 120, 32];
    push_bytes(output, open.as_slice());
    push_bytes(output, kind.as_bytes());
    let bracket: [u8; 2] = [32u8, 91];
    push_bytes(output, bracket.as_slice());
    push_bytes(output, source.as_bytes());
    let close: [u8; 6] = [93u8, 32, 45, 45, 45, 10];
    push_bytes(output, close.as_slice());
    push_bytes(output, content);
    output.push(10u8);
    proof {
        assert(open@ =~= frame_open());
        assert(close@ =~= frame_close());
        assert(bracket@ =~= seq![32u8, 91]);
    }
}

// ---------------------------------------------------------------------------
// The projection state of an execution
// ---------------------------------------------------------------------------

/// An exact revision of a context resource.
#[derive(Clone, Debug, PartialEq, Eq)]
pub struct ExactContextReference {
    pub resource_id: String,
    pub revision: String,
}

/// Where an admitted item's content comes from.
#[derive(Clone, Debug, PartialEq, Eq)]
pub enum ContextSource {
    Inline { identity: String },
    Exact { reference: ExactContextReference },
}

/// How an admitted item appears to the model.
#[derive(Clone, Copy, Debug, PartialEq, Eq, Structural)]
pub enum ContextProjectionForm {
    Full,
    Reference,
    Omitted,
}

/// How long an admitted item is kept, and in what form.
#[derive(Clone, Copy, Debug, PartialEq, Eq, Structural)]
pub enum ContextRetention {
    Pinned,
    Full,
    Compact,
    Reference,
    DropAllowed,
}

/// Where an item stands with respect to the model's prompt cache.
#[derive(Clone, Copy, Debug, PartialEq, Eq, Structural)]
pub enum CachePlacement {
    StablePrefix,
    Epoch,
}

/// One item admitted into an execution's projection.
#[derive(Clone, Debug, PartialEq, Eq)]
pub struct AdmittedContextItem {
    pub id: String,
    pub source: ContextSource,
    pub content_identity: String,
    pub form: ContextProjectionForm,
    pub cache: CachePlacement,
    pub retention: ContextRetention,
    pub estimated_tokens: u64,
    pub recovery: Option<ExactContextReference>,
}

/// The revision of a projection and the cache epoch it was admitted under.
#[derive(Clone, Copy, Debug, PartialEq, Eq, Structural)]
pub struct ProjectionRevision {
    pub revision: u64,
    pub cache_epoch: u64,
}

/// The compact view that replaces compacted items once committed.
#[derive(Clone, Debug, PartialEq, Eq)]
pub struct ProjectionCheckpoint {
    pub checkpoint_id: String,
    pub execution_id: String,
    pub source_revision: ProjectionRevision,
    pub content_identity: String,
    pub compact_view: Vec<u8>,
    pub exact_sources: Vec<ExactContextReference>,
}

/// A change of one item's retention.
#[derive(Clone, Debug, PartialEq, Eq)]
pub struct RetentionTransition {
    pub item_id: String,
    pub from: ContextRetention,
    pub to: ContextRetention,
    pub recovery: Option<ExactContextReference>,
}

/// A compaction waiting to be committed.
#[derive(Clone, Debug, PartialEq, Eq)]
pub struct CompactionProposal {
    pub execution_id: String,
    pub expected_projection: ProjectionRevision,
    pub next_cache_epoch: u64,
    pub transitions: Vec<RetentionTransition>,
    pub checkpoint: ProjectionCheckpoint,
}

/// A committed compaction and the projection revision it produced.
#[derive(Clone, Debug, PartialEq, Eq)]
pub struct CompactionCommit {
    pub proposal: CompactionProposal,
    pub committed_projection: ProjectionRevision,
}

/// What an admission decided for an execution.
#[derive(Clone, Debug, PartialEq, Eq)]
pub struct ContextAdmissionResult {
    pub execution_id: String,
    pub policy_revision: String,
    pub cache_epoch: u64,
    pub admitted: Vec<AdmittedContextItem>,
    pub used_input_tokens: u64,
    pub omitted_input_tokens: u64,
    pub deduplicated_items: u64,
}

/// Why the projection state refused an operation.
#[derive(Clone, Debug, PartialEq, Eq)]
pub enum ProjectionStateError {
    ExecutionMismatch,
    StaleAdmissionEpoch { current: u64, incoming: u64 },
    DuplicatePreparedCheckpoint { checkpoint_id: String },
    UnknownPreparedCheckpoint { checkpoint_id: String },
    UnknownContextItem { item_id: String },
    Compaction { reason: String },
}

/// The projection form that a retention implies.
pub open spec fn form_for(retention: ContextRetention) -> ContextProjectionForm {
    match retention {
        ContextRetention::Pinned | ContextRetention::Full | ContextRetention::Compact => {
            ContextProjectionForm::Full
        },
        ContextRetention::Reference => ContextProjectionForm::Reference,
        ContextRetention::DropAllowed => ContextProjectionForm::Omitted,
    }
}

/// An item after a retention transition.
pub open spec fn transitioned(item: AdmittedContextItem, t: RetentionTransition) -> AdmittedContextItem {
    AdmittedContextItem {
        id: item.id,
        source: item.source,
        content_identity: item.content_identity,
        form: form_for(t.to),
        cache: item.cache,
        retention: t.to,
        estimated_tokens: item.estimated_tokens,
        recovery: if t.recovery is Some {
            t.recovery
        } else {
            item.recovery
        },
    }
}

/// The items after each transition in turn.
pub open spec fn apply_transitions(
    m: Map<Seq<char>, AdmittedContextItem>,
    ts: Seq<RetentionTransition>,
) -> Map<Seq<char>, AdmittedContextItem>
    decreases ts.len(),
{
    if ts.len() == 0 {
        m
    } else {
        let before = apply_transitions(m, ts.drop_last());
        let t = ts.last();
        if before.contains_key(t.item_id@) {
            before.insert(t.item_id@, transitioned(before[t.item_id@], t))
        } else {
            before
        }
    }
}

pub proof fn lemma_apply_transitions_keys(
    m: Map<Seq<char>, AdmittedContextItem>,
    ts: Seq<RetentionTransition>,
)
    ensures
        apply_transitions(m, ts).dom() == m.dom(),
    decreases ts.len(),
{
    if ts.len() > 0 {
        lemma_apply_transitions_keys(m, ts.drop_last());
        let before = apply_transitions(m, ts.drop_last());
        if before.contains_key(ts.last().item_id@) {
            assert(before.insert(ts.last().item_id@, transitioned(before[ts.last().item_id@], ts.last())).dom()
                =~= before.dom());
        }
    }
}

/// The index of the first transition that names an item the projection lacks.
pub open spec fn first_unknown(m: Map<Seq<char>, AdmittedContextItem>, ts: Seq<RetentionTransition>) -> Option<
    int,
> {
    if exists|i: int| 0 <= i < ts.len() && !m.contains_key(#[trigger] ts[i].item_id@) {
        Some(
            choose|i: int|
                0 <= i < ts.len() && !m.contains_key(#[trigger] ts[i].item_id@) && forall|j: int|
                    0 <= j < i ==> m.contains_key(#[trigger] ts[j].item_id@),
        )
    } else {
        None
    }
}

proof fn lemma_first_unknown_at(m: Map<Seq<char>, AdmittedContextItem>, ts: Seq<RetentionTransition>, i: int)
    requires
        0 <= i < ts.len(),
        !m.contains_key(ts[i].item_id@),
        forall|j: int| 0 <= j < i ==> m.contains_key(#[trigger] ts[j].item_id@),
    ensures
        first_unknown(m, ts) == Some(i),
{
    let k = choose|k: int|
        0 <= k < ts.len() && !m.contains_key(#[trigger] ts[k].item_id@) && forall|j: int|
            0 <= j < k ==> m.contains_key(#[trigger] ts[j].item_id@);
    assert(0 <= i < ts.len() && !m.contains_key(ts[i].item_id@) && forall|j: int|
        0 <= j < i ==> m.contains_key(#[trigger] ts[j].item_id@));
    if k < i {
        assert(m.contains_key(ts[k].item_id@));
    } else if k > i {
        assert(m.contains_key(ts[i].item_id@));
    }
}

/// The items of an admission, keyed by identity; a later item with the same
/// identity replaces an earlier one.
pub open spec fn items_map(items: Seq<AdmittedContextItem>) -> Map<Seq<char>, AdmittedContextItem>
    decreases items.len(),
{
    if items.len() == 0 {
        Map::empty()
    } else {
        items_map(items.drop_last()).insert(items.last().id@, items.last())
    }
}

pub open spec fn saturating_next(n: u64) -> u64 {
    if n == u64::MAX {
        n
    } else {
        (n + 1) as u64
    }
}

fn clone_reference(r: &ExactContextReference) -> (c: ExactContextReference)
    ensures
        c == *r,
{
    ExactContextReference { resource_id: r.resource_id.clone(), revision: r.revision.clone() }
}

fn clone_optional_reference(r: &Option<ExactContextReference>) -> (c: Option<ExactContextReference>)
    ensures
        c == *r,
{
    match r {
        Some(x) => Some(clone_reference(x)),
        None => None,
    }
}

fn clone_source(s: &ContextSource) -> (c: ContextSource)
    ensures
        c == *s,
{
    match s {
        ContextSource::Inline { identity } => ContextSource::Inline { identity: identity.clone() },
        ContextSource::Exact { reference } => ContextSource::Exact { reference: clone_reference(reference) },
    }
}

fn transition_item(item: &AdmittedContextItem, t: &RetentionTransition) -> (r: AdmittedContextItem)
    ensures
        r == transitioned(*item, *t),
{
    let form = match t.to {
        ContextRetention::Pinned | ContextRetention::Full | ContextRetention::Compact => {
            ContextProjectionForm::Full
        },
        ContextRetention::Reference => ContextProjectionForm::Reference,
        ContextRetention::DropAllowed => ContextProjectionForm::Omitted,
    };
    let recovery = if t.recovery.is_some() {
        clone_optional_reference(&t.recovery)
    } else {
        clone_optional_reference(&item.recovery)
    };
    AdmittedContextItem {
        id: item.id.clone(),
        source: clone_source(&item.source),
        content_identity: item.content_identity.clone(),
        form,
        cache: item.cache,
        retention: t.to,
        estimated_tokens: item.estimated_tokens,
        recovery,
    }
}

/// The projection of one execution: its revision, the items admitted into it,
/// the compactions prepared against it and the last committed checkpoint.
pub struct ContextProjectionState {
    pub execution_id: String,
    pub revision: ProjectionRevision,
    pub admitted: TextMap<AdmittedContextItem>,
    pub prepared: TextMap<CompactionProposal>,
    pub committed_checkpoint: Option<ProjectionCheckpoint>,
}

impl ContextProjectionState {
    /// Well-formed while both of its maps are; its other fields may be set freely.
    pub open spec fn wf(self) -> bool {
        self.admitted.wf() && self.prepared.wf()
    }

    pub open spec fn admitted_items(self) -> Map<Seq<char>, AdmittedContextItem> {
        self.admitted@
    }

    pub open spec fn prepared_proposals(self) -> Map<Seq<char>, CompactionProposal> {
        self.prepared@
    }

    /// The items in ascending order of identity.
    pub closed spec fn admitted_seq(self) -> Seq<(String, AdmittedContextItem)> {
        self.admitted.entry_seq()
    }

    pub proof fn lemma_admitted_seq(self)
        requires
            self.wf(),
        ensures
            forall|i: int| 0 <= i < self.admitted_seq().len() ==> #[trigger] self.admitted_items()[self.admitted_seq()[i].0@]
                == self.admitted_seq()[i].1,
    {
        self.admitted.lemma_entries();
        assert forall|i: int| 0 <= i < self.admitted_seq().len() implies #[trigger] self.admitted_items()[self.admitted_seq()[i].0@]
            == self.admitted_seq()[i].1 by {
            crate::text_map::lemma_entry_index(self.admitted.entry_seq(), i);
        }
    }

    pub fn new(execution_id: String) -> (s: Self)
        ensures
            s.wf(),
            s.execution_id == execution_id,
            s.revision == (ProjectionRevision { revision: 0, cache_epoch: 0 }),
            s.admitted_items() == Map::<Seq<char>, AdmittedContextItem>::empty(),
            s.prepared_proposals() == Map::<Seq<char>, CompactionProposal>::empty(),
            s.committed_checkpoint is None,
    {
        ContextProjectionState {
            execution_id,
            revision: ProjectionRevision { revision: 0, cache_epoch: 0 },
            admitted: TextMap::new(),
            prepared: TextMap::new(),
            committed_checkpoint: None,
        }
    }

    /// The admitted item with an identity.
    pub fn admitted_item(&self, id: &String) -> (r: Option<&AdmittedContextItem>)
        requires
            self.wf(),
        ensures
            match r {
                Some(v) => self.admitted_items().contains_key(id@) && self.admitted_items()[id@] == *v,
                None => !self.admitted_items().contains_key(id@),
            },
    {
        self.admitted.get(id)
    }

    /// Whether some admitted item is compacted.
    pub fn has_compacted_item(&self) -> (r: bool)
        requires
            self.wf(),
        ensures
            r == exists|k: Seq<char>|
                #[trigger] self.admitted_items().contains_key(k) && self.admitted_items()[k].retention
                    == ContextRetention::Compact,
    {
        proof {
            self.admitted.lemma_entries();
        }
        let n = self.admitted.len();
        let mut i: usize = 0;
        while i < n
            invariant
                n == self.admitted.entry_seq().len(),
                i <= n,
                self.wf(),
                forall|j: int| 0 <= j < i ==> (#[trigger] self.admitted.entry_seq()[j]).1.retention
                    != ContextRetention::Compact,
            decreases n - i,
        {
            if self.admitted.entry(i).1.retention == ContextRetention::Compact {
                proof {
                    self.admitted.lemma_entries();
                    crate::text_map::lemma_entry_index(self.admitted.entry_seq(), i as int);
                    let k = self.admitted.entry_seq()[i as int].0@;
                    assert(self.admitted_items().contains_key(k));
                }
                return true;
            }
            i = i + 1;
        }
        proof {
            self.admitted.lemma_entries();
            assert forall|k: Seq<char>| #[trigger] self.admitted_items().contains_key(k) implies self.admitted_items()[k].retention
                != ContextRetention::Compact by {
                let j = crate::text_map::entry_index(self.admitted.entry_seq(), k);
                crate::text_map::lemma_entry_index(self.admitted.entry_seq(), j);
                assert(self.admitted.entry_seq()[j].1.retention != ContextRetention::Compact);
            }
        }
        false
    }

    /// The number of admitted items.
    pub fn admitted_len(&self) -> (n: usize)
        ensures
            n == self.admitted_seq().len(),
    {
        self.admitted.len()
    }

    /// The admitted item at a position in identity order.
    pub fn admitted_at(&self, i: usize) -> (r: &AdmittedContextItem)
        requires
            i < self.admitted_seq().len(),
        ensures
            *r == self.admitted_seq()[i as int].1,
    {
        self.admitted.entry(i).1
    }

    /// Sets the state of an admitted item directly.
    pub fn set_admitted(&mut self, item: AdmittedContextItem)
        requires
            old(self).wf(),
        ensures
            final(self).wf(),
            final(self).admitted_items() == old(self).admitted_items().insert(item.id@, item),
            final(self).prepared_proposals() == old(self).prepared_proposals(),
            final(self).revision == old(self).revision,
            final(self).execution_id == old(self).execution_id,
            final(self).committed_checkpoint == old(self).committed_checkpoint,
    {
        let key = item.id.clone();
        self.admitted.insert(key, item);
    }

    /// The prepared compaction with a checkpoint identity.
    pub fn prepared_proposal(&self, checkpoint_id: &String) -> (r: Option<&CompactionProposal>)
        requires
            self.wf(),
        ensures
            match r {
                Some(v) => self.prepared_proposals().contains_key(checkpoint_id@)
                    && self.prepared_proposals()[checkpoint_id@] == *v,
                None => !self.prepared_proposals().contains_key(checkpoint_id@),
            },
    {
        self.prepared.get(checkpoint_id)
    }

    /// Replaces the admitted items with those of an admission of this
    /// execution whose cache epoch has not gone backwards; prepared
    /// compactions are dropped and the revision advances.
    pub fn apply_admission(&mut self, result: ContextAdmissionResult) -> (r: Result<
        (),
        ProjectionStateError,
    >)
        requires
            old(self).wf(),
        ensures
            final(self).wf(),
            admission_step(*old(self), result, *final(self), r),
    {
        if !(result.execution_id == self.execution_id) {
            return Err(ProjectionStateError::ExecutionMismatch);
        }
        if result.cache_epoch < self.revision.cache_epoch {
            return Err(
                ProjectionStateError::StaleAdmissionEpoch {
                    current: self.revision.cache_epoch,
                    incoming: result.cache_epoch,
                },
            );
        }
        self.prepared = TextMap::new();
        self.revision.revision = self.revision.revision.saturating_add(1);
        self.revision.cache_epoch = result.cache_epoch;
        let mut admitted: TextMap<AdmittedContextItem> = TextMap::new();
        let items = result.admitted;
        let ghost all = items@;
        let mut rest = items;
        let mut i: usize = 0;
        let n = rest.len();
        while i < n
            invariant
                n == all.len(),
                rest@ == all.skip(i as int),
                i <= n,
                admitted.wf(),
                admitted@ == items_map(all.take(i as int)),
            decreases n - i,
        {
            let item = rest.remove(0);
            proof {
                assert(item == all[i as int]);
                assert(all.take(i + 1).drop_last() =~= all.take(i as int));
                assert(rest@ =~= all.skip(i + 1));
            }
            let key = item.id.clone();
            admitted.insert(key, item);
            i = i + 1;
        }
        proof {
            assert(all.take(n as int) =~= all);
        }
        self.admitted = admitted;
        Ok(())
    }

    /// Prepares a compaction of this execution that the proposal's own check
    /// (`validation`) found sound against the current revision; a checkpoint
    /// can be prepared once.
    pub fn prepare_compaction(
        &mut self,
        proposal: CompactionProposal,
        validation: Result<(), String>,
    ) -> (r: Result<(), ProjectionStateError>)
        requires
            old(self).wf(),
        ensures
            final(self).wf(),
            prepare_step(*old(self), proposal, validation, *final(self), r),
    {
        if !(proposal.execution_id == self.execution_id) {
            return Err(ProjectionStateError::ExecutionMismatch);
        }
        if let Err(reason) = validation {
            return Err(ProjectionStateError::Compaction { reason });
        }
        let checkpoint_id = proposal.checkpoint.checkpoint_id.clone();
        if self.prepared.contains_key(&checkpoint_id) {
            return Err(ProjectionStateError::DuplicatePreparedCheckpoint { checkpoint_id });
        }
        self.prepared.insert(checkpoint_id, proposal);
        Ok(())
    }

    /// Commits a prepared compaction that its own check (`validation`) still
    /// finds sound: its transitions apply in order, the revision advances to
    /// the proposal's cache epoch, its checkpoint becomes the committed one,
    /// and every other prepared compaction is dropped.
    pub fn commit_compaction(&mut self, checkpoint_id: &String, validation: Result<(), String>) -> (r:
        Result<CompactionCommit, ProjectionStateError>)
        requires
            old(self).wf(),
        ensures
            final(self).wf(),
            commit_step(*old(self), *checkpoint_id, validation, *final(self), r),
    {
        let proposal = match self.prepared.remove(checkpoint_id) {
            Some(p) => p,
            None => {
                assert(self.prepared@ =~= old(self).prepared@);
                return Err(
                    ProjectionStateError::UnknownPreparedCheckpoint { checkpoint_id: checkpoint_id.clone() },
                );
            },
        };
        if let Err(reason) = validation {
            return Err(ProjectionStateError::Compaction { reason });
        }
        let ghost start = self.admitted@;
        let ghost ts = proposal.transitions@;
        let mut i: usize = 0;
        while i < proposal.transitions.len()
            invariant
                old(self).prepared@.contains_key(checkpoint_id@),
                proposal == old(self).prepared@[checkpoint_id@],
                validation is Ok,
                ts == proposal.transitions@,
                i <= ts.len(),
                self.admitted.wf(),
                self.prepared.wf(),
                self.admitted@ == apply_transitions(start, ts.take(i as int)),
                forall|j: int| 0 <= j < i ==> start.contains_key(#[trigger] ts[j].item_id@),
                self.execution_id == old(self).execution_id,
                self.revision == old(self).revision,
                self.committed_checkpoint == old(self).committed_checkpoint,
                self.prepared@ == old(self).prepared@.remove(checkpoint_id@),
                start == old(self).admitted@,
            decreases ts.len() - i,
        {
            let t = &proposal.transitions[i];
            proof {
                lemma_apply_transitions_keys(start, ts.take(i as int));
                assert(ts.take(i + 1).drop_last() =~= ts.take(i as int));
                assert(ts.take(i + 1).last() == ts[i as int]);
            }
            let updated = match self.admitted.get(&t.item_id) {
                Some(item) => transition_item(item, t),
                None => {
                    proof {
                        lemma_first_unknown_at(start, ts, i as int);
                    }
                    return Err(ProjectionStateError::UnknownContextItem { item_id: t.item_id.clone() });
                },
            };
            self.admitted.insert(t.item_id.clone(), updated);
            i = i + 1;
        }
        proof {
            assert(ts.take(i as int) =~= ts);
            assert(!(exists|j: int| 0 <= j < ts.len() && !start.contains_key(#[trigger] ts[j].item_id@)));
        }
        self.revision = ProjectionRevision {
            revision: self.revision.revision.saturating_add(1),
            cache_epoch: proposal.next_cache_epoch,
        };
        self.prepared = TextMap::new();
        self.committed_checkpoint = Some(clone_checkpoint(&proposal.checkpoint));
        let committed_projection = self.revision;
        Ok(CompactionCommit { proposal, committed_projection })
    }

    /// A change of context outside the projection drops every prepared
    /// compaction and advances the revision.
    pub fn invalidate_for_context_mutation(&mut self)
        requires
            old(self).wf(),
        ensures
            final(self).wf(),
            invalidation_step(*old(self), *final(self)),
    {
        self.prepared = TextMap::new();
        self.revision.revision = self.revision.revision.saturating_add(1);
    }
}

fn clone_bytes(v: &Vec<u8>) -> (c: Vec<u8>)
    ensures
        c@ == v@,
{
    let mut c: Vec<u8> = Vec::new();
    push_bytes(&mut c, v.as_slice());
    c
}

fn clone_references(v: &Vec<ExactContextReference>) -> (c: Vec<ExactContextReference>)
    ensures
        c@ == v@,
{
    let mut c: Vec<ExactContextReference> = Vec::new();
    let mut i: usize = 0;
    while i < v.len()
        invariant
            i <= v@.len(),
            c@ == v@.take(i as int),
        decreases v@.len() - i,
    {
        c.push(clone_reference(&v[i]));
        proof {
            assert(v@.take(i + 1) =~= v@.take(i as int).push(v@[i as int]));
        }
        i = i + 1;
    }
    proof {
        assert(v@.take(i as int) =~= v@);
    }
    c
}

/// Two checkpoints hold the same values.
pub open spec fn same_checkpoint(a: ProjectionCheckpoint, b: ProjectionCheckpoint) -> bool {
    &&& a.checkpoint_id == b.checkpoint_id
    &&& a.execution_id == b.execution_id
    &&& a.source_revision == b.source_revision
    &&& a.content_identity == b.content_identity
    &&& a.compact_view@ == b.compact_view@
    &&& a.exact_sources@ == b.exact_sources@
}

fn clone_checkpoint(c: &ProjectionCheckpoint) -> (r: ProjectionCheckpoint)
    ensures
        same_checkpoint(r, *c),
{
    ProjectionCheckpoint {
        checkpoint_id: c.checkpoint_id.clone(),
        execution_id: c.execution_id.clone(),
        source_revision: c.source_revision,
        content_identity: c.content_identity.clone(),
        compact_view: clone_bytes(&c.compact_view),
        exact_sources: clone_references(&c.exact_sources),
    }
}

// ---------------------------------------------------------------------------
// Materialization of an invocation
// ---------------------------------------------------------------------------

/// The kinds of prompt section.
#[derive(Clone, Copy, Debug, PartialEq, Eq, Structural)]
pub enum PromptSectionKind {
    HarnessIdentity,
    ProjectInstruction,
    Skill,
    ProjectDocument,
    External,
}

/// The role a prompt section plays.
#[derive(Clone, Copy, Debug, PartialEq, Eq, Structural)]
pub enum PromptSectionRole {
    Instruction,
    Context,
}

/// One section of an assembled prompt.
#[derive(Clone, Debug, PartialEq, Eq)]
pub struct PromptSection {
    pub role: PromptSectionRole,
    pub kind: PromptSectionKind,
    pub source: String,
    pub reference: Option<ExactContextReference>,
    pub content: Vec<u8>,
}

/// The sections of a prompt for one execution, in order.
#[derive(Clone, Debug, PartialEq, Eq)]
pub struct PromptAssembly {
    pub execution_id: String,
    pub sections: Vec<PromptSection>,
}

/// The bytes a model is given for an invocation, the projection they were
/// made from, the length of the cacheable prefix, and the material that
/// identifies the prefix: the cache epoch in big-endian bytes, then the prefix.
#[derive(Clone, Debug, PartialEq, Eq)]
pub struct ContextInvocationMaterialization {
    pub input: Vec<u8>,
    pub projection: ProjectionRevision,
    pub cache_prefix_bytes: u64,
    pub cache_identity_material: Vec<u8>,
}

/// Why an invocation could not be materialized.
#[derive(Clone, Debug, PartialEq, Eq)]
pub enum MaterializationError {
    StaleProjection { expected: ProjectionRevision, actual: ProjectionRevision },
    MissingRecoverySource { item_id: String },
    NotMaterializable { item_id: String },
}

pub open spec fn reference_marker(r: ExactContextReference) -> Seq<char> {
    r.resource_id@ + "@"@ + r.revision@
}

pub open spec fn section_id_spec(section: PromptSection) -> Seq<char> {
    match section.reference {
        Some(r) => reference_marker(r),
        None => "phenix:harness-identity"@,
    }
}

fn marker_of(r: &ExactContextReference) -> (s: String)
    ensures
        s@ == reference_marker(*r),
{
    let mut s = r.resource_id.clone();
    s.append("@");
    s.append(r.revision.as_str());
    s
}

/// The identity of the admitted item that stands for a section.
pub fn section_id(section: &PromptSection) -> (r: String)
    ensures
        r@ == section_id_spec(*section),
{
    match &section.reference {
        Some(reference) => marker_of(reference),
        None => String::from_str("phenix:harness-identity"),
    }
}

pub open spec fn section_label_spec(kind: PromptSectionKind) -> Seq<char> {
    match kind {
        PromptSectionKind::HarnessIdentity => "instruction"@,
        PromptSectionKind::ProjectInstruction => "project-instruction"@,
        PromptSectionKind::Skill => "skill"@,
        PromptSectionKind::ProjectDocument => "project-context"@,
        PromptSectionKind::External => "external-context"@,
    }
}

/// The label a section's kind carries in the framing.
pub fn section_label(kind: PromptSectionKind) -> (r: &'static str)
    ensures
        r@ == section_label_spec(kind),
{
    match kind {
        PromptSectionKind::HarnessIdentity => "instruction",
        PromptSectionKind::ProjectInstruction => "project-instruction",
        PromptSectionKind::Skill => "skill",
        PromptSectionKind::ProjectDocument => "project-context",
        PromptSectionKind::External => "external-context",
    }
}

/// The exact reference an item is recovered from: its recovery source, or
/// the exact source it came from.
pub open spec fn recovery_of(item: AdmittedContextItem) -> Option<ExactContextReference> {
    match item.recovery {
        Some(r) => Some(r),
        None => match item.source {
            ContextSource::Exact { reference } => Some(reference),
            _ => None,
        },
    }
}

/// The framed material of the sections, and the identities they represent.
pub open spec fn materialize_sections(
    sections: Seq<PromptSection>,
    admitted: Map<Seq<char>, AdmittedContextItem>,
) -> Result<(Seq<u8>, Set<Seq<char>>), MaterializationError>
    decreases sections.len(),
{
    if sections.len() == 0 {
        Ok((Seq::empty(), Set::empty()))
    } else {
        match materialize_sections(sections.drop_last(), admitted) {
            Err(e) => Err(e),
            Ok(acc) => {
                let out = acc.0;
                let sec = sections.last();
                let id = section_id_spec(sec);
                if !admitted.contains_key(id) {
                    Ok(acc)
                } else {
                    let item = admitted[id];
                    let rep = acc.1.insert(id);
                    if item.retention == ContextRetention::Compact {
                        Ok((out, rep))
                    } else {
                        match item.form {
                            ContextProjectionForm::Full => Ok(
                                (
                                    framed(
                                        out,
                                        vstd::utf8::encode_utf8(section_label_spec(sec.kind)),
                                        vstd::utf8::encode_utf8(sec.source@),
                                        sec.content@,
                                    ),
                                    rep,
                                ),
                            ),
                            ContextProjectionForm::Reference => match recovery_of(item) {
                                Some(r) => Ok(
                                    (
                                        framed(
                                            out,
                                            vstd::utf8::encode_utf8("context-reference"@),
                                            vstd::utf8::encode_utf8("exact"@),
                                            vstd::utf8::encode_utf8(reference_marker(r)),
                                        ),
                                        rep,
                                    ),
                                ),
                                None => Err(MaterializationError::MissingRecoverySource { item_id: item.id }),
                            },
                            ContextProjectionForm::Omitted => Ok((out, rep)),
                        }
                    }
                }
            },
        }
    }
}

proof fn lemma_materialize_error_extends(
    s: Seq<PromptSection>,
    m: Map<Seq<char>, AdmittedContextItem>,
    j: int,
    k: int,
)
    requires
        0 <= j <= k <= s.len(),
        materialize_sections(s.take(j), m) is Err,
    ensures
        materialize_sections(s.take(k), m) == materialize_sections(s.take(j), m),
    decreases k - j,
{
    if k > j {
        lemma_materialize_error_extends(s, m, j, k - 1);
        assert(s.take(k).drop_last() =~= s.take(k - 1));
    }
}

pub open spec fn checkpoint_item_id(checkpoint_id: Seq<char>) -> Seq<char> {
    "phenix:checkpoint:"@ + checkpoint_id
}

/// Whether an admitted item is accounted for by the material.
pub open spec fn accounted(item: AdmittedContextItem, represented: Set<Seq<char>>) -> bool {
    represented.contains(item.id@) || item.form == ContextProjectionForm::Omitted || item.retention
        == ContextRetention::Compact
}

/// The first admitted item, in identity order, that the material does not account for.
pub open spec fn first_unaccounted(entries: Seq<(String, AdmittedContextItem)>, represented: Set<Seq<char>>) -> Option<
    int,
> {
    if exists|i: int| 0 <= i < entries.len() && !accounted(#[trigger] entries[i].1, represented) {
        Some(
            choose|i: int|
                0 <= i < entries.len() && !accounted(#[trigger] entries[i].1, represented) && forall|j: int|
                    0 <= j < i ==> accounted(#[trigger] entries[j].1, represented),
        )
    } else {
        None
    }
}

/// The eight big-endian bytes of a number.
pub open spec fn be_bytes(n: u64) -> Seq<u8> {
    seq![
        (n / 0x100000000000000) as u8,
        ((n / 0x1000000000000) % 256) as u8,
        ((n / 0x10000000000) % 256) as u8,
        ((n / 0x100000000) % 256) as u8,
        ((n / 0x1000000) % 256) as u8,
        ((n / 0x10000) % 256) as u8,
        ((n / 0x100) % 256) as u8,
        (n % 256) as u8,
    ]
}

pub fn be_bytes_of(n: u64) -> (r: Vec<u8>)
    ensures
        r@ == be_bytes(n),
{
    let mut r: Vec<u8> = Vec::new();
    r.push((n / 0x100000000000000) as u8);
    r.push(((n / 0x1000000000000) % 256) as u8);
    r.push(((n / 0x10000000000) % 256) as u8);
    r.push(((n / 0x100000000) % 256) as u8);
    r.push(((n / 0x1000000) % 256) as u8);
    r.push(((n / 0x10000) % 256) as u8);
    r.push(((n / 0x100) % 256) as u8);
    r.push((n % 256) as u8);
    assert(r@ =~= be_bytes(n));
    r
}

fn text_in(list: &Vec<String>, s: &String) -> (r: bool)
    ensures
        r == exists|i: int| 0 <= i < list@.len() && (#[trigger] list@[i])@ == s@,
{
    let mut i: usize = 0;
    while i < list.len()
        invariant
            i <= list@.len(),
            forall|j: int| 0 <= j < i ==> (#[trigger] list@[j])@ != s@,
        decreases list@.len() - i,
    {
        if list[i] == *s {
            return true;
        }
        i = i + 1;
    }
    false
}

pub open spec fn text_set(list: Seq<String>) -> Set<Seq<char>> {
    Set::new(|x: Seq<char>| exists|i: int| 0 <= i < list.len() && (#[trigger] list[i])@ == x)
}

/// The bytes a model is given and their cacheable prefix, from the prompt's
/// sections, the admitted items (as a map and in identity order), the
/// committed checkpoint, and the request.
pub open spec fn materialization(
    sections: Seq<PromptSection>,
    admitted: Map<Seq<char>, AdmittedContextItem>,
    admitted_seq: Seq<(String, AdmittedContextItem)>,
    checkpoint: Option<ProjectionCheckpoint>,
    input: Seq<u8>,
) -> Result<(Seq<u8>, Seq<u8>), MaterializationError> {
    match materialize_sections(sections, admitted) {
        Err(e) => Err(e),
        Ok(acc) => {
            let prefix = match checkpoint {
                Some(c) => framed(
                    acc.0,
                    vstd::utf8::encode_utf8("compact-context"@),
                    vstd::utf8::encode_utf8(c.checkpoint_id@),
                    c.compact_view@,
                ),
                None => acc.0,
            };
            let rep = match checkpoint {
                Some(c) => acc.1.insert(checkpoint_item_id(c.checkpoint_id@)),
                None => acc.1,
            };
            match first_unaccounted(admitted_seq, rep) {
                Some(k) => Err(MaterializationError::NotMaterializable { item_id: admitted_seq[k].1.id }),
                None => Ok(
                    (
                        framed(
                            prefix,
                            vstd::utf8::encode_utf8("request"@),
                            vstd::utf8::encode_utf8("user"@),
                            input,
                        ),
                        prefix,
                    ),
                ),
            }
        },
    }
}

/// Makes the bytes a model is given from an assembled prompt and the
/// committed projection: each section whose item is admitted appears in full,
/// as an exact reference, or not at all, as its projection form says; the
/// committed checkpoint's compact view follows; every admitted item must be
/// accounted for; the request comes last, after the cacheable prefix.
pub fn materialize_invocation(
    assembly: &PromptAssembly,
    state: &ContextProjectionState,
    input: &[u8],
    expected_projection: ProjectionRevision,
) -> (r: Result<ContextInvocationMaterialization, MaterializationError>)
    requires
        state.wf(),
    ensures
        state.revision != expected_projection ==> r == Err::<ContextInvocationMaterialization, _>(
            MaterializationError::StaleProjection {
                expected: expected_projection,
                actual: state.revision,
            },
        ),
        state.revision == expected_projection ==> match materialization(
            assembly.sections@,
            state.admitted_items(),
            state.admitted_seq(),
            state.committed_checkpoint,
            input@,
        ) {
            Err(e) => r == Err::<ContextInvocationMaterialization, _>(e),
            Ok((bytes, prefix)) => r matches Ok(m) && {
                &&& m.input@ == bytes
                &&& m.projection == state.revision
                &&& m.cache_prefix_bytes == prefix.len()
                &&& m.cache_identity_material@ == be_bytes(state.revision.cache_epoch) + prefix
            },
        },
{
    if state.revision != expected_projection {
        return Err(
            MaterializationError::StaleProjection { expected: expected_projection, actual: state.revision },
        );
    }
    let mut output: Vec<u8> = Vec::new();
    let mut represented: Vec<String> = Vec::new();
    let sections = &assembly.sections;
    let ghost all = sections@;
    let ghost admitted = state.admitted_items();
    proof {
        assert(all.take(0) =~= Seq::<PromptSection>::empty());
        assert(text_set(represented@) =~= Set::<Seq<char>>::empty());
    }
    let mut i: usize = 0;
    while i < sections.len()
        invariant
            state.wf(),
            state.revision == expected_projection,
            all == sections@,
            all == assembly.sections@,
            admitted == state.admitted_items(),
            i <= all.len(),
            materialize_sections(all.take(i as int), admitted) == Ok::<_, MaterializationError>(
                (output@, text_set(represented@)),
            ),
        decreases all.len() - i,
    {
        let section = &sections[i];
        proof {
            assert(all.take(i + 1).drop_last() =~= all.take(i as int));
            assert(all.take(i + 1).last() == all[i as int]);
        }
        let id = section_id(section);
        match state.admitted.get(&id) {
            None => {},
            Some(item) => {
                proof {
                    assert(text_set(represented@.push(id)) =~= text_set(represented@).insert(id@)) by {
                        assert forall|x: Seq<char>| #[trigger] text_set(represented@.push(id)).contains(x)
                            implies text_set(represented@).insert(id@).contains(x) by {
                            let j = choose|j: int| 0 <= j < represented@.push(id).len()
                                && (#[trigger] represented@.push(id)[j])@ == x;
                            if j < represented@.len() {
                                assert(represented@[j]@ == x);
                            }
                        }
                        assert forall|x: Seq<char>| text_set(represented@).insert(id@).contains(x)
                            implies #[trigger] text_set(represented@.push(id)).contains(x) by {
                            if x == id@ {
                                assert(represented@.push(id)[represented@.len() as int]@ == x);
                            } else {
                                let j = choose|j: int| 0 <= j < represented@.len()
                                    && (#[trigger] represented@[j])@ == x;
                                assert(represented@.push(id)[j]@ == x);
                            }
                        }
                    }
                }
                represented.push(id);
                if !matches!(item.retention, ContextRetention::Compact) {
                    match item.form {
                        ContextProjectionForm::Full => {
                            append_section(
                                &mut output,
                                section_label(section.kind),
                                section.source.as_str(),
                                section.content.as_slice(),
                            );
                        },
                        ContextProjectionForm::Reference => {
                            let reference = match &item.recovery {
                                Some(r) => r,
                                None => match &item.source {
                                    ContextSource::Exact { reference } => reference,
                                    ContextSource::Inline { .. } => {
                                        proof {
                                            assert(section_id_spec(all[i as int]) == id@);
                                            assert(admitted[id@] == *item);
                                            assert(recovery_of(*item) is None);
                                            assert(materialize_sections(all.take(i + 1), admitted)
                                                == Err::<(Seq<u8>, Set<Seq<char>>), MaterializationError>(
                                                MaterializationError::MissingRecoverySource {
                                                    item_id: item.id,
                                                },
                                            ));
                                            lemma_materialize_error_extends(
                                                all,
                                                admitted,
                                                i + 1,
                                                all.len() as int,
                                            );
                                            assert(all.take(all.len() as int) =~= all);
                                        }
                                        return Err(
                                            MaterializationError::MissingRecoverySource {
                                                item_id: item.id.clone(),
                                            },
                                        );
                                    },
                                },
                            };
                            let marker = marker_of(reference);
                            append_section(&mut output, "context-reference", "exact", marker.as_str().as_bytes());
                        },
                        ContextProjectionForm::Omitted => {},
                    }
                }
            },
        }
        i = i + 1;
    }
    proof {
        assert(all.take(i as int) =~= all);
    }
    let ghost acc = (output@, text_set(represented@));
    if let Some(checkpoint) = &state.committed_checkpoint {
        let mut cid = String::from_str("phenix:checkpoint:");
        cid.append(checkpoint.checkpoint_id.as_str());
        proof {
            assert(text_set(represented@.push(cid)) =~= text_set(represented@).insert(cid@)) by {
                assert forall|x: Seq<char>| #[trigger] text_set(represented@.push(cid)).contains(x)
                    implies text_set(represented@).insert(cid@).contains(x) by {
                    let j = choose|j: int| 0 <= j < represented@.push(cid).len()
                        && (#[trigger] represented@.push(cid)[j])@ == x;
                    if j < represented@.len() {
                        assert(represented@[j]@ == x);
                    }
                }
                assert forall|x: Seq<char>| text_set(represented@).insert(cid@).contains(x)
                    implies #[trigger] text_set(represented@.push(cid)).contains(x) by {
                    if x == cid@ {
                        assert(represented@.push(cid)[represented@.len() as int]@ == x);
                    } else {
                        let j = choose|j: int| 0 <= j < represented@.len()
                            && (#[trigger] represented@[j])@ == x;
                        assert(represented@.push(cid)[j]@ == x);
                    }
                }
            }
        }
        represented.push(cid);
        append_section(
            &mut output,
            "compact-context",
            checkpoint.checkpoint_id.as_str(),
            checkpoint.compact_view.as_slice(),
        );
    }
    let ghost rep = text_set(represented@);
    let ghost entries = state.admitted_seq();
    let n = state.admitted_len();
    let mut k: usize = 0;
    while k < n
        invariant
            state.wf(),
            state.revision == expected_projection,
            materialize_sections(assembly.sections@, state.admitted_items()) == Ok::<
                _,
                MaterializationError,
            >(acc),
            output@ == match state.committed_checkpoint {
                Some(c) => framed(
                    acc.0,
                    vstd::utf8::encode_utf8("compact-context"@),
                    vstd::utf8::encode_utf8(c.checkpoint_id@),
                    c.compact_view@,
                ),
                None => acc.0,
            },
            rep == match state.committed_checkpoint {
                Some(c) => acc.1.insert(checkpoint_item_id(c.checkpoint_id@)),
                None => acc.1,
            },
            entries == state.admitted_seq(),
            n == entries.len(),
            rep == text_set(represented@),
            k <= n,
            forall|j: int| 0 <= j < k ==> accounted(#[trigger] entries[j].1, rep),
        decreases n - k,
    {
        let item = state.admitted_at(k);
        let present = text_in(&represented, &item.id);
        if !present && !matches!(item.form, ContextProjectionForm::Omitted) && !matches!(
            item.retention,
            ContextRetention::Compact,
        ) {
            proof {
                let f = first_unaccounted(entries, rep);
                assert(!accounted(entries[k as int].1, rep));
                let c = choose|c: int|
                    0 <= c < entries.len() && !accounted(#[trigger] entries[c].1, rep) && forall|j: int|
                        0 <= j < c ==> accounted(#[trigger] entries[j].1, rep);
                assert(0 <= k < entries.len() && !accounted(entries[k as int].1, rep) && forall|j: int|
                    0 <= j < k ==> accounted(#[trigger] entries[j].1, rep));
                if c < k {
                    assert(accounted(entries[c].1, rep));
                } else if c > k {
                    assert(accounted(entries[k as int].1, rep));
                }
            }
            return Err(MaterializationError::NotMaterializable { item_id: item.id.clone() });
        }
        k = k + 1;
    }
    let prefix_len = output.len();
    let cache_prefix_bytes = prefix_len as u64;
    let mut material = be_bytes_of(state.revision.cache_epoch);
    push_bytes(&mut material, output.as_slice());
    append_section(&mut output, "request", "user", input);
    Ok(
        ContextInvocationMaterialization {
            input: output,
            projection: state.revision,
            cache_prefix_bytes,
            cache_identity_material: material,
        },
    )
}

// ---------------------------------------------------------------------------
// The projections of all executions
// ---------------------------------------------------------------------------

/// A projection step that changed nothing.
pub open spec fn projection_unchanged(a: ContextProjectionState, b: ContextProjectionState) -> bool {
    &&& a.execution_id == b.execution_id
    &&& a.revision == b.revision
    &&& a.admitted_items() == b.admitted_items()
    &&& a.prepared_proposals() == b.prepared_proposals()
    &&& a.committed_checkpoint == b.committed_checkpoint
}

/// A projection of execution `id` as it is created: revision zero, nothing
/// admitted, prepared or committed.
pub open spec fn fresh_projection(p: ContextProjectionState, id: Seq<char>) -> bool {
    &&& p.wf()
    &&& p.execution_id@ == id
    &&& p.revision == (ProjectionRevision { revision: 0, cache_epoch: 0 })
    &&& p.admitted_items() == Map::<Seq<char>, AdmittedContextItem>::empty()
    &&& p.prepared_proposals() == Map::<Seq<char>, CompactionProposal>::empty()
    &&& p.committed_checkpoint is None
}

/// Admission `result` applied to projection `b` gives `a` and answers `r`:
/// another execution's admission, or one whose cache epoch went backwards,
/// is refused and changes nothing; any other replaces the admitted items,
/// drops the prepared compactions and advances the revision to the
/// admission's cache epoch.
pub open spec fn admission_step(
    b: ContextProjectionState,
    result: ContextAdmissionResult,
    a: ContextProjectionState,
    r: Result<(), ProjectionStateError>,
) -> bool {
    if !(result.execution_id@ == b.execution_id@) {
        r == Err::<(), ProjectionStateError>(ProjectionStateError::ExecutionMismatch)
            && projection_unchanged(a, b)
    } else if result.cache_epoch < b.revision.cache_epoch {
        r == Err::<(), ProjectionStateError>(
            ProjectionStateError::StaleAdmissionEpoch {
                current: b.revision.cache_epoch,
                incoming: result.cache_epoch,
            },
        ) && projection_unchanged(a, b)
    } else {
        &&& r is Ok
        &&& a.execution_id == b.execution_id
        &&& a.committed_checkpoint == b.committed_checkpoint
        &&& a.revision == (ProjectionRevision {
            revision: saturating_next(b.revision.revision),
            cache_epoch: result.cache_epoch,
        })
        &&& a.admitted_items() == items_map(result.admitted@)
        &&& a.prepared_proposals() == Map::<Seq<char>, CompactionProposal>::empty()
    }
}

/// Preparing `proposal` (checked by `validation`) against `b` gives `a` and
/// answers `r`: a proposal of another execution, one that failed its check,
/// or one whose checkpoint is already prepared is refused and changes
/// nothing; any other is added to the prepared compactions.
pub open spec fn prepare_step(
    b: ContextProjectionState,
    proposal: CompactionProposal,
    validation: Result<(), String>,
    a: ContextProjectionState,
    r: Result<(), ProjectionStateError>,
) -> bool {
    &&& a.execution_id == b.execution_id
    &&& a.revision == b.revision
    &&& a.admitted_items() == b.admitted_items()
    &&& a.committed_checkpoint == b.committed_checkpoint
    &&& if !(proposal.execution_id@ == b.execution_id@) {
        r == Err::<(), ProjectionStateError>(ProjectionStateError::ExecutionMismatch)
            && a.prepared_proposals() == b.prepared_proposals()
    } else {
        match validation {
            Err(reason) => r == Err::<(), ProjectionStateError>(ProjectionStateError::Compaction { reason })
                && a.prepared_proposals() == b.prepared_proposals(),
            Ok(_) => if b.prepared_proposals().contains_key(proposal.checkpoint.checkpoint_id@) {
                r == Err::<(), ProjectionStateError>(
                    ProjectionStateError::DuplicatePreparedCheckpoint {
                        checkpoint_id: proposal.checkpoint.checkpoint_id,
                    },
                ) && a.prepared_proposals() == b.prepared_proposals()
            } else {
                r is Ok && a.prepared_proposals() == b.prepared_proposals().insert(
                    proposal.checkpoint.checkpoint_id@,
                    proposal,
                )
            },
        }
    }
}

/// Committing the prepared compaction `checkpoint_id` (checked by
/// `validation`) in `b` gives `a` and answers `r`: an unknown checkpoint
/// changes nothing; a known one leaves the prepared set, and if its check
/// fails nothing else changes; otherwise its transitions apply in order (up
/// to the first that names an unknown item, which is refused), and when all
/// apply the revision advances to the proposal's cache epoch, its
/// checkpoint is committed and every other prepared compaction is dropped.
pub open spec fn commit_step(
    b: ContextProjectionState,
    checkpoint_id: String,
    validation: Result<(), String>,
    a: ContextProjectionState,
    r: Result<CompactionCommit, ProjectionStateError>,
) -> bool {
    &&& a.execution_id == b.execution_id
    &&& if !b.prepared_proposals().contains_key(checkpoint_id@) {
        r == Err::<CompactionCommit, ProjectionStateError>(
            ProjectionStateError::UnknownPreparedCheckpoint { checkpoint_id },
        ) && projection_unchanged(a, b)
    } else {
        let p = b.prepared_proposals()[checkpoint_id@];
        let ts = p.transitions@;
        match validation {
            Err(reason) => {
                &&& r == Err::<CompactionCommit, ProjectionStateError>(
                    ProjectionStateError::Compaction { reason },
                )
                &&& a.prepared_proposals() == b.prepared_proposals().remove(checkpoint_id@)
                &&& a.admitted_items() == b.admitted_items()
                &&& a.revision == b.revision
                &&& a.committed_checkpoint == b.committed_checkpoint
            },
            Ok(_) => match first_unknown(b.admitted_items(), ts) {
                Some(k) => {
                    &&& r == Err::<CompactionCommit, ProjectionStateError>(
                        ProjectionStateError::UnknownContextItem { item_id: ts[k].item_id },
                    )
                    &&& a.prepared_proposals() == b.prepared_proposals().remove(checkpoint_id@)
                    &&& a.admitted_items() == apply_transitions(b.admitted_items(), ts.take(k))
                    &&& a.revision == b.revision
                    &&& a.committed_checkpoint == b.committed_checkpoint
                },
                None => {
                    let next = ProjectionRevision {
                        revision: saturating_next(b.revision.revision),
                        cache_epoch: p.next_cache_epoch,
                    };
                    &&& r == Ok::<CompactionCommit, ProjectionStateError>(
                        CompactionCommit { proposal: p, committed_projection: next },
                    )
                    &&& a.prepared_proposals() == Map::<Seq<char>, CompactionProposal>::empty()
                    &&& a.admitted_items() == apply_transitions(b.admitted_items(), ts)
                    &&& a.revision == next
                    &&& a.committed_checkpoint matches Some(c) && same_checkpoint(c, p.checkpoint)
                },
            },
        }
    }
}

/// A change of context outside projection `b` gives `a`: every prepared
/// compaction dropped and the revision advanced, nothing else changed.
pub open spec fn invalidation_step(b: ContextProjectionState, a: ContextProjectionState) -> bool {
    &&& a.execution_id == b.execution_id
    &&& a.admitted_items() == b.admitted_items()
    &&& a.committed_checkpoint == b.committed_checkpoint
    &&& a.prepared_proposals() == Map::<Seq<char>, CompactionProposal>::empty()
    &&& a.revision == (ProjectionRevision {
        revision: saturating_next(b.revision.revision),
        cache_epoch: b.revision.cache_epoch,
    })
}

/// The projection's own answer inside a service answer.
pub open spec fn projection_answer<T>(r: Result<T, ContextStateError>) -> Result<(), ProjectionStateError> {
    match r {
        Ok(_) => Ok(()),
        Err(ContextStateError::Projection(e)) => Err(e),
        Err(_) => Err(ProjectionStateError::ExecutionMismatch),
    }
}

/// Every projection but that of `k` is as it was.
pub open spec fn others_unchanged(
    a: Map<Seq<char>, ContextProjectionState>,
    b: Map<Seq<char>, ContextProjectionState>,
    k: Seq<char>,
) -> bool {
    forall|j: Seq<char>| j != k && #[trigger] b.contains_key(j) ==> a[j] == b[j]
}

/// Why a projection command was refused.
#[derive(Clone, Debug, PartialEq, Eq)]
pub enum ContextStateError {
    Admission { reason: String },
    UnknownExecution { execution_id: String },
    Projection(ProjectionStateError),
}

/// The projection state of every execution, keyed by execution.
pub struct ContextStateService {
    projections: TextMap<ContextProjectionState>,
}

impl ContextStateService {
    pub closed spec fn wf(self) -> bool {
        &&& self.projections.wf()
        &&& forall|k: Seq<char>| #[trigger] self.projections@.contains_key(k) ==> self.projections@[k].wf()
            && self.projections@[k].execution_id@ == k
    }

    pub closed spec fn projections(self) -> Map<Seq<char>, ContextProjectionState> {
        self.projections@
    }

    pub fn new() -> (r: Self)
        ensures
            r.wf(),
            r.projections() == Map::<Seq<char>, ContextProjectionState>::empty(),
    {
        ContextStateService { projections: TextMap::new() }
    }

    pub fn projection(&self, execution_id: &String) -> (r: Option<&ContextProjectionState>)
        requires
            self.wf(),
        ensures
            match r {
                Some(p) => self.projections().contains_key(execution_id@) && self.projections()[execution_id@]
                    == *p && p.wf(),
                None => !self.projections().contains_key(execution_id@),
            },
    {
        self.projections.get(execution_id)
    }

    pub fn projection_revision(&self, execution_id: &String) -> (r: Option<ProjectionRevision>)
        requires
            self.wf(),
        ensures
            match r {
                Some(v) => self.projections().contains_key(execution_id@)
                    && self.projections()[execution_id@].revision == v,
                None => !self.projections().contains_key(execution_id@),
            },
    {
        match self.projections.get(execution_id) {
            Some(p) => Some(p.revision),
            None => None,
        }
    }

    /// Applies an admission (`admission`, the outcome of the admission
    /// policy) to the execution's projection, which is created first if the
    /// execution has none.
    pub fn apply_admission(&mut self, execution_id: String, admission: Result<ContextAdmissionResult, String>) -> (r:
        Result<ContextAdmissionResult, ContextStateError>)
        requires
            old(self).wf(),
        ensures
            final(self).wf(),
            match admission {
                Err(reason) => r == Err::<ContextAdmissionResult, _>(ContextStateError::Admission { reason })
                    && final(self).projections() == old(self).projections(),
                Ok(result) => {
                    &&& final(self).projections().dom() == old(self).projections().dom().insert(
                        execution_id@,
                    )
                    &&& others_unchanged(final(self).projections(), old(self).projections(), execution_id@)
                    &&& match r {
                        Ok(v) => v == result,
                        Err(e) => e matches ContextStateError::Projection(_),
                    }
                    &&& old(self).projections().contains_key(execution_id@) ==> admission_step(
                        old(self).projections()[execution_id@],
                        result,
                        final(self).projections()[execution_id@],
                        projection_answer(r),
                    )
                    &&& !old(self).projections().contains_key(execution_id@) ==> exists|b: ContextProjectionState|
                        fresh_projection(b, execution_id@) && admission_step(
                            b,
                            result,
                            final(self).projections()[execution_id@],
                            projection_answer(r),
                        )
                },
            },
    {
        let result = match admission {
            Err(reason) => {
                return Err(ContextStateError::Admission { reason });
            },
            Ok(result) => result,
        };
        let mut state = match self.projections.remove(&execution_id) {
            Some(p) => p,
            None => ContextProjectionState::new(execution_id.clone()),
        };
        let ghost before = state;
        let outcome = state.apply_admission(clone_admission(&result));
        let ghost after = state;
        self.projections.insert(execution_id, state);
        proof {
            assert(final_dom_ok(self.projections@, old(self).projections@, execution_id@));
            assert(self.projections@[execution_id@] == after);
            if !old(self).projections@.contains_key(execution_id@) {
                assert(fresh_projection(before, execution_id@));
            }
        }
        match outcome {
            Ok(()) => Ok(result),
            Err(e) => Err(ContextStateError::Projection(e)),
        }
    }

    /// Prepares a compaction against the projection of the proposal's execution.
    pub fn prepare_compaction(&mut self, proposal: CompactionProposal, validation: Result<(), String>) -> (r:
        Result<ProjectionRevision, ContextStateError>)
        requires
            old(self).wf(),
        ensures
            final(self).wf(),
            final(self).projections().dom() == old(self).projections().dom(),
            !old(self).projections().contains_key(proposal.execution_id@) ==> r == Err::<
                ProjectionRevision,
                _,
            >(ContextStateError::UnknownExecution { execution_id: proposal.execution_id })
                && final(self).projections() == old(self).projections(),
            old(self).projections().contains_key(proposal.execution_id@) ==> {
                &&& prepare_step(
                    old(self).projections()[proposal.execution_id@],
                    proposal,
                    validation,
                    final(self).projections()[proposal.execution_id@],
                    projection_answer(r),
                )
                &&& others_unchanged(final(self).projections(), old(self).projections(), proposal.execution_id@)
                &&& r matches Err(e) ==> e matches ContextStateError::Projection(_)
            },
            r matches Ok(v) ==> v == old(self).projections()[proposal.execution_id@].revision,
    {
        let execution_id = proposal.execution_id.clone();
        let mut state = match self.projections.remove(&execution_id) {
            Some(p) => p,
            None => {
                return Err(ContextStateError::UnknownExecution { execution_id });
            },
        };
        let outcome = state.prepare_compaction(proposal, validation);
        let revision = state.revision;
        let ghost after = state;
        self.projections.insert(execution_id, state);
        assert(self.projections@[proposal.execution_id@] == after);
        proof {
            assert(self.projections@.dom() =~= old(self).projections@.dom());
        }
        match outcome {
            Ok(()) => Ok(revision),
            Err(e) => Err(ContextStateError::Projection(e)),
        }
    }

    /// Commits a prepared compaction of an execution's projection.
    pub fn commit_compaction(
        &mut self,
        execution_id: &String,
        checkpoint_id: &String,
        validation: Result<(), String>,
    ) -> (r: Result<CompactionCommit, ContextStateError>)
        requires
            old(self).wf(),
        ensures
            final(self).wf(),
            final(self).projections().dom() == old(self).projections().dom(),
            !old(self).projections().contains_key(execution_id@) ==> r == Err::<CompactionCommit, _>(
                ContextStateError::UnknownExecution { execution_id: *execution_id },
            ) && final(self).projections() == old(self).projections(),
            old(self).projections().contains_key(execution_id@) ==> {
                &&& commit_step(
                    old(self).projections()[execution_id@],
                    *checkpoint_id,
                    validation,
                    final(self).projections()[execution_id@],
                    match r {
                        Ok(c) => Ok(c),
                        Err(ContextStateError::Projection(e)) => Err(e),
                        Err(_) => Err(ProjectionStateError::ExecutionMismatch),
                    },
                )
                &&& others_unchanged(final(self).projections(), old(self).projections(), execution_id@)
                &&& r matches Err(e) ==> e matches ContextStateError::Projection(_)
            },
    {
        let mut state = match self.projections.remove(execution_id) {
            Some(p) => p,
            None => {
                return Err(ContextStateError::UnknownExecution { execution_id: execution_id.clone() });
            },
        };
        let outcome = state.commit_compaction(checkpoint_id, validation);
        let ghost after = state;
        self.projections.insert(execution_id.clone(), state);
        assert(self.projections@[execution_id@] == after);
        proof {
            assert(self.projections@.dom() =~= old(self).projections@.dom());
        }
        match outcome {
            Ok(c) => Ok(c),
            Err(e) => Err(ContextStateError::Projection(e)),
        }
    }

    /// Invalidates an execution's projection, if it has one, and returns its new revision.
    pub fn invalidate_if_present(&mut self, execution_id: &String) -> (r: Option<ProjectionRevision>)
        requires
            old(self).wf(),
        ensures
            final(self).wf(),
            final(self).projections().dom() == old(self).projections().dom(),
            match r {
                None => !old(self).projections().contains_key(execution_id@) && final(self).projections()
                    == old(self).projections(),
                Some(v) => {
                    let p = old(self).projections()[execution_id@];
                    &&& old(self).projections().contains_key(execution_id@)
                    &&& v == (ProjectionRevision {
                        revision: saturating_next(p.revision.revision),
                        cache_epoch: p.revision.cache_epoch,
                    })
                    &&& final(self).projections()[execution_id@].revision == v
                    &&& invalidation_step(p, final(self).projections()[execution_id@])
                    &&& others_unchanged(final(self).projections(), old(self).projections(), execution_id@)
                },
            },
    {
        let mut state = match self.projections.remove(execution_id) {
            Some(p) => p,
            None => {
                return None;
            },
        };
        state.invalidate_for_context_mutation();
        let revision = state.revision;
        let ghost after = state;
        self.projections.insert(execution_id.clone(), state);
        assert(self.projections@[execution_id@] == after);
        proof {
            assert(self.projections@.dom() =~= old(self).projections@.dom());
        }
        Some(revision)
    }

    /// Invalidates an execution's projection, which must exist.
    pub fn invalidate_projection(&mut self, execution_id: &String) -> (r: Result<ProjectionRevision, ContextStateError>)
        requires
            old(self).wf(),
        ensures
            final(self).wf(),
            final(self).projections().dom() == old(self).projections().dom(),
            !old(self).projections().contains_key(execution_id@) ==> r == Err::<ProjectionRevision, _>(
                ContextStateError::UnknownExecution { execution_id: *execution_id },
            ) && final(self).projections() == old(self).projections(),
            old(self).projections().contains_key(execution_id@) ==> {
                &&& r matches Ok(v) && v == final(self).projections()[execution_id@].revision
                &&& invalidation_step(
                    old(self).projections()[execution_id@],
                    final(self).projections()[execution_id@],
                )
                &&& others_unchanged(final(self).projections(), old(self).projections(), execution_id@)
            },
    {
        match self.invalidate_if_present(execution_id) {
            Some(v) => Ok(v),
            None => Err(ContextStateError::UnknownExecution { execution_id: execution_id.clone() }),
        }
    }
}

spec fn final_dom_ok(
    after: Map<Seq<char>, ContextProjectionState>,
    before: Map<Seq<char>, ContextProjectionState>,
    k: Seq<char>,
) -> bool {
    after.dom() =~= before.dom().insert(k)
}

fn clone_item(item: &AdmittedContextItem) -> (r: AdmittedContextItem)
    ensures
        r == *item,
{
    AdmittedContextItem {
        id: item.id.clone(),
        source: clone_source(&item.source),
        content_identity: item.content_identity.clone(),
        form: item.form,
        cache: item.cache,
        retention: item.retention,
        estimated_tokens: item.estimated_tokens,
        recovery: clone_optional_reference(&item.recovery),
    }
}

fn clone_items(v: &Vec<AdmittedContextItem>) -> (c: Vec<AdmittedContextItem>)
    ensures
        c@ == v@,
{
    let mut c: Vec<AdmittedContextItem> = Vec::new();
    let mut i: usize = 0;
    while i < v.len()
        invariant
            i <= v@.len(),
            c@ == v@.take(i as int),
        decreases v@.len() - i,
    {
        c.push(clone_item(&v[i]));
        proof {
            assert(v@.take(i + 1) =~= v@.take(i as int).push(v@[i as int]));
        }
        i = i + 1;
    }
    proof {
        assert(v@.take(i as int) =~= v@);
    }
    c
}

fn clone_admission(a: &ContextAdmissionResult) -> (r: ContextAdmissionResult)
    ensures
        r.execution_id == a.execution_id,
        r.cache_epoch == a.cache_epoch,
        r.admitted@ == a.admitted@,
{
    ContextAdmissionResult {
        execution_id: a.execution_id.clone(),
        policy_revision: a.policy_revision.clone(),
        cache_epoch: a.cache_epoch,
        admitted: clone_items(&a.admitted),
        used_input_tokens: a.used_input_tokens,
        omitted_input_tokens: a.omitted_input_tokens,
        deduplicated_items: a.deduplicated_items,
    }
}

// ---------------------------------------------------------------------------
// Loading a resource into an execution
// ---------------------------------------------------------------------------

/// Who asked for context to be loaded.
#[derive(Clone, Copy, Debug, PartialEq, Eq, Structural)]
pub enum ContextInjectionRequester {
    User,
    Orchestration,
}

/// How long a load lasts.
#[derive(Clone, Copy, Debug, PartialEq, Eq, Structural)]
pub enum ContextInjectionLifetime {
    Execution,
}

/// One load of an exact resource revision into an execution.
#[derive(Clone, Debug, PartialEq, Eq)]
pub struct ContextInjection {
    pub sequence: u64,
    pub execution_id: String,
    pub source: ExactContextReference,
    pub requester: ContextInjectionRequester,
    pub lifetime: ContextInjectionLifetime,
    pub reason: String,
}

/// What a load comes to.
#[derive(Clone, Debug, PartialEq, Eq)]
pub enum ContextLoad {
    /// The admission was already recorded with the same injection: it is returned as it was.
    Replayed(ContextInjection),
    /// A new injection, appended to the execution's injections.
    Appended { injection: ContextInjection, injections: Vec<ContextInjection> },
}

/// Why a load was refused.
#[derive(Clone, Debug, PartialEq, Eq)]
pub enum ContextLoadError {
    EmptyExecutionId,
    EmptyReason,
    EmptyAdmissionId,
    AdmissionReused { admission_id: String },
    SequenceExhausted,
}

pub open spec fn same_reference(a: ExactContextReference, b: ExactContextReference) -> bool {
    a.resource_id@ == b.resource_id@ && a.revision@ == b.revision@
}

/// Whether a recorded injection is the one a repeated admission asks for.
pub open spec fn same_injection_request(
    existing: ContextInjection,
    execution_id: Seq<char>,
    source: ExactContextReference,
    requester: ContextInjectionRequester,
    lifetime: ContextInjectionLifetime,
    reason: Seq<char>,
) -> bool {
    &&& existing.execution_id@ == execution_id
    &&& same_reference(existing.source, source)
    &&& existing.requester == requester
    &&& existing.lifetime == lifetime
    &&& existing.reason@ == reason
}

/// Decides a load of a resource revision into an execution, given the
/// receipt already recorded for its admission (if it names one) and the
/// execution's injections so far. A repeated admission returns the recorded
/// injection if it asked for the same thing, and fails if it did not; a new
/// load is appended with the next sequence number.
pub fn plan_context_load(
    execution_id: String,
    source: ExactContextReference,
    requester: ContextInjectionRequester,
    lifetime: ContextInjectionLifetime,
    reason: String,
    admission_id: Option<String>,
    existing_receipt: Option<ContextInjection>,
    injections: Vec<ContextInjection>,
) -> (r: Result<ContextLoad, ContextLoadError>)
    ensures
        (admission_id matches Some(a) && is_blank(a@)) ==> r == Err::<ContextLoad, _>(
            ContextLoadError::EmptyAdmissionId,
        ),
        !(admission_id matches Some(a) && is_blank(a@)) && is_blank(execution_id@) ==> r == Err::<
            ContextLoad,
            _,
        >(ContextLoadError::EmptyExecutionId),
        !(admission_id matches Some(a) && is_blank(a@)) && !is_blank(execution_id@) && is_blank(reason@)
            ==> r == Err::<ContextLoad, _>(ContextLoadError::EmptyReason),
        !(admission_id matches Some(a) && is_blank(a@)) && !is_blank(execution_id@) && !is_blank(reason@)
            ==> match admission_id {
            Some(a) if existing_receipt is Some => if same_injection_request(
                existing_receipt->0,
                execution_id@,
                source,
                requester,
                lifetime,
                reason@,
            ) {
                r == Ok::<_, ContextLoadError>(ContextLoad::Replayed(existing_receipt->0))
            } else {
                r == Err::<ContextLoad, _>(ContextLoadError::AdmissionReused { admission_id: a })
            },
            _ => if injections@.len() + 1 > u64::MAX {
                r == Err::<ContextLoad, _>(ContextLoadError::SequenceExhausted)
            } else {
                r matches Ok(ContextLoad::Appended { injection, injections: all }) && {
                    &&& injection == (ContextInjection {
                        sequence: (injections@.len() + 1) as u64,
                        execution_id,
                        source,
                        requester,
                        lifetime,
                        reason,
                    })
                    &&& all@ == injections@.push(injection)
                }
            },
        },
{
    if let Some(a) = &admission_id {
        if is_blank_str(a.as_str()) {
            return Err(ContextLoadError::EmptyAdmissionId);
        }
    }
    if is_blank_str(execution_id.as_str()) {
        return Err(ContextLoadError::EmptyExecutionId);
    }
    if is_blank_str(reason.as_str()) {
        return Err(ContextLoadError::EmptyReason);
    }
    if let Some(a) = &admission_id {
        if let Some(existing) = existing_receipt {
            if existing.execution_id == execution_id && existing.source.resource_id
                == source.resource_id && existing.source.revision == source.revision
                && existing.requester == requester && existing.lifetime == lifetime
                && existing.reason == reason {
                return Ok(ContextLoad::Replayed(existing));
            }
            return Err(ContextLoadError::AdmissionReused { admission_id: a.clone() });
        }
    }
    let count = injections.len();
    if count as u128 + 1 > u64::MAX as u128 {
        return Err(ContextLoadError::SequenceExhausted);
    }
    let injection = ContextInjection {
        sequence: count as u64 + 1,
        execution_id,
        source,
        requester,
        lifetime,
        reason,
    };
    let mut all = injections;
    all.push(clone_injection(&injection));
    Ok(ContextLoad::Appended { injection, injections: all })
}

fn clone_injection(i: &ContextInjection) -> (r: ContextInjection)
    ensures
        r == *i,
{
    ContextInjection {
        sequence: i.sequence,
        execution_id: i.execution_id.clone(),
        source: clone_reference(&i.source),
        requester: i.requester,
        lifetime: i.lifetime,
        reason: i.reason.clone(),
    }
}

// ---------------------------------------------------------------------------
// Laws
// ---------------------------------------------------------------------------

/// The request does not change what is cacheable: materializing the same
/// sections and projection with any two requests gives the same prefix, and
/// the one succeeds exactly when the other does.
pub proof fn lemma_request_does_not_change_cache_prefix(
    sections: Seq<PromptSection>,
    admitted: Map<Seq<char>, AdmittedContextItem>,
    admitted_seq: Seq<(String, AdmittedContextItem)>,
    checkpoint: Option<ProjectionCheckpoint>,
    a: Seq<u8>,
    b: Seq<u8>,
)
    ensures
        materialization(sections, admitted, admitted_seq, checkpoint, a) is Ok
            <==> materialization(sections, admitted, admitted_seq, checkpoint, b) is Ok,
        materialization(sections, admitted, admitted_seq, checkpoint, a) matches Ok(x)
            ==> materialization(sections, admitted, admitted_seq, checkpoint, b) matches Ok(y) && x.1 == y.1,
{
}

/// The full context precedes the request: the material a model is given
/// starts with the cacheable prefix, and the request comes last.
pub proof fn lemma_context_precedes_request(
    sections: Seq<PromptSection>,
    admitted: Map<Seq<char>, AdmittedContextItem>,
    admitted_seq: Seq<(String, AdmittedContextItem)>,
    checkpoint: Option<ProjectionCheckpoint>,
    input: Seq<u8>,
)
    requires
        materialization(sections, admitted, admitted_seq, checkpoint, input) is Ok,
    ensures
        ({
            let (bytes, prefix) = materialization(sections, admitted, admitted_seq, checkpoint, input)->Ok_0;
            &&& bytes.take(prefix.len() as int) == prefix
            &&& bytes.skip(bytes.len() - input.len() - 1) == input.push(10u8)
        }),
{
    let (bytes, prefix) = materialization(sections, admitted, admitted_seq, checkpoint, input)->Ok_0;
    assert(bytes.take(prefix.len() as int) =~= prefix);
    assert(bytes.skip(bytes.len() - input.len() - 1) =~= input.push(10u8));
}

/// Different cache epochs give different identity material, even when the
/// cacheable prefixes are the same bytes.
pub proof fn lemma_cache_epoch_changes_identity(a: u64, b: u64, prefix: Seq<u8>)
    requires
        a != b,
    ensures
        be_bytes(a) + prefix != be_bytes(b) + prefix,
{
    if be_bytes(a) + prefix == be_bytes(b) + prefix {
        assert((be_bytes(a) + prefix).take(8) =~= be_bytes(a));
        assert((be_bytes(b) + prefix).take(8) =~= be_bytes(b));
        assert(be_bytes(a) == be_bytes(b));
        assert(be_bytes(a)[7] == be_bytes(b)[7]);
        assert(be_bytes(a)[6] == be_bytes(b)[6]);
        assert(be_bytes(a)[5] == be_bytes(b)[5]);
        assert(be_bytes(a)[4] == be_bytes(b)[4]);
        assert(be_bytes(a)[3] == be_bytes(b)[3]);
        assert(be_bytes(a)[2] == be_bytes(b)[2]);
        assert(be_bytes(a)[1] == be_bytes(b)[1]);
        assert(be_bytes(a)[0] == be_bytes(b)[0]);
        assert(a == b) by (nonlinear_arith)
            requires
                (a / 0x100000000000000) as u8 == (b / 0x100000000000000) as u8,
                ((a / 0x1000000000000) % 256) as u8 == ((b / 0x1000000000000) % 256) as u8,
                ((a / 0x10000000000) % 256) as u8 == ((b / 0x10000000000) % 256) as u8,
                ((a / 0x100000000) % 256) as u8 == ((b / 0x100000000) % 256) as u8,
                ((a / 0x1000000) % 256) as u8 == ((b / 0x1000000) % 256) as u8,
                ((a / 0x10000) % 256) as u8 == ((b / 0x10000) % 256) as u8,
                ((a / 0x100) % 256) as u8 == ((b / 0x100) % 256) as u8,
                (a % 256) as u8 == (b % 256) as u8,
        ;
    }
}


/// A section whose admitted item is omitted shows nothing: taking it out of
/// the prompt leaves the framed bytes of the sections unchanged.
pub proof fn lemma_omitted_section_adds_no_bytes(
    sections: Seq<PromptSection>,
    admitted: Map<Seq<char>, AdmittedContextItem>,
    i: int,
)
    requires
        0 <= i < sections.len(),
        admitted.contains_key(section_id_spec(sections[i])),
        admitted[section_id_spec(sections[i])].form == ContextProjectionForm::Omitted,
        materialize_sections(sections, admitted) is Ok,
    ensures
        materialize_sections(sections.remove(i), admitted) is Ok,
        materialize_sections(sections.remove(i), admitted)->Ok_0.0 == materialize_sections(
            sections,
            admitted,
        )->Ok_0.0,
    decreases sections.len(),
{
    let t = sections.drop_last();
    if materialize_sections(t, admitted) is Err {
        assert(materialize_sections(sections, admitted) is Err);
    }
    if i == sections.len() - 1 {
        assert(sections.remove(i) =~= t);
    } else {
        assert(t[i] == sections[i]);
        lemma_omitted_section_adds_no_bytes(t, admitted, i);
        let u = sections.remove(i);
        assert(u.drop_last() =~= t.remove(i));
        assert(u.last() == sections.last());
    }
}

} // verus!
