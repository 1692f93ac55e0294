//! Language evidence: provider epochs per workspace, the checks on documents,
//! revisions and lineage, the storage keys, and the write decisions that keep
//! recorded revisions immutable and the current revision monotonic.
use crate::context_recovery::{clone_option_text, option_text_eq, option_text_equal, option_text_view};
use crate::identity::{is_blank, is_blank_str};
use crate::text::{decimal, decimal_string};
use crate::text::bytes_lt;
use crate::text_map::{has_entry, key_bytes, TextMap};
use vstd::prelude::*;

verus! {

/// A provider epoch; epochs start at one.
#[derive(Clone, Copy, Debug, PartialEq, Eq, Structural)]
pub struct ProviderEpoch {
    value: u64,
}

impl ProviderEpoch {
    pub closed spec fn spec_get(&self) -> u64 {
        self.value
    }

    /// Rejects the epoch zero.
    pub fn new(value: u64) -> (r: Result<ProviderEpoch, LanguageError>)
        ensures
            value == 0 <==> r is Err,
            r matches Ok(e) ==> e.spec_get() == value,
            r matches Err(e) ==> e == LanguageError::ZeroEpoch,
    {
        if value == 0 {
            Err(LanguageError::ZeroEpoch)
        } else {
            Ok(ProviderEpoch { value })
        }
    }

    #[verifier::when_used_as_spec(spec_get)]
    pub fn get(&self) -> (r: u64)
        ensures
            r == self.spec_get(),
    {
        self.value
    }
}

/// Where the text behind a piece of language evidence came from.
#[derive(Clone, Copy, Debug, PartialEq, Eq, Structural)]
pub enum DocumentProvenance {
    WorkspaceBacked,
    FrontendUnsaved,
}

/// A document that language evidence speaks of.
#[derive(Clone, Debug, PartialEq, Eq)]
pub struct LanguageDocumentIdentity {
    pub path: String,
    pub file_version: Option<String>,
    pub provenance: DocumentProvenance,
}

/// The identity fields that the language service checks for blank values.
#[derive(Clone, Copy, Debug, PartialEq, Eq, Structural)]
pub enum LanguageField {
    WorkspaceId,
    ProviderId,
    DocumentPath,
    ObservationId,
    ConsumingExecutionId,
    RepositoryId,
    EntityId,
    EntityRevision,
    EntityName,
    ExistenceFacet,
    NameLocationFacet,
    SignatureIdentity,
    BodyIdentity,
    SignatureFacet,
    BodyFacet,
    RelationFacet,
    RelationFacetRevision,
    LineageSource,
    LineageTarget,
    LineageEvidence,
    ContinuityReason,
}

/// The name of a field in messages.
pub open spec fn field_label(f: LanguageField) -> Seq<char> {
    match f {
        LanguageField::WorkspaceId => "workspace id"@,
        LanguageField::ProviderId => "language provider id"@,
        LanguageField::DocumentPath => "language document path"@,
        LanguageField::ObservationId => "language observation id"@,
        LanguageField::ConsumingExecutionId => "consuming execution id"@,
        LanguageField::RepositoryId => "code repository id"@,
        LanguageField::EntityId => "logical code entity id"@,
        LanguageField::EntityRevision => "code entity revision"@,
        LanguageField::EntityName => "code entity name"@,
        LanguageField::ExistenceFacet => "existence facet revision"@,
        LanguageField::NameLocationFacet => "name/location facet revision"@,
        LanguageField::SignatureIdentity => "signature identity"@,
        LanguageField::BodyIdentity => "body identity"@,
        LanguageField::SignatureFacet => "signature facet revision"@,
        LanguageField::BodyFacet => "body facet revision"@,
        LanguageField::RelationFacet => "relation facet"@,
        LanguageField::RelationFacetRevision => "relation facet revision"@,
        LanguageField::LineageSource => "lineage source entity id"@,
        LanguageField::LineageTarget => "lineage target entity id"@,
        LanguageField::LineageEvidence => "lineage evidence observation id"@,
        LanguageField::ContinuityReason => "identity continuity reason"@,
    }
}

impl LanguageField {
    pub fn label(&self) -> (r: &'static str)
        ensures
            r@ == field_label(*self),
    {
        match self {
            LanguageField::WorkspaceId => "workspace id",
            LanguageField::ProviderId => "language provider id",
            LanguageField::DocumentPath => "language document path",
            LanguageField::ObservationId => "language observation id",
            LanguageField::ConsumingExecutionId => "consuming execution id",
            LanguageField::RepositoryId => "code repository id",
            LanguageField::EntityId => "logical code entity id",
            LanguageField::EntityRevision => "code entity revision",
            LanguageField::EntityName => "code entity name",
            LanguageField::ExistenceFacet => "existence facet revision",
            LanguageField::NameLocationFacet => "name/location facet revision",
            LanguageField::SignatureIdentity => "signature identity",
            LanguageField::BodyIdentity => "body identity",
            LanguageField::SignatureFacet => "signature facet revision",
            LanguageField::BodyFacet => "body facet revision",
            LanguageField::RelationFacet => "relation facet",
            LanguageField::RelationFacetRevision => "relation facet revision",
            LanguageField::LineageSource => "lineage source entity id",
            LanguageField::LineageTarget => "lineage target entity id",
            LanguageField::LineageEvidence => "lineage evidence observation id",
            LanguageField::ContinuityReason => "identity continuity reason",
        }
    }
}

/// Why the language service refused a request.
#[derive(Clone, Debug, PartialEq, Eq)]
pub enum LanguageError {
    EmptyIdentity { field: LanguageField },
    MissingFileVersion,
    ZeroEpoch,
    EpochNotAdvanced { current: u64 },
    ProviderChanged { active: Option<(String, u64)> },
    ZeroSequence,
    RevisionConflict { revision: String },
    SequenceNotAdvanced { sequence: u64, current: u64 },
    LineageIdentityChanged,
    LineageIdentityReused,
    LineageConflict,
    FallbackPathMismatch { requested: String, observed: String },
    FallbackAbsent { path: String },
}

/// A logical code entity: its identity does not depend on name or location.
#[derive(Clone, Debug, PartialEq, Eq)]
pub struct LogicalCodeEntity {
    pub id: String,
    pub repository_id: String,
}

/// The revision of each facet of an entity.
#[derive(Clone, Debug, PartialEq, Eq)]
pub struct CodeEntityFacetRevisions {
    pub existence: String,
    pub name_location: String,
    pub signature: Option<String>,
    pub body: Option<String>,
    pub relations: TextMap<String>,
}

/// One immutable revision of a logical code entity.
#[derive(Clone, Debug, PartialEq, Eq)]
pub struct CodeEntityRevision {
    pub entity: LogicalCodeEntity,
    pub revision: String,
    pub sequence: u64,
    pub document: LanguageDocumentIdentity,
    pub symbol: Option<String>,
    pub name: String,
    pub signature_identity: Option<String>,
    pub body_identity: Option<String>,
    pub provider_id: String,
    pub provider_epoch: ProviderEpoch,
    pub facets: CodeEntityFacetRevisions,
}

/// How one logical entity became another.
#[derive(Clone, Copy, Debug, PartialEq, Eq, Structural)]
pub enum CodeEntityLineageKind {
    Rename,
    Move,
    Replacement,
    Extract,
    Split,
    Merge,
}

#[derive(Clone, Copy, Debug, PartialEq, Eq, Structural)]
pub enum CodeEntityLineageConfidence {
    Confirmed,
    Tentative,
}

/// A lineage link between two logical entities, with its evidence.
#[derive(Clone, Debug, PartialEq, Eq)]
pub struct CodeEntityLineage {
    pub from_entity_id: String,
    pub to_entity_id: String,
    pub kind: CodeEntityLineageKind,
    pub confidence: CodeEntityLineageConfidence,
    pub evidence_observation_ids: Vec<String>,
}

/// The provider that is active for a workspace.
#[derive(Clone, Debug, PartialEq, Eq)]
pub struct LanguageProviderEpoch {
    pub workspace_id: String,
    pub provider_id: String,
    pub epoch: ProviderEpoch,
}

// ---------------------------------------------------------------------------
// Checks
// ---------------------------------------------------------------------------

pub open spec fn blank_error(field: LanguageField, value: Seq<char>) -> Option<LanguageError> {
    if is_blank(value) {
        Some(LanguageError::EmptyIdentity { field })
    } else {
        None
    }
}

/// Fails with `EmptyIdentity` naming `field` when `value` is blank.
pub fn check_identity(field: LanguageField, value: &str) -> (r: Result<(), LanguageError>)
    ensures
        r is Err <==> is_blank(value@),
        r matches Err(e) ==> e == (LanguageError::EmptyIdentity { field }),
{
    if is_blank_str(value) {
        Err(LanguageError::EmptyIdentity { field })
    } else {
        Ok(())
    }
}

/// What is wrong with one document, if anything.
pub open spec fn document_error(d: LanguageDocumentIdentity) -> Option<LanguageError> {
    if is_blank(d.path@) {
        Some(LanguageError::EmptyIdentity { field: LanguageField::DocumentPath })
    } else if d.provenance == DocumentProvenance::WorkspaceBacked && match d.file_version {
        None => true,
        Some(v) => v@.len() == 0,
    } {
        Some(LanguageError::MissingFileVersion)
    } else {
        None
    }
}

/// The error of the first element of `s` that `f` finds fault with.
pub open spec fn first_error<T>(s: Seq<T>, f: spec_fn(T) -> Option<LanguageError>) -> Option<
    LanguageError,
> {
    if exists|i: int| 0 <= i < s.len() && (#[trigger] f(s[i])) is Some {
        let i = choose|i: int|
            0 <= i < s.len() && (#[trigger] f(s[i])) is Some && forall|j: int|
                0 <= j < i ==> (#[trigger] f(s[j])) is None;
        f(s[i])
    } else {
        None
    }
}

pub proof fn lemma_first_error_at<T>(s: Seq<T>, f: spec_fn(T) -> Option<LanguageError>, i: int)
    requires
        0 <= i < s.len(),
        f(s[i]) is Some,
        forall|j: int| 0 <= j < i ==> (#[trigger] f(s[j])) is None,
    ensures
        first_error(s, f) == f(s[i]),
{
    assert(exists|k: int| 0 <= k < s.len() && (#[trigger] f(s[k])) is Some);
    let k = choose|k: int|
        0 <= k < s.len() && (#[trigger] f(s[k])) is Some && forall|j: int|
            0 <= j < k ==> (#[trigger] f(s[j])) is None;
    assert(0 <= i < s.len() && f(s[i]) is Some && forall|j: int|
        0 <= j < i ==> (#[trigger] f(s[j])) is None);
    if k < i {
        assert(f(s[k]) is None);
    } else if k > i {
        assert(f(s[i]) is None);
    }
}

pub proof fn lemma_first_error_none<T>(s: Seq<T>, f: spec_fn(T) -> Option<LanguageError>)
    requires
        forall|j: int| 0 <= j < s.len() ==> (#[trigger] f(s[j])) is None,
    ensures
        first_error(s, f) is None,
{
}

/// The error of the first document that fails its check.
pub open spec fn documents_error(docs: Seq<LanguageDocumentIdentity>) -> Option<LanguageError> {
    first_error(docs, |d: LanguageDocumentIdentity| document_error(d))
}

fn check_document(d: &LanguageDocumentIdentity) -> (r: Result<(), LanguageError>)
    ensures
        match document_error(*d) {
            Some(e) => r == Err::<(), LanguageError>(e),
            None => r is Ok,
        },
{
    check_identity(LanguageField::DocumentPath, d.path.as_str())?;
    if matches!(d.provenance, DocumentProvenance::WorkspaceBacked) {
        let missing = match &d.file_version {
            None => true,
            Some(v) => v.unicode_len() == 0,
        };
        if missing {
            return Err(LanguageError::MissingFileVersion);
        }
    }
    Ok(())
}

/// Every document needs a path; workspace-backed evidence needs an exact file version.
pub fn validate_documents(documents: &Vec<LanguageDocumentIdentity>) -> (r: Result<(), LanguageError>)
    ensures
        match documents_error(documents@) {
            Some(e) => r == Err::<(), LanguageError>(e),
            None => r is Ok,
        },
{
    let ghost f = |d: LanguageDocumentIdentity| document_error(d);
    let mut i: usize = 0;
    while i < documents.len()
        invariant
            i <= documents@.len(),
            f == (|d: LanguageDocumentIdentity| document_error(d)),
            forall|j: int| 0 <= j < i ==> (#[trigger] f(documents@[j])) is None,
        decreases documents@.len() - i,
    {
        let checked = check_document(&documents[i]);
        if checked.is_err() {
            proof {
                lemma_first_error_at(documents@, f, i as int);
            }
            return checked;
        }
        i = i + 1;
    }
    proof {
        lemma_first_error_none(documents@, f);
    }
    Ok(())
}

pub open spec fn optional_blank_error(field: LanguageField, value: Option<String>) -> Option<
    LanguageError,
> {
    match value {
        Some(v) => blank_error(field, v@),
        None => None,
    }
}

pub open spec fn relation_error(e: (String, String)) -> Option<LanguageError> {
    if is_blank(e.0@) {
        Some(LanguageError::EmptyIdentity { field: LanguageField::RelationFacet })
    } else if is_blank(e.1@) {
        Some(LanguageError::EmptyIdentity { field: LanguageField::RelationFacetRevision })
    } else {
        None
    }
}

/// The error of the first relation whose name or facet revision is blank.
pub open spec fn relations_error(s: Seq<(String, String)>) -> Option<LanguageError> {
    first_error(s, |e: (String, String)| relation_error(e))
}

/// The first check on a revision that fails, in the order the service checks them.
pub open spec fn revision_error(r: CodeEntityRevision) -> Option<LanguageError> {
    if is_blank(r.entity.id@) {
        blank_error(LanguageField::EntityId, r.entity.id@)
    } else if is_blank(r.entity.repository_id@) {
        blank_error(LanguageField::RepositoryId, r.entity.repository_id@)
    } else if is_blank(r.revision@) {
        blank_error(LanguageField::EntityRevision, r.revision@)
    } else if is_blank(r.name@) {
        blank_error(LanguageField::EntityName, r.name@)
    } else if is_blank(r.provider_id@) {
        blank_error(LanguageField::ProviderId, r.provider_id@)
    } else if document_error(r.document) is Some {
        document_error(r.document)
    } else if is_blank(r.facets.existence@) {
        blank_error(LanguageField::ExistenceFacet, r.facets.existence@)
    } else if is_blank(r.facets.name_location@) {
        blank_error(LanguageField::NameLocationFacet, r.facets.name_location@)
    } else if optional_blank_error(LanguageField::SignatureIdentity, r.signature_identity) is Some {
        optional_blank_error(LanguageField::SignatureIdentity, r.signature_identity)
    } else if optional_blank_error(LanguageField::BodyIdentity, r.body_identity) is Some {
        optional_blank_error(LanguageField::BodyIdentity, r.body_identity)
    } else if optional_blank_error(LanguageField::SignatureFacet, r.facets.signature) is Some {
        optional_blank_error(LanguageField::SignatureFacet, r.facets.signature)
    } else if optional_blank_error(LanguageField::BodyFacet, r.facets.body) is Some {
        optional_blank_error(LanguageField::BodyFacet, r.facets.body)
    } else {
        relations_error(r.facets.relations.entry_seq())
    }
}

fn check_optional_identity(field: LanguageField, value: &Option<String>) -> (r: Result<(), LanguageError>)
    ensures
        match optional_blank_error(field, *value) {
            Some(e) => r == Err::<(), LanguageError>(e),
            None => r is Ok,
        },
{
    match value {
        Some(v) => check_identity(field, v.as_str()),
        None => Ok(()),
    }
}

/// Checks every identity of a revision and its document.
pub fn validate_code_entity_revision(revision: &CodeEntityRevision) -> (r: Result<(), LanguageError>)
    ensures
        match revision_error(*revision) {
            Some(e) => r == Err::<(), LanguageError>(e),
            None => r is Ok,
        },
{
    check_identity(LanguageField::EntityId, revision.entity.id.as_str())?;
    check_identity(LanguageField::RepositoryId, revision.entity.repository_id.as_str())?;
    check_identity(LanguageField::EntityRevision, revision.revision.as_str())?;
    check_identity(LanguageField::EntityName, revision.name.as_str())?;
    check_identity(LanguageField::ProviderId, revision.provider_id.as_str())?;
    check_document(&revision.document)?;
    check_identity(LanguageField::ExistenceFacet, revision.facets.existence.as_str())?;
    check_identity(LanguageField::NameLocationFacet, revision.facets.name_location.as_str())?;
    check_optional_identity(LanguageField::SignatureIdentity, &revision.signature_identity)?;
    check_optional_identity(LanguageField::BodyIdentity, &revision.body_identity)?;
    check_optional_identity(LanguageField::SignatureFacet, &revision.facets.signature)?;
    check_optional_identity(LanguageField::BodyFacet, &revision.facets.body)?;
    let relations = &revision.facets.relations;
    let ghost s = relations.entry_seq();
    let ghost f = |e: (String, String)| relation_error(e);
    let mut i: usize = 0;
    while i < relations.len()
        invariant
            s == relations.entry_seq(),
            revision_error(*revision) == relations_error(s),
            f == (|e: (String, String)| relation_error(e)),
            i <= s.len(),
            forall|j: int| 0 <= j < i ==> (#[trigger] f(s[j])) is None,
        decreases s.len() - i,
    {
        let (name, facet_revision) = relations.entry(i);
        let a = check_identity(LanguageField::RelationFacet, name.as_str());
        let b = check_identity(LanguageField::RelationFacetRevision, facet_revision.as_str());
        if a.is_err() || b.is_err() {
            proof {
                lemma_first_error_at(s, f, i as int);
            }
            if a.is_err() {
                return a;
            }
            return b;
        }
        i = i + 1;
    }
    proof {
        lemma_first_error_none(s, f);
    }
    Ok(())
}

/// Rename and move keep an entity's identity; replacement, extract, split and
/// merge produce a distinct one.
pub open spec fn preserves_identity_kind(kind: CodeEntityLineageKind) -> bool {
    kind == CodeEntityLineageKind::Rename || kind == CodeEntityLineageKind::Move
}

/// The index of the first blank evidence id, if any.
pub open spec fn first_blank(s: Seq<String>) -> Option<int> {
    if exists|i: int| 0 <= i < s.len() && is_blank(#[trigger] s[i]@) {
        Some(choose|i: int| 0 <= i < s.len() && is_blank(#[trigger] s[i]@))
    } else {
        None
    }
}

/// The first check on a lineage link that fails.
pub open spec fn lineage_error(repository_id: Seq<char>, l: CodeEntityLineage) -> Option<LanguageError> {
    if is_blank(repository_id) {
        Some(LanguageError::EmptyIdentity { field: LanguageField::RepositoryId })
    } else if is_blank(l.from_entity_id@) {
        Some(LanguageError::EmptyIdentity { field: LanguageField::LineageSource })
    } else if is_blank(l.to_entity_id@) {
        Some(LanguageError::EmptyIdentity { field: LanguageField::LineageTarget })
    } else if exists|i: int| 0 <= i < l.evidence_observation_ids@.len() && is_blank(
        #[trigger] l.evidence_observation_ids@[i]@,
    ) {
        Some(LanguageError::EmptyIdentity { field: LanguageField::LineageEvidence })
    } else if preserves_identity_kind(l.kind) && l.confidence == CodeEntityLineageConfidence::Confirmed
        && l.from_entity_id@ != l.to_entity_id@ {
        Some(LanguageError::LineageIdentityChanged)
    } else if !preserves_identity_kind(l.kind) && l.from_entity_id@ == l.to_entity_id@ {
        Some(LanguageError::LineageIdentityReused)
    } else {
        None
    }
}

/// Checks a lineage link: its identities, and that confirmed renames and moves
/// keep the identity while the other kinds change it.
pub fn validate_code_entity_lineage(repository_id: &str, lineage: &CodeEntityLineage) -> (r: Result<
    (),
    LanguageError,
>)
    ensures
        match lineage_error(repository_id@, *lineage) {
            Some(e) => r == Err::<(), LanguageError>(e),
            None => r is Ok,
        },
{
    check_identity(LanguageField::RepositoryId, repository_id)?;
    check_identity(LanguageField::LineageSource, lineage.from_entity_id.as_str())?;
    check_identity(LanguageField::LineageTarget, lineage.to_entity_id.as_str())?;
    let ids = &lineage.evidence_observation_ids;
    let mut i: usize = 0;
    while i < ids.len()
        invariant
            i <= ids@.len(),
            ids@ == lineage.evidence_observation_ids@,
            !is_blank(repository_id@),
            !is_blank(lineage.from_entity_id@),
            !is_blank(lineage.to_entity_id@),
            forall|j: int| 0 <= j < i ==> !is_blank(#[trigger] ids@[j]@),
        decreases ids@.len() - i,
    {
        let checked = check_identity(LanguageField::LineageEvidence, ids[i].as_str());
        if checked.is_err() {
            assert(is_blank(ids@[i as int]@));
            return checked;
        }
        i = i + 1;
    }
    let same = lineage.from_entity_id == lineage.to_entity_id;
    let keeps = matches!(lineage.kind, CodeEntityLineageKind::Rename | CodeEntityLineageKind::Move);
    if keeps && matches!(lineage.confidence, CodeEntityLineageConfidence::Confirmed) && !same {
        return Err(LanguageError::LineageIdentityChanged);
    }
    if !keeps && same {
        return Err(LanguageError::LineageIdentityReused);
    }
    Ok(())
}

// ---------------------------------------------------------------------------
// Storage keys
// ---------------------------------------------------------------------------

pub open spec fn observation_key_spec(id: Seq<char>) -> Seq<char> {
    "observation/"@ + id
}

/// The key of a consumed observation.
pub fn observation_key(id: &str) -> (r: String)
    ensures
        r@ == observation_key_spec(id@),
{
    let mut s = String::from_str("observation/");
    s.append(id);
    s
}

pub open spec fn identity_continuity_key_spec(repository_id: Seq<char>) -> Seq<char> {
    "entity/"@ + repository_id + "/continuity"@
}

/// The key of a repository's identity continuity state.
pub fn identity_continuity_key(repository_id: &str) -> (r: String)
    ensures
        r@ == identity_continuity_key_spec(repository_id@),
{
    let mut s = String::from_str("entity/");
    s.append(repository_id);
    s.append("/continuity");
    s
}

pub open spec fn entity_current_key_spec(repository_id: Seq<char>, entity_id: Seq<char>) -> Seq<
    char,
> {
    "entity/"@ + repository_id + "/"@ + entity_id + "/current"@
}

/// The key of an entity's current revision.
pub fn entity_current_key(repository_id: &str, entity_id: &str) -> (r: String)
    ensures
        r@ == entity_current_key_spec(repository_id@, entity_id@),
{
    let mut s = String::from_str("entity/");
    s.append(repository_id);
    s.append("/");
    s.append(entity_id);
    s.append("/current");
    s
}

pub open spec fn entity_revision_key_spec(
    repository_id: Seq<char>,
    entity_id: Seq<char>,
    revision: Seq<char>,
) -> Seq<char> {
    "entity/"@ + repository_id + "/"@ + entity_id + "/revision/"@ + revision
}

/// The key of one immutable revision of an entity.
pub fn entity_revision_key(repository_id: &str, entity_id: &str, revision: &str) -> (r: String)
    ensures
        r@ == entity_revision_key_spec(repository_id@, entity_id@, revision@),
{
    let mut s = String::from_str("entity/");
    s.append(repository_id);
    s.append("/");
    s.append(entity_id);
    s.append("/revision/");
    s.append(revision);
    s
}

/// The key word of a lineage kind.
pub fn lineage_kind_key(kind: CodeEntityLineageKind) -> (r: &'static str)
    ensures
        r@ == lineage_kind_word(kind),
{
    match kind {
        CodeEntityLineageKind::Rename => "rename",
        CodeEntityLineageKind::Move => "move",
        CodeEntityLineageKind::Replacement => "replacement",
        CodeEntityLineageKind::Extract => "extract",
        CodeEntityLineageKind::Split => "split",
        CodeEntityLineageKind::Merge => "merge",
    }
}

pub open spec fn lineage_kind_word(kind: CodeEntityLineageKind) -> Seq<char> {
    match kind {
        CodeEntityLineageKind::Rename => "rename"@,
        CodeEntityLineageKind::Move => "move"@,
        CodeEntityLineageKind::Replacement => "replacement"@,
        CodeEntityLineageKind::Extract => "extract"@,
        CodeEntityLineageKind::Split => "split"@,
        CodeEntityLineageKind::Merge => "merge"@,
    }
}

pub open spec fn entity_lineage_key_spec(
    repository_id: Seq<char>,
    from_entity_id: Seq<char>,
    to_entity_id: Seq<char>,
    kind: CodeEntityLineageKind,
) -> Seq<char> {
    "entity/"@ + repository_id + "/lineage/"@ + from_entity_id + "/"@ + to_entity_id + "/"@
        + lineage_kind_word(kind)
}

/// The key of a lineage link between two entities.
pub fn entity_lineage_key_parts(
    repository_id: &str,
    from_entity_id: &str,
    to_entity_id: &str,
    kind: CodeEntityLineageKind,
) -> (r: String)
    ensures
        r@ == entity_lineage_key_spec(repository_id@, from_entity_id@, to_entity_id@, kind),
{
    let mut s = String::from_str("entity/");
    s.append(repository_id);
    s.append("/lineage/");
    s.append(from_entity_id);
    s.append("/");
    s.append(to_entity_id);
    s.append("/");
    s.append(lineage_kind_key(kind));
    s
}

/// The key of a lineage link, from the link itself.
pub fn entity_lineage_key(repository_id: &str, lineage: &CodeEntityLineage) -> (r: String)
    ensures
        r@ == entity_lineage_key_spec(
            repository_id@,
            lineage.from_entity_id@,
            lineage.to_entity_id@,
            lineage.kind,
        ),
{
    entity_lineage_key_parts(
        repository_id,
        lineage.from_entity_id.as_str(),
        lineage.to_entity_id.as_str(),
        lineage.kind,
    )
}

// ---------------------------------------------------------------------------
// Active providers and their diagnostics
// ---------------------------------------------------------------------------

/// Why a request under a provider epoch is refused, if it is.
pub open spec fn epoch_error(
    m: Map<Seq<char>, LanguageProviderEpoch>,
    workspace_id: Seq<char>,
    provider_id: Seq<char>,
    epoch: u64,
) -> Option<LanguageError> {
    if is_blank(workspace_id) {
        Some(LanguageError::EmptyIdentity { field: LanguageField::WorkspaceId })
    } else if is_blank(provider_id) {
        Some(LanguageError::EmptyIdentity { field: LanguageField::ProviderId })
    } else if !m.contains_key(workspace_id) {
        Some(LanguageError::ProviderChanged { active: None })
    } else if m[workspace_id].provider_id@ == provider_id && m[workspace_id].epoch.spec_get() == epoch {
        None
    } else {
        Some(
            LanguageError::ProviderChanged {
                active: Some((m[workspace_id].provider_id, m[workspace_id].epoch.spec_get())),
            },
        )
    }
}

/// The provider that is active for each workspace and the diagnostics it last
/// published. Neither survives a restart.
pub struct LanguageProviders<D> {
    providers: TextMap<LanguageProviderEpoch>,
    diagnostics: TextMap<D>,
}

impl<D> LanguageProviders<D> {
    pub closed spec fn wf(self) -> bool {
        &&& self.providers.wf()
        &&& self.diagnostics.wf()
        &&& forall|w: Seq<char>| #[trigger] self.providers@.contains_key(w)
            ==> self.providers@[w].workspace_id@ == w
    }

    pub closed spec fn active(self) -> Map<Seq<char>, LanguageProviderEpoch> {
        self.providers@
    }

    pub closed spec fn published(self) -> Map<Seq<char>, D> {
        self.diagnostics@
    }

    pub fn new() -> (r: Self)
        ensures
            r.wf(),
            r.active() == Map::<Seq<char>, LanguageProviderEpoch>::empty(),
            r.published() == Map::<Seq<char>, D>::empty(),
    {
        LanguageProviders { providers: TextMap::new(), diagnostics: TextMap::new() }
    }

    /// Makes a provider active for a workspace under an epoch that advances
    /// beyond the current one; the workspace's diagnostics are dropped.
    pub fn activate_provider(
        &mut self,
        workspace_id: String,
        provider_id: String,
        epoch: ProviderEpoch,
    ) -> (r: Result<LanguageProviderEpoch, LanguageError>)
        requires
            old(self).wf(),
        ensures
            final(self).wf(),
            is_blank(workspace_id@) ==> r == Err::<LanguageProviderEpoch, _>(
                LanguageError::EmptyIdentity { field: LanguageField::WorkspaceId },
            ),
            !is_blank(workspace_id@) && is_blank(provider_id@) ==> r == Err::<
                LanguageProviderEpoch,
                _,
            >(LanguageError::EmptyIdentity { field: LanguageField::ProviderId }),
            !is_blank(workspace_id@) && !is_blank(provider_id@) && old(self).active().contains_key(
                workspace_id@,
            ) && epoch.spec_get() <= old(self).active()[workspace_id@].epoch.spec_get() ==> r
                == Err::<LanguageProviderEpoch, _>(
                LanguageError::EpochNotAdvanced {
                    current: old(self).active()[workspace_id@].epoch.spec_get(),
                },
            ),
            !is_blank(workspace_id@) && !is_blank(provider_id@) && (old(self).active().contains_key(
                workspace_id@,
            ) ==> old(self).active()[workspace_id@].epoch.spec_get() < epoch.spec_get()) ==> r is Ok,
            r is Err ==> final(self).active() == old(self).active() && final(self).published()
                == old(self).published(),
            r matches Ok(a) ==> {
                &&& !is_blank(workspace_id@) && !is_blank(provider_id@)
                &&& (old(self).active().contains_key(workspace_id@) ==> old(
                    self,
                ).active()[workspace_id@].epoch.spec_get() < epoch.spec_get())
                &&& a == (LanguageProviderEpoch { workspace_id, provider_id, epoch })
                &&& final(self).active() == old(self).active().insert(workspace_id@, a)
                &&& final(self).published() == old(self).published().remove(workspace_id@)
            },
    {
        check_identity(LanguageField::WorkspaceId, workspace_id.as_str())?;
        check_identity(LanguageField::ProviderId, provider_id.as_str())?;
        if let Some(current) = self.providers.get(&workspace_id) {
            if epoch.get() <= current.epoch.get() {
                return Err(LanguageError::EpochNotAdvanced { current: current.epoch.get() });
            }
        }
        let active = LanguageProviderEpoch {
            workspace_id: workspace_id.clone(),
            provider_id,
            epoch,
        };
        let stored = LanguageProviderEpoch {
            workspace_id: workspace_id.clone(),
            provider_id: active.provider_id.clone(),
            epoch,
        };
        self.providers.insert(workspace_id.clone(), stored);
        self.diagnostics.remove(&workspace_id);
        proof {
            assert(stored == active);
        }
        Ok(active)
    }

    /// Succeeds only for the provider and epoch that are active for the workspace.
    pub fn require_epoch(&self, workspace_id: &str, provider_id: &str, epoch: ProviderEpoch) -> (r: Result<
        (),
        LanguageError,
    >)
        requires
            self.wf(),
        ensures
            match epoch_error(self.active(), workspace_id@, provider_id@, epoch.spec_get()) {
                Some(e) => r == Err::<(), LanguageError>(e),
                None => r is Ok,
            },
    {
        check_identity(LanguageField::WorkspaceId, workspace_id)?;
        check_identity(LanguageField::ProviderId, provider_id)?;
        let key = String::from_str(workspace_id);
        match self.providers.get(&key) {
            Some(active) => {
                if active.provider_id == String::from_str(provider_id) && active.epoch.get() == epoch.get() {
                    Ok(())
                } else {
                    Err(
                        LanguageError::ProviderChanged {
                            active: Some((active.provider_id.clone(), active.epoch.get())),
                        },
                    )
                }
            },
            None => Err(LanguageError::ProviderChanged { active: None }),
        }
    }

    /// Ends the active provider of a workspace and drops its diagnostics.
    pub fn end_provider(&mut self, workspace_id: &String, provider_id: &str, epoch: ProviderEpoch) -> (r:
        Result<(), LanguageError>)
        requires
            old(self).wf(),
        ensures
            final(self).wf(),
            match epoch_error(old(self).active(), workspace_id@, provider_id@, epoch.spec_get()) {
                Some(e) => r == Err::<(), LanguageError>(e) && final(self).active() == old(
                    self,
                ).active() && final(self).published() == old(self).published(),
                None => r is Ok && final(self).active() == old(self).active().remove(workspace_id@)
                    && final(self).published() == old(self).published().remove(workspace_id@),
            },
    {
        self.require_epoch(workspace_id.as_str(), provider_id, epoch)?;
        self.providers.remove(workspace_id);
        self.diagnostics.remove(workspace_id);
        Ok(())
    }

    /// Replaces the diagnostics of a workspace, under the active provider epoch.
    pub fn publish_diagnostics(
        &mut self,
        workspace_id: String,
        provider_id: &str,
        epoch: ProviderEpoch,
        documents: &Vec<LanguageDocumentIdentity>,
        result: D,
    ) -> (r: Result<(), LanguageError>)
        requires
            old(self).wf(),
        ensures
            final(self).wf(),
            final(self).active() == old(self).active(),
            match epoch_error(old(self).active(), workspace_id@, provider_id@, epoch.spec_get()) {
                Some(e) => r == Err::<(), LanguageError>(e) && final(self).published() == old(
                    self,
                ).published(),
                None => match documents_error(documents@) {
                    Some(e) => r == Err::<(), LanguageError>(e) && final(self).published() == old(
                        self,
                    ).published(),
                    None => r is Ok && final(self).published() == old(self).published().insert(
                        workspace_id@,
                        result,
                    ),
                },
            },
    {
        self.require_epoch(workspace_id.as_str(), provider_id, epoch)?;
        validate_documents(documents)?;
        self.diagnostics.insert(workspace_id, result);
        Ok(())
    }

    /// The diagnostics last published for a workspace.
    pub fn current_diagnostics(&self, workspace_id: &String) -> (r: Result<Option<&D>, LanguageError>)
        requires
            self.wf(),
        ensures
            is_blank(workspace_id@) ==> r == Err::<Option<&D>, _>(
                LanguageError::EmptyIdentity { field: LanguageField::WorkspaceId },
            ),
            !is_blank(workspace_id@) ==> match r {
                Ok(Some(d)) => self.published().contains_key(workspace_id@) && self.published()[workspace_id@]
                    == *d,
                Ok(None) => !self.published().contains_key(workspace_id@),
                Err(_) => false,
            },
    {
        check_identity(LanguageField::WorkspaceId, workspace_id.as_str())?;
        Ok(self.diagnostics.get(workspace_id))
    }

    /// The checks before an observation is consumed: the provider epoch, the
    /// observation and execution identities, and its documents.
    pub fn admit_observation(
        &self,
        observation_id: &str,
        execution_id: &str,
        workspace_id: &str,
        provider_id: &str,
        epoch: ProviderEpoch,
        documents: &Vec<LanguageDocumentIdentity>,
    ) -> (r: Result<(), LanguageError>)
        requires
            self.wf(),
        ensures
            match epoch_error(self.active(), workspace_id@, provider_id@, epoch.spec_get()) {
                Some(e) => r == Err::<(), LanguageError>(e),
                None => if is_blank(observation_id@) {
                    r == Err::<(), LanguageError>(
                        LanguageError::EmptyIdentity { field: LanguageField::ObservationId },
                    )
                } else if is_blank(execution_id@) {
                    r == Err::<(), LanguageError>(
                        LanguageError::EmptyIdentity { field: LanguageField::ConsumingExecutionId },
                    )
                } else {
                    match documents_error(documents@) {
                        Some(e) => r == Err::<(), LanguageError>(e),
                        None => r is Ok,
                    }
                },
            },
    {
        self.require_epoch(workspace_id, provider_id, epoch)?;
        check_identity(LanguageField::ObservationId, observation_id)?;
        check_identity(LanguageField::ConsumingExecutionId, execution_id)?;
        validate_documents(documents)
    }
}

// ---------------------------------------------------------------------------
// Write decisions for the durable records
// ---------------------------------------------------------------------------

/// What a write of an immutable record comes to.
#[derive(Clone, Copy, Debug, PartialEq, Eq, Structural)]
pub enum StoreDecision {
    /// The same record is already there: nothing is written.
    AlreadyRecorded,
    /// The record is new: it is written.
    Record,
}

pub open spec fn same_pairs(a: Seq<(String, String)>, b: Seq<(String, String)>) -> bool {
    &&& a.len() == b.len()
    &&& forall|i: int| 0 <= i < a.len() ==> (#[trigger] a[i]).0@ == b[i].0@ && a[i].1@ == b[i].1@
}

pub open spec fn same_texts(a: Seq<String>, b: Seq<String>) -> bool {
    &&& a.len() == b.len()
    &&& forall|i: int| 0 <= i < a.len() ==> (#[trigger] a[i])@ == b[i]@
}

pub open spec fn same_document(a: LanguageDocumentIdentity, b: LanguageDocumentIdentity) -> bool {
    &&& a.path@ == b.path@
    &&& option_text_eq(a.file_version, b.file_version)
    &&& a.provenance == b.provenance
}

/// Two revisions are the same when every field holds the same value.
pub open spec fn same_revision(a: CodeEntityRevision, b: CodeEntityRevision) -> bool {
    &&& a.entity.id@ == b.entity.id@
    &&& a.entity.repository_id@ == b.entity.repository_id@
    &&& a.revision@ == b.revision@
    &&& a.sequence == b.sequence
    &&& same_document(a.document, b.document)
    &&& option_text_eq(a.symbol, b.symbol)
    &&& a.name@ == b.name@
    &&& option_text_eq(a.signature_identity, b.signature_identity)
    &&& option_text_eq(a.body_identity, b.body_identity)
    &&& a.provider_id@ == b.provider_id@
    &&& a.provider_epoch == b.provider_epoch
    &&& a.facets.existence@ == b.facets.existence@
    &&& a.facets.name_location@ == b.facets.name_location@
    &&& option_text_eq(a.facets.signature, b.facets.signature)
    &&& option_text_eq(a.facets.body, b.facets.body)
    &&& same_pairs(a.facets.relations.entry_seq(), b.facets.relations.entry_seq())
}

fn pairs_equal(a: &TextMap<String>, b: &TextMap<String>) -> (r: bool)
    ensures
        r == same_pairs(a.entry_seq(), b.entry_seq()),
{
    if a.len() != b.len() {
        return false;
    }
    let mut i: usize = 0;
    while i < a.len()
        invariant
            a.entry_seq().len() == b.entry_seq().len(),
            i <= a.entry_seq().len(),
            forall|j: int| 0 <= j < i ==> (#[trigger] a.entry_seq()[j]).0@ == b.entry_seq()[j].0@
                && a.entry_seq()[j].1@ == b.entry_seq()[j].1@,
        decreases a.entry_seq().len() - i,
    {
        let (ka, va) = a.entry(i);
        let (kb, vb) = b.entry(i);
        if !(*ka == *kb) || !(*va == *vb) {
            return false;
        }
        i = i + 1;
    }
    true
}

fn texts_equal(a: &Vec<String>, b: &Vec<String>) -> (r: bool)
    ensures
        r == same_texts(a@, b@),
{
    if a.len() != b.len() {
        return false;
    }
    let mut i: usize = 0;
    while i < a.len()
        invariant
            a@.len() == b@.len(),
            i <= a@.len(),
            forall|j: int| 0 <= j < i ==> (#[trigger] a@[j])@ == b@[j]@,
        decreases a@.len() - i,
    {
        if !(a[i] == b[i]) {
            return false;
        }
        i = i + 1;
    }
    true
}

fn documents_same(a: &LanguageDocumentIdentity, b: &LanguageDocumentIdentity) -> (r: bool)
    ensures
        r == same_document(*a, *b),
{
    a.path == b.path && option_text_equal(&a.file_version, &b.file_version) && a.provenance
        == b.provenance
}

/// Whether two revisions hold the same values.
pub fn revisions_equal(a: &CodeEntityRevision, b: &CodeEntityRevision) -> (r: bool)
    ensures
        r == same_revision(*a, *b),
{
    a.entity.id == b.entity.id && a.entity.repository_id == b.entity.repository_id && a.revision
        == b.revision && a.sequence == b.sequence && documents_same(&a.document, &b.document)
        && option_text_equal(&a.symbol, &b.symbol) && a.name == b.name && option_text_equal(
        &a.signature_identity,
        &b.signature_identity,
    ) && option_text_equal(&a.body_identity, &b.body_identity) && a.provider_id == b.provider_id
        && a.provider_epoch.get() == b.provider_epoch.get() && a.facets.existence
        == b.facets.existence && a.facets.name_location == b.facets.name_location
        && option_text_equal(&a.facets.signature, &b.facets.signature) && option_text_equal(
        &a.facets.body,
        &b.facets.body,
    ) && pairs_equal(&a.facets.relations, &b.facets.relations)
}

/// The decision on writing an entity revision, given the record kept under
/// its revision key and the entity's current revision.
pub open spec fn revision_write(
    revision: CodeEntityRevision,
    existing: Option<CodeEntityRevision>,
    current: Option<CodeEntityRevision>,
) -> Result<StoreDecision, LanguageError> {
    if revision.sequence == 0 {
        Err(LanguageError::ZeroSequence)
    } else {
        match existing {
            Some(e) => if same_revision(e, revision) {
                Ok(StoreDecision::AlreadyRecorded)
            } else {
                Err(LanguageError::RevisionConflict { revision: revision.revision })
            },
            None => match current {
                Some(c) => if revision.sequence <= c.sequence {
                    Err(
                        LanguageError::SequenceNotAdvanced {
                            sequence: revision.sequence,
                            current: c.sequence,
                        },
                    )
                } else {
                    Ok(StoreDecision::Record)
                },
                None => Ok(StoreDecision::Record),
            },
        }
    }
}

/// Decides the write of an entity revision, given the record already kept
/// under its revision key and the entity's current revision. A recorded
/// revision is immutable, replaying it writes nothing, and a new revision
/// becomes current only if its sequence advances beyond the current one.
pub fn store_entity_revision(
    revision: &CodeEntityRevision,
    existing: &Option<CodeEntityRevision>,
    current: &Option<CodeEntityRevision>,
) -> (r: Result<StoreDecision, LanguageError>)
    ensures
        r == revision_write(*revision, *existing, *current),
        r == Ok::<_, LanguageError>(StoreDecision::AlreadyRecorded) ==> (*existing matches Some(e)
            && revision_view(e) == revision_view(*revision)),
{
    if revision.sequence == 0 {
        return Err(LanguageError::ZeroSequence);
    }
    if let Some(e) = existing {
        if !revisions_equal(e, revision) {
            return Err(LanguageError::RevisionConflict { revision: revision.revision.clone() });
        }
        proof {
            lemma_recorded_revision_is_immutable(*revision, *e, *current);
        }
        return Ok(StoreDecision::AlreadyRecorded);
    }
    if let Some(c) = current {
        if revision.sequence <= c.sequence {
            return Err(
                LanguageError::SequenceNotAdvanced { sequence: revision.sequence, current: c.sequence },
            );
        }
    }
    Ok(StoreDecision::Record)
}

/// A revision becomes current only ahead of the current one, and a revision
/// already recorded is never written again: recording never moves an
/// entity's current revision backwards, replays included.
pub proof fn lemma_current_revision_never_rolls_back(
    revision: CodeEntityRevision,
    existing: Option<CodeEntityRevision>,
    current: Option<CodeEntityRevision>,
)
    ensures
        revision_write(revision, existing, current) == Ok::<_, LanguageError>(StoreDecision::Record)
            ==> existing is None && match current {
            Some(c) => c.sequence < revision.sequence,
            None => true,
        },
        existing is Some ==> revision_write(revision, existing, current) != Ok::<_, LanguageError>(
            StoreDecision::Record,
        ),
{
}

/// Once another epoch is active for a workspace, requests under any other
/// epoch are refused as a provider change naming the active one.
pub proof fn lemma_superseded_epoch_refused(
    m: Map<Seq<char>, LanguageProviderEpoch>,
    workspace_id: Seq<char>,
    active: LanguageProviderEpoch,
    provider_id: Seq<char>,
    epoch: u64,
)
    requires
        !is_blank(workspace_id),
        !is_blank(provider_id),
        active.epoch.spec_get() != epoch,
    ensures
        epoch_error(m.insert(workspace_id, active), workspace_id, provider_id, epoch) == Some(
            LanguageError::ProviderChanged {
                active: Some((active.provider_id, active.epoch.spec_get())),
            },
        ),
{
}

pub open spec fn same_lineage(a: CodeEntityLineage, b: CodeEntityLineage) -> bool {
    &&& a.from_entity_id@ == b.from_entity_id@
    &&& a.to_entity_id@ == b.to_entity_id@
    &&& a.kind == b.kind
    &&& a.confidence == b.confidence
    &&& same_texts(a.evidence_observation_ids@, b.evidence_observation_ids@)
}

/// Decides the write of a lineage link, given the link already kept under its key.
pub fn store_entity_lineage(lineage: &CodeEntityLineage, existing: Option<&CodeEntityLineage>) -> (r:
    Result<StoreDecision, LanguageError>)
    ensures
        match existing {
            Some(e) => if same_lineage(*e, *lineage) {
                r == Ok::<_, LanguageError>(StoreDecision::AlreadyRecorded)
            } else {
                r == Err::<StoreDecision, _>(LanguageError::LineageConflict)
            },
            None => r == Ok::<_, LanguageError>(StoreDecision::Record),
        },
{
    match existing {
        Some(e) => {
            if e.from_entity_id == lineage.from_entity_id && e.to_entity_id == lineage.to_entity_id
                && e.kind == lineage.kind && e.confidence == lineage.confidence && texts_equal(
                &e.evidence_observation_ids,
                &lineage.evidence_observation_ids,
            ) {
                Ok(StoreDecision::AlreadyRecorded)
            } else {
                Err(LanguageError::LineageConflict)
            }
        },
        None => Ok(StoreDecision::Record),
    }
}

/// The document of a file read from the workspace in place of provider
/// evidence: the path must be the one requested and the file present.
pub fn file_fallback_document(path: String, observed_path: &String, content_hash: Option<String>) -> (r:
    Result<LanguageDocumentIdentity, LanguageError>)
    ensures
        !(observed_path@ == path@) ==> r == Err::<LanguageDocumentIdentity, _>(
            LanguageError::FallbackPathMismatch { requested: path, observed: *observed_path },
        ),
        observed_path@ == path@ && content_hash is None ==> r == Err::<LanguageDocumentIdentity, _>(
            LanguageError::FallbackAbsent { path },
        ),
        observed_path@ == path@ && content_hash is Some ==> r == Ok::<_, LanguageError>(
            LanguageDocumentIdentity {
                path,
                file_version: content_hash,
                provenance: DocumentProvenance::WorkspaceBacked,
            },
        ),
{
    if !(*observed_path == path) {
        return Err(LanguageError::FallbackPathMismatch { requested: path, observed: observed_path.clone() });
    }
    match content_hash {
        None => Err(LanguageError::FallbackAbsent { path }),
        Some(hash) => Ok(
            LanguageDocumentIdentity {
                path,
                file_version: Some(hash),
                provenance: DocumentProvenance::WorkspaceBacked,
            },
        ),
    }
}

/// The checks on an identity continuity state: its repository and, if
/// given, its reason must not be blank.
pub fn validate_identity_continuity(repository_id: &str, reason: &Option<String>) -> (r: Result<
    (),
    LanguageError,
>)
    ensures
        is_blank(repository_id@) ==> r == Err::<(), LanguageError>(
            LanguageError::EmptyIdentity { field: LanguageField::RepositoryId },
        ),
        !is_blank(repository_id@) ==> match optional_blank_error(
            LanguageField::ContinuityReason,
            *reason,
        ) {
            Some(e) => r == Err::<(), LanguageError>(e),
            None => r is Ok,
        },
{
    check_identity(LanguageField::RepositoryId, repository_id)?;
    check_optional_identity(LanguageField::ContinuityReason, reason)
}

// ---------------------------------------------------------------------------
// Facet changes between two revisions
// ---------------------------------------------------------------------------

/// Which facets of an entity changed between two of its revisions; the
/// relations are named in ascending order.
#[derive(Clone, Debug, PartialEq, Eq)]
pub struct CodeEntityFacetChanges {
    pub existence: bool,
    pub name_location: bool,
    pub signature: bool,
    pub body: bool,
    pub relations: Vec<String>,
}

/// Whether a relation facet differs between two revisions: present in one
/// only, or at another revision.
pub open spec fn relation_changed(a: Map<Seq<char>, String>, b: Map<Seq<char>, String>, k: Seq<char>) -> bool {
    a.contains_key(k) != b.contains_key(k) || (a.contains_key(k) && b.contains_key(k) && a[k]@ != b[k]@)
}

/// The names of the relations that changed, in ascending order, each once.
pub open spec fn changed_relations(a: Map<Seq<char>, String>, b: Map<Seq<char>, String>, names: Seq<String>) -> bool {
    &&& forall|i: int, j: int|
        0 <= i < j < names.len() ==> bytes_lt(key_bytes(#[trigger] names[i]@), key_bytes(#[trigger] names[j]@))
    &&& forall|k: Seq<char>|
        relation_changed(a, b, k) <==> exists|i: int| 0 <= i < names.len() && (#[trigger] names[i])@ == k
}

/// The facets that changed from `previous` to `current`.
pub fn facet_changes(previous: &CodeEntityFacetRevisions, current: &CodeEntityFacetRevisions) -> (r:
    CodeEntityFacetChanges)
    requires
        previous.relations.wf(),
        current.relations.wf(),
    ensures
        r.existence == (previous.existence@ != current.existence@),
        r.name_location == (previous.name_location@ != current.name_location@),
        r.signature == !option_text_eq(previous.signature, current.signature),
        r.body == !option_text_eq(previous.body, current.body),
        changed_relations(previous.relations@, current.relations@, r.relations@),
{
    let a = &previous.relations;
    let b = &current.relations;
    let mut changed: TextMap<()> = TextMap::new();
    proof {
        a.lemma_entries();
        b.lemma_entries();
    }
    let mut i: usize = 0;
    while i < a.len()
        invariant
            a.wf(),
            b.wf(),
            changed.wf(),
            i <= a.entry_seq().len(),
            forall|k: Seq<char>| #[trigger] changed@.contains_key(k) ==> relation_changed(a@, b@, k),
            forall|j: int| 0 <= j < i ==> relation_changed(a@, b@, (#[trigger] a.entry_seq()[j]).0@)
                ==> changed@.contains_key(a.entry_seq()[j].0@),
        decreases a.entry_seq().len() - i,
    {
        let (k, v) = a.entry(i);
        let differs = match b.get(k) {
            None => true,
            Some(w) => !(*v == *w),
        };
        proof {
            a.lemma_entries();
            crate::text_map::lemma_entry_index(a.entry_seq(), i as int);
        }
        if differs {
            changed.insert(k.clone(), ());
        }
        i = i + 1;
    }
    let mut j: usize = 0;
    while j < b.len()
        invariant
            a.wf(),
            b.wf(),
            changed.wf(),
            j <= b.entry_seq().len(),
            forall|k: Seq<char>| #[trigger] changed@.contains_key(k) ==> relation_changed(a@, b@, k),
            forall|x: int| 0 <= x < a.entry_seq().len() ==> relation_changed(a@, b@, (#[trigger] a.entry_seq()[x]).0@)
                ==> changed@.contains_key(a.entry_seq()[x].0@),
            forall|x: int| 0 <= x < j ==> relation_changed(a@, b@, (#[trigger] b.entry_seq()[x]).0@)
                ==> changed@.contains_key(b.entry_seq()[x].0@),
        decreases b.entry_seq().len() - j,
    {
        let (k, _) = b.entry(j);
        proof {
            b.lemma_entries();
            crate::text_map::lemma_entry_index(b.entry_seq(), j as int);
        }
        let ghost before = changed@;
        if !a.contains_key(k) {
            changed.insert(k.clone(), ());
        }
        proof {
            let kj = b.entry_seq()[j as int].0@;
            assert forall|c: Seq<char>| before.contains_key(c) implies changed@.contains_key(c) by {}
            a.lemma_entries();
            if relation_changed(a@, b@, kj) && a@.contains_key(kj) {
                assert(has_entry(a.entry_seq(), kj));
                let x = crate::text_map::entry_index(a.entry_seq(), kj);
                crate::text_map::lemma_entry_index(a.entry_seq(), x);
                assert(relation_changed(a@, b@, a.entry_seq()[x].0@));
            }
        }
        j = j + 1;
    }
    proof {
        a.lemma_entries();
        b.lemma_entries();
        changed.lemma_entries();
        assert forall|k: Seq<char>| relation_changed(a@, b@, k) implies changed@.contains_key(k) by {
            if a@.contains_key(k) {
                let x = crate::text_map::entry_index(a.entry_seq(), k);
                crate::text_map::lemma_entry_index(a.entry_seq(), x);
            } else {
                let x = crate::text_map::entry_index(b.entry_seq(), k);
                crate::text_map::lemma_entry_index(b.entry_seq(), x);
            }
        }
    }
    let ghost cm = changed@;
    let ghost cs = changed.entry_seq();
    proof {
        changed.lemma_entries();
    }
    let entries = changed.into_entries();
    let mut relations: Vec<String> = Vec::new();
    let mut n: usize = 0;
    while n < entries.len()
        invariant
            n <= entries@.len(),
            relations@.len() == n,
            forall|x: int| 0 <= x < n ==> (#[trigger] relations@[x])@ == entries@[x].0@,
        decreases entries@.len() - n,
    {
        relations.push(entries[n].0.clone());
        n = n + 1;
    }
    proof {
        assert forall|k: Seq<char>|
            relation_changed(previous.relations@, current.relations@, k) <==> exists|x: int|
                0 <= x < relations@.len() && (#[trigger] relations@[x])@ == k by {
            if relation_changed(previous.relations@, current.relations@, k) {
                assert(cm.contains_key(k));
                assert(has_entry(cs, k));
                let x = crate::text_map::entry_index(entries@, k);
                assert(relations@[x]@ == entries@[x].0@);
            }
            if exists|x: int| 0 <= x < relations@.len() && (#[trigger] relations@[x])@ == k {
                let x = choose|x: int| 0 <= x < relations@.len() && (#[trigger] relations@[x])@ == k;
                assert(relations@[x]@ == entries@[x].0@);
                assert(has_entry(entries@, k));
                assert(cm.contains_key(k));
            }
        }
        assert forall|x: int, y: int| 0 <= x < y < relations@.len() implies bytes_lt(
            key_bytes(#[trigger] relations@[x]@),
            key_bytes(#[trigger] relations@[y]@),
        ) by {
            assert(relations@[x]@ == entries@[x].0@);
            assert(relations@[y]@ == entries@[y].0@);
        }
        assert(changed_relations(previous.relations@, current.relations@, relations@));
    }
    CodeEntityFacetChanges {
        existence: !(previous.existence == current.existence),
        name_location: !(previous.name_location == current.name_location),
        signature: !option_text_equal(&previous.signature, &current.signature),
        body: !option_text_equal(&previous.body, &current.body),
        relations,
    }
}


/// The relation facet revisions of a revision, by their views, in name order.
pub open spec fn relations_view(f: CodeEntityFacetRevisions) -> Seq<(Seq<char>, Seq<char>)> {
    f.relations.entry_seq().map_values(|p: (String, String)| (p.0@, p.1@))
}

/// Every field of a revision, by its view.
pub open spec fn revision_view(r: CodeEntityRevision) -> (
    (Seq<char>, Seq<char>, Seq<char>, u64),
    (Seq<char>, Option<Seq<char>>, DocumentProvenance),
    (Option<Seq<char>>, Seq<char>, Option<Seq<char>>, Option<Seq<char>>),
    (Seq<char>, ProviderEpoch),
    (Seq<char>, Seq<char>, Option<Seq<char>>, Option<Seq<char>>, Seq<(Seq<char>, Seq<char>)>),
) {
    (
        (r.entity.id@, r.entity.repository_id@, r.revision@, r.sequence),
        (r.document.path@, option_text_view(r.document.file_version), r.document.provenance),
        (option_text_view(r.symbol), r.name@, option_text_view(r.signature_identity), option_text_view(r.body_identity)),
        (r.provider_id@, r.provider_epoch),
        (
            r.facets.existence@,
            r.facets.name_location@,
            option_text_view(r.facets.signature),
            option_text_view(r.facets.body),
            relations_view(r.facets),
        ),
    )
}

proof fn lemma_option_text_eq_view(a: Option<String>, b: Option<String>)
    ensures
        option_text_eq(a, b) <==> option_text_view(a) == option_text_view(b),
{
}

/// A recorded revision is immutable: storing a revision over a recorded one
/// is a replay only when the two agree in every field (body identity, facets
/// and relations included); any difference is a conflict naming the revision.
pub proof fn lemma_recorded_revision_is_immutable(
    revision: CodeEntityRevision,
    existing: CodeEntityRevision,
    current: Option<CodeEntityRevision>,
)
    requires
        revision.sequence != 0,
    ensures
        revision_view(existing) == revision_view(revision) ==> revision_write(revision, Some(existing), current)
            == Ok::<_, LanguageError>(StoreDecision::AlreadyRecorded),
        revision_view(existing) != revision_view(revision) ==> revision_write(revision, Some(existing), current)
            == Err::<StoreDecision, _>(LanguageError::RevisionConflict { revision: revision.revision }),
{
    let a = existing;
    let b = revision;
    lemma_option_text_eq_view(a.document.file_version, b.document.file_version);
    lemma_option_text_eq_view(a.symbol, b.symbol);
    lemma_option_text_eq_view(a.signature_identity, b.signature_identity);
    lemma_option_text_eq_view(a.body_identity, b.body_identity);
    lemma_option_text_eq_view(a.facets.signature, b.facets.signature);
    lemma_option_text_eq_view(a.facets.body, b.facets.body);
    let ea = a.facets.relations.entry_seq();
    let eb = b.facets.relations.entry_seq();
    if same_pairs(ea, eb) {
        assert(relations_view(a.facets) =~= relations_view(b.facets));
    }
    if relations_view(a.facets) == relations_view(b.facets) {
        assert(relations_view(a.facets).len() == ea.len());
        assert(relations_view(b.facets).len() == eb.len());
        assert forall|i: int| 0 <= i < ea.len() implies (#[trigger] ea[i]).0@ == eb[i].0@ && ea[i].1@ == eb[i].1@ by {
            assert(relations_view(a.facets)[i] == (ea[i].0@, ea[i].1@));
            assert(relations_view(b.facets)[i] == (eb[i].0@, eb[i].1@));
        }
        assert(same_pairs(ea, eb));
    }
}

} // verus!
