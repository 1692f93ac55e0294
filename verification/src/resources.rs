//! Context resources: every revision of a resource is immutable and named by
//! the SHA-256 of its content, and the index of all revisions is kept sorted
//! with no reference twice.
use crate::context::{
    content_hash, content_revision, parent_path, parent_path_spec, project_file_kind,
    project_file_kind_spec, resource_key, resource_key_spec, ContextResourceKind,
    ExactContextReference,
};
use crate::delegation::{DelegatedWorkerTaskRecord, WorkerTaskState};
use crate::identity::{is_blank, is_blank_str};
use crate::text::{
    bytes_lt, lemma_bytes_lt_irreflexive, lemma_bytes_lt_total, lemma_bytes_lt_transitive, str_less,
};
use vstd::prelude::*;
use vstd::utf8::encode_utf8;
use crate::sorting::{lemma_insert_before_greater, lemma_stable_sort_step, stable_sort};

verus! {

broadcast use vstd::seq_lib::group_to_multiset_ensures;

// ---------------------------------------------------------------------------
// The order of exact references
// ---------------------------------------------------------------------------

/// A reference as a pair of texts.
pub open spec fn ref_view(r: ExactContextReference) -> (Seq<char>, Seq<char>) {
    (r.resource_id@, r.revision@)
}

/// References order by resource, then by revision, each compared by its bytes.
pub open spec fn ref_lt(a: (Seq<char>, Seq<char>), b: (Seq<char>, Seq<char>)) -> bool {
    bytes_lt(encode_utf8(a.0), encode_utf8(b.0)) || (a.0 == b.0 && bytes_lt(
        encode_utf8(a.1),
        encode_utf8(b.1),
    ))
}

/// References in strictly ascending order: sorted, and none twice.
pub open spec fn refs_ascending(s: Seq<ExactContextReference>) -> bool {
    forall|i: int, j: int| 0 <= i < j < s.len() ==> ref_lt(ref_view(#[trigger] s[i]), ref_view(#[trigger] s[j]))
}

/// The references a list holds.
pub open spec fn ref_set(s: Seq<ExactContextReference>) -> Set<(Seq<char>, Seq<char>)> {
    Set::new(|v: (Seq<char>, Seq<char>)| exists|i: int| 0 <= i < s.len() && ref_view(#[trigger] s[i]) == v)
}

pub proof fn lemma_ref_lt_irreflexive(a: (Seq<char>, Seq<char>))
    ensures
        !ref_lt(a, a),
{
    lemma_bytes_lt_irreflexive(encode_utf8(a.0));
    lemma_bytes_lt_irreflexive(encode_utf8(a.1));
}

pub proof fn lemma_ref_lt_transitive(
    a: (Seq<char>, Seq<char>),
    b: (Seq<char>, Seq<char>),
    c: (Seq<char>, Seq<char>),
)
    requires
        ref_lt(a, b),
        ref_lt(b, c),
    ensures
        ref_lt(a, c),
{
    let (a0, b0, c0) = (encode_utf8(a.0), encode_utf8(b.0), encode_utf8(c.0));
    if bytes_lt(a0, b0) && bytes_lt(b0, c0) {
        lemma_bytes_lt_transitive(a0, b0, c0);
    } else if !bytes_lt(a0, b0) && !bytes_lt(b0, c0) {
        lemma_bytes_lt_transitive(encode_utf8(a.1), encode_utf8(b.1), encode_utf8(c.1));
    }
}

pub proof fn lemma_ref_lt_total(a: (Seq<char>, Seq<char>), b: (Seq<char>, Seq<char>))
    ensures
        ref_lt(a, b) || ref_lt(b, a) || a == b,
{
    lemma_bytes_lt_total(encode_utf8(a.0), encode_utf8(b.0));
    lemma_bytes_lt_total(encode_utf8(a.1), encode_utf8(b.1));
    vstd::utf8::encode_utf8_decode_utf8(a.0);
    vstd::utf8::encode_utf8_decode_utf8(b.0);
    vstd::utf8::encode_utf8_decode_utf8(a.1);
    vstd::utf8::encode_utf8_decode_utf8(b.1);
}

/// Whether `a` sorts strictly before `b`.
pub fn ref_less(a: &ExactContextReference, b: &ExactContextReference) -> (r: bool)
    ensures
        r == ref_lt(ref_view(*a), ref_view(*b)),
{
    if str_less(a.resource_id.as_str(), b.resource_id.as_str()) {
        return true;
    }
    if a.resource_id == b.resource_id {
        return str_less(a.revision.as_str(), b.revision.as_str());
    }
    false
}

fn duplicate_ref(r: &ExactContextReference) -> (c: ExactContextReference)
    ensures
        c == *r,
{
    ExactContextReference { resource_id: r.resource_id.clone(), revision: r.revision.clone() }
}

/// Adds a reference to a strictly ascending list, where it sorts, unless the
/// list holds it already.
pub fn insert_ref(refs: &mut Vec<ExactContextReference>, r: ExactContextReference)
    requires
        refs_ascending(old(refs)@),
    ensures
        refs_ascending(final(refs)@),
        ref_set(final(refs)@) == ref_set(old(refs)@).insert(ref_view(r)),
{
    let ghost before = refs@;
    let ghost v = ref_view(r);
    let mut p: usize = 0;
    while p < refs.len() && ref_less(&refs[p], &r)
        invariant
            p <= refs@.len(),
            refs@ == before,
            v == ref_view(r),
            forall|j: int| 0 <= j < p ==> ref_lt(ref_view(#[trigger] refs@[j]), v),
        decreases refs@.len() - p,
    {
        p = p + 1;
    }
    let present = p < refs.len() && refs[p].resource_id == r.resource_id && refs[p].revision
        == r.revision;
    if present {
        proof {
            assert(ref_view(before[p as int]) == v);
            assert(ref_set(before).contains(v));
            assert(ref_set(refs@) =~= ref_set(before).insert(v));
        }
        return;
    }
    refs.insert(p, r);
    proof {
        let after = refs@;
        if p < before.len() {
            lemma_ref_lt_total(ref_view(before[p as int]), v);
            assert(ref_lt(v, ref_view(before[p as int])));
        }
        assert forall|i: int, j: int| 0 <= i < j < after.len() implies ref_lt(
            ref_view(#[trigger] after[i]),
            ref_view(#[trigger] after[j]),
        ) by {
            if j < p {
                assert(after[i] == before[i] && after[j] == before[j]);
            } else if j == p {
                assert(after[i] == before[i]);
            } else if i > p {
                assert(after[i] == before[i - 1] && after[j] == before[j - 1]);
            } else if i == p {
                assert(after[j] == before[j - 1]);
                if j - 1 > p {
                    assert(ref_lt(ref_view(before[p as int]), ref_view(before[j - 1])));
                    lemma_ref_lt_transitive(v, ref_view(before[p as int]), ref_view(before[j - 1]));
                }
            } else {
                assert(after[i] == before[i] && after[j] == before[j - 1]);
                assert(ref_lt(ref_view(before[i]), v));
                if j - 1 > p {
                    assert(ref_lt(ref_view(before[p as int]), ref_view(before[j - 1])));
                    lemma_ref_lt_transitive(v, ref_view(before[p as int]), ref_view(before[j - 1]));
                }
                lemma_ref_lt_transitive(ref_view(before[i]), v, ref_view(before[j - 1]));
            }
        }
        assert forall|x: (Seq<char>, Seq<char>)| #![auto] ref_set(after).contains(x) == ref_set(
            before,
        ).insert(v).contains(x) by {
            if ref_set(after).contains(x) {
                let j = choose|j: int| 0 <= j < after.len() && ref_view(#[trigger] after[j]) == x;
                if j < p {
                    assert(after[j] == before[j]);
                } else if j > p {
                    assert(after[j] == before[j - 1]);
                }
            }
            if ref_set(before).contains(x) {
                let j = choose|j: int| 0 <= j < before.len() && ref_view(#[trigger] before[j]) == x;
                if j < p {
                    assert(after[j] == before[j]);
                } else {
                    assert(after[j + 1] == before[j]);
                }
            }
            if x == v {
                assert(ref_view(after[p as int]) == v);
            }
        }
        assert(ref_set(after) =~= ref_set(before).insert(v));
    }
}

/// The references of a list in strictly ascending order, each once: the list
/// sorted and without repeats.
pub fn sort_dedup_refs(refs: Vec<ExactContextReference>) -> (r: Vec<ExactContextReference>)
    ensures
        refs_ascending(r@),
        ref_set(r@) == ref_set(refs@),
{
    let mut out: Vec<ExactContextReference> = Vec::new();
    let mut i: usize = 0;
    while i < refs.len()
        invariant
            i <= refs@.len(),
            refs_ascending(out@),
            ref_set(out@) == ref_set(refs@.take(i as int)),
        decreases refs@.len() - i,
    {
        let ghost prior = ref_set(out@);
        insert_ref(&mut out, duplicate_ref(&refs[i]));
        proof {
            let s = refs@;
            assert forall|x: (Seq<char>, Seq<char>)| #![auto] ref_set(s.take(i + 1)).contains(x) == ref_set(
                s.take(i as int),
            ).insert(ref_view(s[i as int])).contains(x) by {
                if ref_set(s.take(i + 1)).contains(x) {
                    let j = choose|j: int| 0 <= j < i + 1 && ref_view(#[trigger] s.take(i + 1)[j]) == x;
                    if j < i {
                        assert(s.take(i as int)[j] == s[j]);
                    }
                }
                if ref_set(s.take(i as int)).contains(x) {
                    let j = choose|j: int| 0 <= j < i && ref_view(#[trigger] s.take(i as int)[j]) == x;
                    assert(s.take(i + 1)[j] == s[j]);
                }
                if x == ref_view(s[i as int]) {
                    assert(s.take(i + 1)[i as int] == s[i as int]);
                }
            }
            assert(ref_set(s.take(i + 1)) =~= ref_set(s.take(i as int)).insert(ref_view(s[i as int])));
        }
        i = i + 1;
    }
    proof {
        assert(refs@.take(i as int) =~= refs@);
    }
    out
}

// ---------------------------------------------------------------------------
// Registration
// ---------------------------------------------------------------------------

/// Where in a workspace a resource applies.
#[derive(Clone, Debug, PartialEq, Eq)]
pub enum ContextScope {
    Workspace,
    PathPrefix(String),
}

/// What is known of a resource revision without its content.
#[derive(Clone, Debug, PartialEq, Eq)]
pub struct ContextDescriptor {
    pub resource_id: String,
    pub revision: String,
    pub kind: ContextResourceKind,
    pub source: String,
    pub scope: ContextScope,
    pub content_identity: String,
    pub estimated_bytes: u64,
}

/// One immutable revision of a resource, with its content.
#[derive(Clone, Debug, PartialEq, Eq)]
pub struct ContextResourceRevision {
    pub descriptor: ContextDescriptor,
    pub content: Vec<u8>,
}

/// Why a resource could not be registered.
#[derive(Clone, Debug, PartialEq, Eq)]
pub enum ResourceError {
    /// An identity was blank; the label names it.
    EmptyIdentity { label: String },
    /// Another revision is already recorded under the same resource and revision.
    RevisionCollision { resource_id: String, revision: String },
}

/// What registering a resource comes to.
#[derive(Clone, Debug, PartialEq, Eq)]
pub enum ResourceRegistration {
    /// The same revision is recorded already; nothing is written.
    Existing { resource: ContextResourceRevision },
    /// The revision is new: it is written under `key`, and `refs` becomes the
    /// index of all revisions.
    New { resource: ContextResourceRevision, key: String, refs: Vec<ExactContextReference> },
}

pub open spec fn scope_view(s: ContextScope) -> Option<Seq<char>> {
    match s {
        ContextScope::Workspace => None,
        ContextScope::PathPrefix(p) => Some(p@),
    }
}

/// Two revisions that hold the same values.
pub open spec fn same_resource(a: ContextResourceRevision, b: ContextResourceRevision) -> bool {
    &&& a.descriptor.resource_id@ == b.descriptor.resource_id@
    &&& a.descriptor.revision@ == b.descriptor.revision@
    &&& a.descriptor.kind == b.descriptor.kind
    &&& a.descriptor.source@ == b.descriptor.source@
    &&& scope_view(a.descriptor.scope) == scope_view(b.descriptor.scope)
    &&& a.descriptor.content_identity@ == b.descriptor.content_identity@
    &&& a.descriptor.estimated_bytes == b.descriptor.estimated_bytes
    &&& a.content@ == b.content@
}

/// The revision a registration records: named by the digest of its content,
/// which is also its content identity, and estimated at its byte length.
pub open spec fn registered_as(
    r: ContextResourceRevision,
    resource_id: Seq<char>,
    kind: ContextResourceKind,
    source: Seq<char>,
    scope: Option<Seq<char>>,
    content: Seq<u8>,
) -> bool {
    &&& r.descriptor.resource_id@ == resource_id
    &&& r.descriptor.revision@ == content_revision(content)
    &&& r.descriptor.kind == kind
    &&& r.descriptor.source@ == source
    &&& scope_view(r.descriptor.scope) == scope
    &&& r.descriptor.content_identity@ == content_revision(content)
    &&& r.descriptor.estimated_bytes == content.len()
    &&& r.content@ == content
}

/// Why a registration is refused before anything is read, if it is.
pub open spec fn registration_identity_error(source: Seq<char>, scope: Option<Seq<char>>) -> Option<
    Seq<char>,
> {
    if is_blank(source) {
        Some("context source"@)
    } else if scope matches Some(p) && is_blank(p) {
        Some("context path scope"@)
    } else {
        None
    }
}

fn bytes_equal(a: &Vec<u8>, b: &Vec<u8>) -> (r: bool)
    ensures
        r == (a@ == b@),
{
    if a.len() != b.len() {
        return false;
    }
    let mut i: usize = 0;
    while i < a.len()
        invariant
            a@.len() == b@.len(),
            i <= a@.len(),
            forall|j: int| 0 <= j < i ==> a@[j] == b@[j],
        decreases a@.len() - i,
    {
        if a[i] != b[i] {
            return false;
        }
        i = i + 1;
    }
    assert(a@ =~= b@);
    true
}

fn scopes_equal(a: &ContextScope, b: &ContextScope) -> (r: bool)
    ensures
        r == (scope_view(*a) == scope_view(*b)),
{
    match (a, b) {
        (ContextScope::Workspace, ContextScope::Workspace) => true,
        (ContextScope::PathPrefix(x), ContextScope::PathPrefix(y)) => *x == *y,
        _ => false,
    }
}

fn resources_equal(a: &ContextResourceRevision, b: &ContextResourceRevision) -> (r: bool)
    ensures
        r == same_resource(*a, *b),
{
    a.descriptor.resource_id == b.descriptor.resource_id && a.descriptor.revision
        == b.descriptor.revision && a.descriptor.kind == b.descriptor.kind && a.descriptor.source
        == b.descriptor.source && scopes_equal(&a.descriptor.scope, &b.descriptor.scope)
        && a.descriptor.content_identity == b.descriptor.content_identity
        && a.descriptor.estimated_bytes == b.descriptor.estimated_bytes && bytes_equal(
        &a.content,
        &b.content,
    )
}

/// Registers a revision of a resource. `existing` is what is recorded under
/// the revision's key (`resource_key(resource_id, content_hash(content))`)
/// and `refs` the index of all recorded revisions. A recorded revision is
/// immutable: the same one again writes nothing, and a different one under
/// the same key is refused. A new revision joins the index, which stays
/// sorted with no reference twice.
pub fn register_resource(
    resource_id: String,
    kind: ContextResourceKind,
    source: String,
    scope: ContextScope,
    content: Vec<u8>,
    existing: Option<ContextResourceRevision>,
    refs: Vec<ExactContextReference>,
) -> (r: Result<ResourceRegistration, ResourceError>)
    ensures
        registration_identity_error(source@, scope_view(scope)) matches Some(label) ==> r matches Err(
            ResourceError::EmptyIdentity { label: l },
        ) && l@ == label,
        registration_identity_error(source@, scope_view(scope)) is None ==> match existing {
            Some(e) => if registered_as(e, resource_id@, kind, source@, scope_view(scope), content@) {
                r == Ok::<_, ResourceError>(ResourceRegistration::Existing { resource: e })
            } else {
                r matches Err(ResourceError::RevisionCollision { resource_id: i, revision: v }) && i@
                    == resource_id@ && v@ == content_revision(content@)
            },
            None => r matches Ok(ResourceRegistration::New { resource, key, refs: index }) && {
                &&& registered_as(resource, resource_id@, kind, source@, scope_view(scope), content@)
                &&& key@ == resource_key_spec(resource_id@, content_revision(content@))
                &&& refs_ascending(index@)
                &&& ref_set(index@) == ref_set(refs@).insert(
                    (resource_id@, content_revision(content@)),
                )
            },
        },
{
    if is_blank_str(source.as_str()) {
        return Err(ResourceError::EmptyIdentity { label: String::from_str("context source") });
    }
    if let ContextScope::PathPrefix(prefix) = &scope {
        if is_blank_str(prefix.as_str()) {
            return Err(ResourceError::EmptyIdentity { label: String::from_str("context path scope") });
        }
    }
    let revision = content_hash(content.as_slice());
    let estimated_bytes = content.len() as u64;
    let resource = ContextResourceRevision {
        descriptor: ContextDescriptor {
            resource_id: resource_id.clone(),
            revision: revision.clone(),
            kind,
            source,
            scope,
            content_identity: revision.clone(),
            estimated_bytes,
        },
        content,
    };
    let key = resource_key(resource_id.as_str(), revision.as_str());
    if let Some(e) = existing {
        if !resources_equal(&e, &resource) {
            return Err(ResourceError::RevisionCollision { resource_id, revision });
        }
        return Ok(ResourceRegistration::Existing { resource: e });
    }
    let mut index = sort_dedup_refs(refs);
    insert_ref(&mut index, ExactContextReference { resource_id, revision });
    Ok(ResourceRegistration::New { resource, key, refs: index })
}

// ---------------------------------------------------------------------------
// Discovery of project files
// ---------------------------------------------------------------------------

/// A file of a repository, as read from the workspace.
#[derive(Clone, Debug, PartialEq, Eq)]
pub struct RepositoryContextSource {
    pub path: String,
    pub content: Vec<u8>,
}

/// A resource to register for a discovered project file.
#[derive(Clone, Debug, PartialEq, Eq)]
pub struct PlannedResource {
    pub resource_id: String,
    pub kind: ContextResourceKind,
    pub source: String,
    pub scope: ContextScope,
    pub content: Vec<u8>,
}

/// Sources in ascending order of their paths.
pub open spec fn sources_sorted(s: Seq<RepositoryContextSource>) -> bool {
    forall|i: int, j: int|
        0 <= i < j < s.len() ==> !bytes_lt(
            encode_utf8(#[trigger] s[j].path@),
            encode_utf8(#[trigger] s[i].path@),
        )
}

/// The order of sources: by the bytes of their paths.
pub open spec fn source_order() -> spec_fn(RepositoryContextSource, RepositoryContextSource) -> bool {
    |a: RepositoryContextSource, b: RepositoryContextSource| bytes_lt(encode_utf8(a.path@), encode_utf8(b.path@))
}

/// Sorts sources by path, keeping sources with equal paths in the order they came.
pub fn sort_sources(input: Vec<RepositoryContextSource>) -> (r: Vec<RepositoryContextSource>)
    ensures
        r@ == stable_sort(input@, source_order()),
        sources_sorted(r@),
        r@.to_multiset() == input@.to_multiset(),
{
    let mut rest = input;
    let mut sorted: Vec<RepositoryContextSource> = Vec::new();
    let ghost all = rest@;
    let ghost mut taken: int = 0;
    while rest.len() > 0
        invariant
            sources_sorted(sorted@),
            sorted@.to_multiset().add(rest@.to_multiset()) == all.to_multiset(),
            0 <= taken <= all.len(),
            rest@ == all.skip(taken),
            sorted@ == stable_sort(all.take(taken), source_order()),
        decreases rest@.len(),
    {
        let ghost before_rest = rest@;
        let x = rest.remove(0);
        proof {
            assert(x == all[taken]);
            lemma_stable_sort_step(all, taken, source_order());
        }
        proof {
            assert(before_rest =~= seq![x] + rest@);
            vstd::seq_lib::lemma_multiset_commutative(seq![x], rest@);
            assert(seq![x].to_multiset() =~= vstd::multiset::Multiset::singleton(x)) by {
                assert(seq![x] =~= Seq::<RepositoryContextSource>::empty().push(x));
            }
        }
        let mut p: usize = 0;
        while p < sorted.len() && !str_less(x.path.as_str(), sorted[p].path.as_str())
            invariant
                p <= sorted@.len(),
                forall|k: int|
                    0 <= k < p ==> !bytes_lt(encode_utf8(x.path@), encode_utf8(#[trigger] sorted@[k].path@)),
            decreases sorted@.len() - p,
        {
            p = p + 1;
        }
        let ghost old_sorted = sorted@;
        sorted.insert(p, x);
        proof {
            let s = sorted@;
            assert(s =~= old_sorted.insert(p as int, x));
            lemma_insert_before_greater(old_sorted, x, source_order(), p as int);
            taken = taken + 1;
            assert(rest@ =~= all.skip(taken));
            assert forall|i: int, j: int| 0 <= i < j < s.len() implies !bytes_lt(
                encode_utf8(#[trigger] s[j].path@),
                encode_utf8(#[trigger] s[i].path@),
            ) by {
                if j < p {
                    assert(s[i] == old_sorted[i] && s[j] == old_sorted[j]);
                } else if j == p {
                    assert(s[i] == old_sorted[i]);
                } else if i > p {
                    assert(s[i] == old_sorted[i - 1] && s[j] == old_sorted[j - 1]);
                } else if i == p {
                    assert(s[j] == old_sorted[j - 1]);
                    let a = encode_utf8(s[j].path@);
                    let b = encode_utf8(x.path@);
                    let c = encode_utf8(old_sorted[p as int].path@);
                    if bytes_lt(a, b) {
                        lemma_bytes_lt_transitive(a, b, c);
                        if j - 1 == p {
                            lemma_bytes_lt_irreflexive(c);
                        }
                    }
                } else {
                    assert(s[i] == old_sorted[i] && s[j] == old_sorted[j - 1]);
                }
            }
            assert(s.to_multiset() =~= old_sorted.to_multiset().insert(x));
            assert(sorted@.to_multiset().add(rest@.to_multiset()) =~= all.to_multiset());
        }
    }
    proof {
        assert(rest@ =~= Seq::<RepositoryContextSource>::empty());
        assert(sorted@.to_multiset().add(rest@.to_multiset()) =~= sorted@.to_multiset());
        assert(all.take(taken) =~= all);
    }
    sorted
}

/// The word a resource identity starts with, by kind.
pub open spec fn kind_prefix(kind: ContextResourceKind) -> Seq<char> {
    match kind {
        ContextResourceKind::ProjectInstruction => "project-instruction"@,
        ContextResourceKind::ProjectDocument => "project-document"@,
        ContextResourceKind::Skill => "skill"@,
        ContextResourceKind::External => "external"@,
    }
}

/// A skill applies to the whole workspace; other project files apply under
/// the directory that holds them, or to the workspace at its root.
pub open spec fn discovery_scope(kind: ContextResourceKind, path: Seq<char>) -> Option<Seq<char>> {
    if kind == ContextResourceKind::Skill {
        None
    } else {
        match parent_path_spec(path) {
            Some(parent) => if parent.len() > 0 {
                Some(parent)
            } else {
                None
            },
            None => None,
        }
    }
}

/// The resource planned for a source that is a project file.
pub open spec fn planned_view(p: PlannedResource) -> (
    Seq<char>,
    ContextResourceKind,
    Seq<char>,
    Option<Seq<char>>,
    Seq<u8>,
) {
    (p.resource_id@, p.kind, p.source@, scope_view(p.scope), p.content@)
}

/// The resources planned for sources in order: one per project file, with
/// identity `<kind>:<workspace>:<path>`.
pub open spec fn discovery_plan(s: Seq<RepositoryContextSource>, workspace: Seq<char>) -> Seq<
    (Seq<char>, ContextResourceKind, Seq<char>, Option<Seq<char>>, Seq<u8>),
>
    decreases s.len(),
{
    if s.len() == 0 {
        Seq::empty()
    } else {
        let rest = discovery_plan(s.drop_last(), workspace);
        let src = s.last();
        match project_file_kind_spec(src.path@) {
            Some(kind) => rest.push(
                (
                    kind_prefix(kind) + ":"@ + workspace + ":"@ + src.path@,
                    kind,
                    src.path@,
                    discovery_scope(kind, src.path@),
                    src.content@,
                ),
            ),
            None => rest,
        }
    }
}

/// Plans the registration of a repository's project files: the sources in
/// path order, each project file as one resource.
pub fn plan_discovery(workspace_id: &str, sources: Vec<RepositoryContextSource>) -> (r: Result<
    Vec<PlannedResource>,
    ResourceError,
>)
    ensures
        is_blank(workspace_id@) ==> (r matches Err(ResourceError::EmptyIdentity { label }) && label@
            == "workspace id"@),
        !is_blank(workspace_id@) ==> (r matches Ok(plan) && exists|s: Seq<RepositoryContextSource>|
            {
                &&& sources_sorted(s)
                &&& s.to_multiset() == sources@.to_multiset()
                &&& plan@.map_values(|p: PlannedResource| planned_view(p)) == discovery_plan(
                    s,
                    workspace_id@,
                )
            }),
{
    if is_blank_str(workspace_id) {
        return Err(ResourceError::EmptyIdentity { label: String::from_str("workspace id") });
    }
    let sorted = sort_sources(sources);
    let ghost s = sorted@;
    let mut plan: Vec<PlannedResource> = Vec::new();
    let mut rest = sorted;
    let n = rest.len();
    let mut i: usize = 0;
    while i < n
        invariant
            n == s.len(),
            i <= n,
            rest@ == s.skip(i as int),
            plan@.map_values(|p: PlannedResource| planned_view(p)) == discovery_plan(
                s.take(i as int),
                workspace_id@,
            ),
        decreases n - i,
    {
        let source = rest.remove(0);
        proof {
            assert(source == s[i as int]);
            assert(rest@ =~= s.skip(i + 1));
            assert(s.take(i + 1).drop_last() =~= s.take(i as int));
            assert(s.take(i + 1).last() == s[i as int]);
        }
        let ghost before = plan@;
        match project_file_kind(source.path.as_str()) {
            None => {},
            Some(kind) => {
                let scope = match kind {
                    ContextResourceKind::Skill => ContextScope::Workspace,
                    _ => match parent_path(source.path.as_str()) {
                        Some(parent) => {
                            if parent.unicode_len() > 0 {
                                ContextScope::PathPrefix(parent)
                            } else {
                                ContextScope::Workspace
                            }
                        },
                        None => ContextScope::Workspace,
                    },
                };
                let word = match kind {
                    ContextResourceKind::ProjectInstruction => "project-instruction",
                    ContextResourceKind::ProjectDocument => "project-document",
                    ContextResourceKind::Skill => "skill",
                    ContextResourceKind::External => "external",
                };
                let mut resource_id = String::from_str(word);
                resource_id.append(":");
                resource_id.append(workspace_id);
                resource_id.append(":");
                resource_id.append(source.path.as_str());
                let RepositoryContextSource { path, content } = source;
                plan.push(PlannedResource { resource_id, kind, source: path, scope, content });
                proof {
                    assert(plan@.map_values(|p: PlannedResource| planned_view(p)) =~= before.map_values(
                        |p: PlannedResource| planned_view(p),
                    ).push(planned_view(plan@.last())));
                }
            },
        }
        i = i + 1;
    }
    proof {
        assert(s.take(n as int) =~= s);
    }
    Ok(plan)
}

/// The key descriptors are listed by: resource, then revision.
pub open spec fn descriptor_key(d: ContextDescriptor) -> (Seq<char>, Seq<char>) {
    (d.resource_id@, d.revision@)
}

/// Descriptors in ascending order of resource and revision.
pub open spec fn descriptors_sorted(s: Seq<ContextDescriptor>) -> bool {
    forall|i: int, j: int|
        0 <= i < j < s.len() ==> !ref_lt(descriptor_key(#[trigger] s[j]), descriptor_key(#[trigger] s[i]))
}

fn descriptor_less(a: &ContextDescriptor, b: &ContextDescriptor) -> (r: bool)
    ensures
        r == ref_lt(descriptor_key(*a), descriptor_key(*b)),
{
    if str_less(a.resource_id.as_str(), b.resource_id.as_str()) {
        return true;
    }
    if a.resource_id == b.resource_id {
        return str_less(a.revision.as_str(), b.revision.as_str());
    }
    false
}

/// The order of descriptors: by resource, then revision.
pub open spec fn descriptor_order() -> spec_fn(ContextDescriptor, ContextDescriptor) -> bool {
    |a: ContextDescriptor, b: ContextDescriptor| ref_lt(descriptor_key(a), descriptor_key(b))
}

/// Sorts the descriptors of registered resources by resource and revision,
/// keeping equal ones in the order they came.
pub fn sort_descriptors(input: Vec<ContextDescriptor>) -> (r: Vec<ContextDescriptor>)
    ensures
        r@ == stable_sort(input@, descriptor_order()),
        descriptors_sorted(r@),
        r@.to_multiset() == input@.to_multiset(),
{
    let mut rest = input;
    let mut sorted: Vec<ContextDescriptor> = Vec::new();
    let ghost all = rest@;
    let ghost mut taken: int = 0;
    while rest.len() > 0
        invariant
            descriptors_sorted(sorted@),
            sorted@.to_multiset().add(rest@.to_multiset()) == all.to_multiset(),
            0 <= taken <= all.len(),
            rest@ == all.skip(taken),
            sorted@ == stable_sort(all.take(taken), descriptor_order()),
        decreases rest@.len(),
    {
        let ghost before_rest = rest@;
        let x = rest.remove(0);
        proof {
            assert(x == all[taken]);
            lemma_stable_sort_step(all, taken, descriptor_order());
        }
        proof {
            assert(before_rest =~= seq![x] + rest@);
            vstd::seq_lib::lemma_multiset_commutative(seq![x], rest@);
            assert(seq![x].to_multiset() =~= vstd::multiset::Multiset::singleton(x)) by {
                assert(seq![x] =~= Seq::<ContextDescriptor>::empty().push(x));
            }
        }
        let mut p: usize = 0;
        while p < sorted.len() && !descriptor_less(&x, &sorted[p])
            invariant
                p <= sorted@.len(),
                forall|k: int|
                    0 <= k < p ==> !ref_lt(descriptor_key(x), descriptor_key(#[trigger] sorted@[k])),
            decreases sorted@.len() - p,
        {
            p = p + 1;
        }
        let ghost old_sorted = sorted@;
        sorted.insert(p, x);
        proof {
            let s = sorted@;
            assert(s =~= old_sorted.insert(p as int, x));
            lemma_insert_before_greater(old_sorted, x, descriptor_order(), p as int);
            taken = taken + 1;
            assert(rest@ =~= all.skip(taken));
            assert forall|i: int, j: int| 0 <= i < j < s.len() implies !ref_lt(
                descriptor_key(#[trigger] s[j]),
                descriptor_key(#[trigger] s[i]),
            ) by {
                if j < p {
                    assert(s[i] == old_sorted[i] && s[j] == old_sorted[j]);
                } else if j == p {
                    assert(s[i] == old_sorted[i]);
                } else if i > p {
                    assert(s[i] == old_sorted[i - 1] && s[j] == old_sorted[j - 1]);
                } else if i == p {
                    assert(s[j] == old_sorted[j - 1]);
                    let a = descriptor_key(s[j]);
                    let b = descriptor_key(x);
                    let c = descriptor_key(old_sorted[p as int]);
                    if ref_lt(a, b) {
                        lemma_ref_lt_transitive(a, b, c);
                        if j - 1 == p {
                            lemma_ref_lt_irreflexive(c);
                        }
                    }
                } else {
                    assert(s[i] == old_sorted[i] && s[j] == old_sorted[j - 1]);
                }
            }
            assert(s.to_multiset() =~= old_sorted.to_multiset().insert(x));
            assert(sorted@.to_multiset().add(rest@.to_multiset()) =~= all.to_multiset());
        }
    }
    proof {
        assert(rest@ =~= Seq::<ContextDescriptor>::empty());
        assert(sorted@.to_multiset().add(rest@.to_multiset()) =~= sorted@.to_multiset());
        assert(all.take(taken) =~= all);
    }
    sorted
}

// ---------------------------------------------------------------------------
// Results of delegated tasks
// ---------------------------------------------------------------------------

/// Why a delegated task's result cannot be loaded as context.
#[derive(Clone, Debug, PartialEq, Eq)]
pub enum DelegatedResultError {
    EmptyTaskId,
    UnknownTask { task_id: String },
    NotCompleted { task_id: String },
    MissingResult { task_id: String },
}

/// The result of a delegated task, which must be known, completed, and hold
/// a result; `record` is the task as the task store keeps it.
pub fn completed_result<'a, B, R>(task_id: &str, record: Option<&'a DelegatedWorkerTaskRecord<B, R>>) -> (r:
    Result<&'a R, DelegatedResultError>)
    ensures
        is_blank(task_id@) ==> r == Err::<&R, _>(DelegatedResultError::EmptyTaskId),
        !is_blank(task_id@) ==> match record {
            None => r matches Err(DelegatedResultError::UnknownTask { task_id: t }) && t@ == task_id@,
            Some(rec) => if !(rec.task.state is Completed) {
                r matches Err(DelegatedResultError::NotCompleted { task_id: t }) && t@ == task_id@
            } else {
                match rec.result {
                    None => r matches Err(DelegatedResultError::MissingResult { task_id: t }) && t@
                        == task_id@,
                    Some(v) => r == Ok::<&R, DelegatedResultError>(&v),
                }
            },
        },
{
    if is_blank_str(task_id) {
        return Err(DelegatedResultError::EmptyTaskId);
    }
    match record {
        None => Err(DelegatedResultError::UnknownTask { task_id: task_id.to_string() }),
        Some(rec) => {
            if !matches!(rec.task.state, WorkerTaskState::Completed { .. }) {
                return Err(DelegatedResultError::NotCompleted { task_id: task_id.to_string() });
            }
            match &rec.result {
                None => Err(DelegatedResultError::MissingResult { task_id: task_id.to_string() }),
                Some(v) => Ok(v),
            }
        },
    }
}

/// The admission under which a delegated task's result is loaded, once.
pub fn delegation_admission_id(task_id: &str) -> (r: String)
    ensures
        r@ == "delegation-result:"@ + task_id@,
{
    let mut s = String::from_str("delegation-result:");
    s.append(task_id);
    s
}

/// Why a delegated task's result is loaded.
pub fn delegation_reason(task_id: &str) -> (r: String)
    ensures
        r@ == "delegated result "@ + task_id@,
{
    let mut s = String::from_str("delegated result ");
    s.append(task_id);
    s
}

} // verus!
