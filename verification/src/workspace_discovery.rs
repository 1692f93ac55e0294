//! Discovery of known workspaces from their durable descriptors.
//!
//! A descriptor records what identifies a workspace (its id, repository
//! remotes and recall terms). A query is matched against a bounded scan of
//! descriptors; exact identity outranks repository remotes, which outrank
//! shared recall terms.
//!
//! The sets of a descriptor and of a query are held as vectors of their
//! elements in ascending order.
use crate::identity::{is_blank, is_blank_str};
use crate::text::{bytes_lt, lemma_bytes_lt_irreflexive, lemma_bytes_lt_total, lemma_bytes_lt_transitive, str_less};
use vstd::prelude::*;
use vstd::string::StrSliceExecFns;
use vstd::utf8::encode_utf8;
use crate::sorting::{lemma_insert_before_greater, lemma_stable_sort_step, stable_sort};

verus! {

broadcast use vstd::seq_lib::group_to_multiset_ensures;

pub const WORKSPACE_DISCOVERY_DESCRIPTOR_VERSION: u32 = 1;

pub const MAX_WORKSPACE_DISCOVERY_DESCRIPTOR_BYTES: usize = 65536;

pub const MAX_WORKSPACE_DISCOVERY_REMOTES: usize = 16;

pub const MAX_WORKSPACE_DISCOVERY_TERMS: usize = 256;

pub const MAX_WORKSPACE_DISCOVERY_TERM_BYTES: usize = 64;

pub const MAX_WORKSPACE_DISCOVERY_SCAN: usize = 4096;

pub const MAX_WORKSPACE_DISCOVERY_PREPARED_CANDIDATES: usize = 3;

/// What a workspace is known by.
#[derive(Clone, Debug, PartialEq, Eq)]
pub struct WorkspaceDiscoveryDescriptorV1 {
    pub version: u32,
    pub workspace_id: String,
    pub canonical_root: String,
    pub repository_remotes: Vec<String>,
    pub recall_terms: Vec<String>,
    pub observation_count: u32,
    pub confirmed_recoveries: u32,
    pub last_observed_at: u64,
}

#[derive(Clone, Debug, PartialEq, Eq)]
pub enum WorkspaceDiscoveryDescriptorError {
    UnsupportedVersion { version: u32 },
    EmptyWorkspaceId,
    RelativeRoot,
    TooManyRepositoryRemotes { requested: usize, allowed: usize },
    TooManyRecallTerms { requested: usize, allowed: usize },
    RecallTermTooLarge { term: String, requested: usize, allowed: usize },
    SerializedDescriptorTooLarge { requested: usize, allowed: usize },
}

/// Texts in strictly ascending byte order: a set, as a `BTreeSet<String>`
/// holds and walks it.
pub open spec fn text_set_order(s: Seq<String>) -> bool {
    forall|i: int, j: int|
        0 <= i < j < s.len() ==> bytes_lt(encode_utf8(#[trigger] s[i]@), encode_utf8(#[trigger] s[j]@))
}

/// A descriptor's remotes and recall terms are sets.
pub open spec fn descriptor_sets(d: WorkspaceDiscoveryDescriptorV1) -> bool {
    text_set_order(d.repository_remotes@) && text_set_order(d.recall_terms@)
}

/// The set of the given texts, in ascending order, each once.
pub fn text_set(items: Vec<String>) -> (r: Vec<String>)
    ensures
        text_set_order(r@),
        forall|t: Seq<char>| has_text(r@, t) <==> has_text(items@, t),
{
    let mut set: crate::text_map::TextMap<()> = crate::text_map::TextMap::new();
    let mut i: usize = 0;
    while i < items.len()
        invariant
            i <= items@.len(),
            set.wf(),
            forall|t: Seq<char>| #[trigger] set@.contains_key(t) <==> has_text(items@.take(i as int), t),
        decreases items@.len() - i,
    {
        set.insert(items[i].clone(), ());
        proof {
            assert forall|t: Seq<char>| #[trigger] set@.contains_key(t) <==> has_text(items@.take(i + 1), t) by {
                if has_text(items@.take(i + 1), t) {
                    let j = choose|j: int| 0 <= j < items@.take(i + 1).len() && #[trigger] items@.take(i + 1)[j]@ == t;
                    if j < i {
                        assert(items@.take(i as int)[j] == items@.take(i + 1)[j]);
                    }
                }
                if has_text(items@.take(i as int), t) {
                    let j = choose|j: int| 0 <= j < items@.take(i as int).len() && #[trigger] items@.take(i as int)[j]@ == t;
                    assert(items@.take(i + 1)[j] == items@.take(i as int)[j]);
                }
                if t == items@[i as int]@ {
                    assert(items@.take(i + 1)[i as int] == items@[i as int]);
                }
            }
        }
        i = i + 1;
    }
    let ghost es = set.entry_seq();
    proof {
        assert(items@.take(i as int) =~= items@);
        set.lemma_entries();
        assert forall|t: Seq<char>| crate::text_map::has_entry(es, t) <==> has_text(items@, t) by {
            assert(set@.contains_key(t) <==> crate::text_map::has_entry(es, t));
        }
    }
    let entries = set.into_entries();
    let mut out: Vec<String> = Vec::new();
    let mut k: usize = 0;
    while k < entries.len()
        invariant
            entries@ == es,
            crate::text_map::ascending(es),
            forall|t: Seq<char>| crate::text_map::has_entry(es, t) <==> has_text(items@, t),
            k <= es.len(),
            out@.len() == k,
            forall|j: int| 0 <= j < k ==> (#[trigger] out@[j])@ == es[j].0@,
        decreases es.len() - k,
    {
        out.push(entries[k].0.clone());
        k = k + 1;
    }
    proof {
        assert forall|a: int, b: int| 0 <= a < b < out@.len() implies bytes_lt(
            encode_utf8(#[trigger] out@[a]@),
            encode_utf8(#[trigger] out@[b]@),
        ) by {
            assert(out@[a]@ == es[a].0@ && out@[b]@ == es[b].0@);
        }
        assert forall|t: Seq<char>| has_text(out@, t) <==> has_text(items@, t) by {
            if has_text(out@, t) {
                let j = choose|j: int| 0 <= j < out@.len() && #[trigger] out@[j]@ == t;
                assert(es[j].0@ == t);
                assert(crate::text_map::has_entry(es, t));
            }
            if has_text(items@, t) {
                assert(crate::text_map::has_entry(es, t));
                let j = choose|j: int| 0 <= j < es.len() && #[trigger] es[j].0@ == t;
                assert(out@[j]@ == t);
            }
        }
    }
    out
}

/// A path is absolute when it starts at the root.
pub open spec fn is_absolute_path(p: Seq<char>) -> bool {
    p.len() > 0 && p[0] == '/'
}

/// The length of a text's UTF-8 encoding.
pub open spec fn byte_len(t: String) -> usize {
    encode_utf8(t@).len() as usize
}

pub open spec fn term_too_large(t: String) -> bool {
    byte_len(t) > MAX_WORKSPACE_DISCOVERY_TERM_BYTES
}

/// The first recall term that is too large.
pub open spec fn first_oversized_term(terms: Seq<String>) -> int {
    choose|k: int|
        0 <= k < terms.len() && term_too_large(terms[k]) && forall|j: int|
            0 <= j < k ==> !term_too_large(#[trigger] terms[j])
}

pub open spec fn has_oversized_term(terms: Seq<String>) -> bool {
    exists|k: int| 0 <= k < terms.len() && #[trigger] term_too_large(terms[k])
}

/// The first rule that a descriptor breaks, checked in the order version,
/// identity, root, remote count, term count, term size, encoded size; the
/// descriptor's JSON encoding is `encoded_len` bytes long.
pub open spec fn validate_outcome(d: WorkspaceDiscoveryDescriptorV1, encoded_len: usize) -> Result<
    (),
    WorkspaceDiscoveryDescriptorError,
> {
    if d.version != WORKSPACE_DISCOVERY_DESCRIPTOR_VERSION {
        Err(WorkspaceDiscoveryDescriptorError::UnsupportedVersion { version: d.version })
    } else if is_blank(d.workspace_id@) {
        Err(WorkspaceDiscoveryDescriptorError::EmptyWorkspaceId)
    } else if !is_absolute_path(d.canonical_root@) {
        Err(WorkspaceDiscoveryDescriptorError::RelativeRoot)
    } else if d.repository_remotes.len() > MAX_WORKSPACE_DISCOVERY_REMOTES {
        Err(
            WorkspaceDiscoveryDescriptorError::TooManyRepositoryRemotes {
                requested: d.repository_remotes.len(),
                allowed: MAX_WORKSPACE_DISCOVERY_REMOTES,
            },
        )
    } else if d.recall_terms.len() > MAX_WORKSPACE_DISCOVERY_TERMS {
        Err(
            WorkspaceDiscoveryDescriptorError::TooManyRecallTerms {
                requested: d.recall_terms.len(),
                allowed: MAX_WORKSPACE_DISCOVERY_TERMS,
            },
        )
    } else if has_oversized_term(d.recall_terms@) {
        let t = d.recall_terms@[first_oversized_term(d.recall_terms@)];
        Err(
            WorkspaceDiscoveryDescriptorError::RecallTermTooLarge {
                term: t,
                requested: byte_len(t),
                allowed: MAX_WORKSPACE_DISCOVERY_TERM_BYTES,
            },
        )
    } else if encoded_len > MAX_WORKSPACE_DISCOVERY_DESCRIPTOR_BYTES {
        Err(
            WorkspaceDiscoveryDescriptorError::SerializedDescriptorTooLarge {
                requested: encoded_len,
                allowed: MAX_WORKSPACE_DISCOVERY_DESCRIPTOR_BYTES,
            },
        )
    } else {
        Ok(())
    }
}

pub fn is_absolute(path: &str) -> (r: bool)
    ensures
        r == is_absolute_path(path@),
{
    path.unicode_len() > 0 && path.get_char(0) == '/'
}

impl WorkspaceDiscoveryDescriptorV1 {
    /// Checks the descriptor against its format's limits; `encoded_len` is the
    /// length of its JSON encoding.
    pub fn validate(&self, encoded_len: usize) -> (r: Result<(), WorkspaceDiscoveryDescriptorError>)
        requires
            descriptor_sets(*self),
        ensures
            r == validate_outcome(*self, encoded_len),
    {
        if self.version != WORKSPACE_DISCOVERY_DESCRIPTOR_VERSION {
            return Err(WorkspaceDiscoveryDescriptorError::UnsupportedVersion { version: self.version });
        }
        if is_blank_str(self.workspace_id.as_str()) {
            return Err(WorkspaceDiscoveryDescriptorError::EmptyWorkspaceId);
        }
        if !is_absolute(self.canonical_root.as_str()) {
            return Err(WorkspaceDiscoveryDescriptorError::RelativeRoot);
        }
        if self.repository_remotes.len() > MAX_WORKSPACE_DISCOVERY_REMOTES {
            return Err(
                WorkspaceDiscoveryDescriptorError::TooManyRepositoryRemotes {
                    requested: self.repository_remotes.len(),
                    allowed: MAX_WORKSPACE_DISCOVERY_REMOTES,
                },
            );
        }
        if self.recall_terms.len() > MAX_WORKSPACE_DISCOVERY_TERMS {
            return Err(
                WorkspaceDiscoveryDescriptorError::TooManyRecallTerms {
                    requested: self.recall_terms.len(),
                    allowed: MAX_WORKSPACE_DISCOVERY_TERMS,
                },
            );
        }
        let mut i: usize = 0;
        while i < self.recall_terms.len()
            invariant
                i <= self.recall_terms@.len(),
                forall|j: int| 0 <= j < i ==> !term_too_large(#[trigger] self.recall_terms@[j]),
                self.version == WORKSPACE_DISCOVERY_DESCRIPTOR_VERSION,
                !is_blank(self.workspace_id@),
                is_absolute_path(self.canonical_root@),
                self.repository_remotes.len() <= MAX_WORKSPACE_DISCOVERY_REMOTES,
                self.recall_terms.len() <= MAX_WORKSPACE_DISCOVERY_TERMS,
            decreases self.recall_terms@.len() - i,
        {
            let length = self.recall_terms[i].as_str().len();
            if length > MAX_WORKSPACE_DISCOVERY_TERM_BYTES {
                proof {
                    let terms = self.recall_terms@;
                    assert(term_too_large(terms[i as int]));
                    assert(0 <= i < terms.len() && term_too_large(terms[i as int]) && forall|j: int|
                        0 <= j < i ==> !term_too_large(#[trigger] terms[j]));
                    let k = first_oversized_term(terms);
                    assert(has_oversized_term(terms));
                    if k != i {
                        if k < i {
                            assert(!term_too_large(terms[k]));
                        } else {
                            assert(!term_too_large(terms[i as int]));
                        }
                    }
                }
                return Err(
                    WorkspaceDiscoveryDescriptorError::RecallTermTooLarge {
                        term: self.recall_terms[i].clone(),
                        requested: length,
                        allowed: MAX_WORKSPACE_DISCOVERY_TERM_BYTES,
                    },
                );
            }
            i = i + 1;
        }
        if encoded_len > MAX_WORKSPACE_DISCOVERY_DESCRIPTOR_BYTES {
            return Err(
                WorkspaceDiscoveryDescriptorError::SerializedDescriptorTooLarge {
                    requested: encoded_len,
                    allowed: MAX_WORKSPACE_DISCOVERY_DESCRIPTOR_BYTES,
                },
            );
        }
        Ok(())
    }
}

/// What a scan looks for.
#[derive(Clone, Debug, Default, PartialEq, Eq)]
pub struct WorkspaceDiscoveryQuery {
    pub workspace_ids: Vec<String>,
    pub repository_remotes: Vec<String>,
    pub recall_terms: Vec<String>,
}

/// Why a descriptor answers a query.
#[derive(Clone, Copy, Debug, PartialEq, Eq)]
pub enum WorkspaceDiscoveryMatch {
    ExactWorkspaceId,
    ExactRepositoryRemote,
    LexicalTerms { matched: u32 },
}

pub open spec fn match_class(m: WorkspaceDiscoveryMatch) -> u8 {
    match m {
        WorkspaceDiscoveryMatch::ExactWorkspaceId => 3,
        WorkspaceDiscoveryMatch::ExactRepositoryRemote => 2,
        WorkspaceDiscoveryMatch::LexicalTerms { .. } => 1,
    }
}

pub open spec fn lexical_strength(m: WorkspaceDiscoveryMatch) -> u32 {
    match m {
        WorkspaceDiscoveryMatch::LexicalTerms { matched } => matched,
        _ => 0,
    }
}

impl WorkspaceDiscoveryMatch {
    /// The strength class of the evidence: exact identity, then remote, then terms.
    pub fn class(&self) -> (r: u8)
        ensures
            r == match_class(*self),
    {
        match self {
            WorkspaceDiscoveryMatch::ExactWorkspaceId => 3,
            WorkspaceDiscoveryMatch::ExactRepositoryRemote => 2,
            WorkspaceDiscoveryMatch::LexicalTerms { .. } => 1,
        }
    }
}

/// A descriptor that answers a query, with the evidence why.
#[derive(Clone, Debug, PartialEq, Eq)]
pub struct WorkspaceDiscoveryCandidate {
    pub descriptor: WorkspaceDiscoveryDescriptorV1,
    pub evidence: WorkspaceDiscoveryMatch,
}

#[derive(Clone, Debug, PartialEq, Eq)]
pub enum WorkspaceDiscoveryCompleteness {
    Complete,
    Incomplete { reason: String },
}

#[derive(Clone, Debug, PartialEq, Eq)]
pub struct WorkspaceDiscoveryScanResult {
    pub candidates: Vec<WorkspaceDiscoveryCandidate>,
    pub scanned_descriptors: u32,
    pub invalid_descriptors: u32,
    pub completeness: WorkspaceDiscoveryCompleteness,
}

pub open spec fn has_text(s: Seq<String>, t: Seq<char>) -> bool {
    exists|i: int| 0 <= i < s.len() && #[trigger] s[i]@ == t
}

pub open spec fn shares_text(a: Seq<String>, b: Seq<String>) -> bool {
    exists|i: int| 0 <= i < a.len() && has_text(b, #[trigger] a[i]@)
}

/// How many of `terms` the query also names.
pub open spec fn count_shared(terms: Seq<String>, query: Seq<String>) -> nat
    decreases terms.len(),
{
    if terms.len() == 0 {
        0
    } else {
        count_shared(terms.drop_last(), query) + if has_text(query, terms.last()@) {
            1nat
        } else {
            0nat
        }
    }
}

/// The evidence that a descriptor answers a query, if any.
pub open spec fn match_outcome(d: WorkspaceDiscoveryDescriptorV1, q: WorkspaceDiscoveryQuery) -> Option<
    WorkspaceDiscoveryMatch,
> {
    if has_text(q.workspace_ids@, d.workspace_id@) {
        Some(WorkspaceDiscoveryMatch::ExactWorkspaceId)
    } else if shares_text(d.repository_remotes@, q.repository_remotes@) {
        Some(WorkspaceDiscoveryMatch::ExactRepositoryRemote)
    } else {
        let m = count_shared(d.recall_terms@, q.recall_terms@);
        if m > 0 {
            Some(
                WorkspaceDiscoveryMatch::LexicalTerms {
                    matched: if m > u32::MAX {
                        u32::MAX
                    } else {
                        m as u32
                    },
                },
            )
        } else {
            None
        }
    }
}

/// Whether `s` holds a text equal to `t`.
pub fn contains_text(s: &Vec<String>, t: &String) -> (r: bool)
    ensures
        r == has_text(s@, t@),
{
    let mut i: usize = 0;
    while i < s.len()
        invariant
            i <= s@.len(),
            forall|j: int| 0 <= j < i ==> #[trigger] s@[j]@ != t@,
        decreases s@.len() - i,
    {
        if s[i] == *t {
            return true;
        }
        i = i + 1;
    }
    false
}

/// The evidence that a descriptor answers a query, if any.
pub fn descriptor_match(d: &WorkspaceDiscoveryDescriptorV1, q: &WorkspaceDiscoveryQuery) -> (r: Option<
    WorkspaceDiscoveryMatch,
>)
    requires
        descriptor_sets(*d),
    ensures
        r == match_outcome(*d, *q),
{
    if contains_text(&q.workspace_ids, &d.workspace_id) {
        return Some(WorkspaceDiscoveryMatch::ExactWorkspaceId);
    }
    let mut i: usize = 0;
    while i < d.repository_remotes.len()
        invariant
            !has_text(q.workspace_ids@, d.workspace_id@),
            i <= d.repository_remotes@.len(),
            forall|j: int|
                0 <= j < i ==> !has_text(q.repository_remotes@, #[trigger] d.repository_remotes@[j]@),
        decreases d.repository_remotes@.len() - i,
    {
        if contains_text(&q.repository_remotes, &d.repository_remotes[i]) {
            assert(has_text(q.repository_remotes@, d.repository_remotes@[i as int]@));
            assert(shares_text(d.repository_remotes@, q.repository_remotes@));
            return Some(WorkspaceDiscoveryMatch::ExactRepositoryRemote);
        }
        i = i + 1;
    }
    let mut matched: u64 = 0;
    let mut k: usize = 0;
    while k < d.recall_terms.len()
        invariant
            k <= d.recall_terms@.len(),
            matched == count_shared(d.recall_terms@.take(k as int), q.recall_terms@),
            matched <= k,
        decreases d.recall_terms@.len() - k,
    {
        proof {
            assert(d.recall_terms@.take(k + 1).drop_last() =~= d.recall_terms@.take(k as int));
        }
        if contains_text(&q.recall_terms, &d.recall_terms[k]) {
            matched = matched + 1;
        }
        k = k + 1;
    }
    proof {
        assert(d.recall_terms@.take(k as int) =~= d.recall_terms@);
    }
    if matched > 0 {
        let m: u32 = if matched > u32::MAX as u64 {
            u32::MAX
        } else {
            matched as u32
        };
        Some(WorkspaceDiscoveryMatch::LexicalTerms { matched: m })
    } else {
        None
    }
}

/// Whether candidate `a` ranks strictly before candidate `b`: stronger evidence
/// first, then more shared terms, more confirmed recoveries, more observations,
/// and finally the smaller workspace id.
pub open spec fn ranks_before(a: WorkspaceDiscoveryCandidate, b: WorkspaceDiscoveryCandidate) -> bool {
    if match_class(a.evidence) != match_class(b.evidence) {
        match_class(a.evidence) > match_class(b.evidence)
    } else if lexical_strength(a.evidence) != lexical_strength(b.evidence) {
        lexical_strength(a.evidence) > lexical_strength(b.evidence)
    } else if a.descriptor.confirmed_recoveries != b.descriptor.confirmed_recoveries {
        a.descriptor.confirmed_recoveries > b.descriptor.confirmed_recoveries
    } else if a.descriptor.observation_count != b.descriptor.observation_count {
        a.descriptor.observation_count > b.descriptor.observation_count
    } else {
        bytes_lt(encode_utf8(a.descriptor.workspace_id@), encode_utf8(b.descriptor.workspace_id@))
    }
}

/// A candidate that names the workspace exactly ranks before every
/// candidate found by shared terms, however many terms those share.
pub proof fn lemma_exact_identity_outranks_lexical(
    a: WorkspaceDiscoveryCandidate,
    b: WorkspaceDiscoveryCandidate,
)
    requires
        a.evidence == WorkspaceDiscoveryMatch::ExactWorkspaceId,
        b.evidence is LexicalTerms,
    ensures
        ranks_before(a, b),
{
}

pub proof fn lemma_ranks_before_irreflexive(a: WorkspaceDiscoveryCandidate)
    ensures
        !ranks_before(a, a),
{
    lemma_bytes_lt_irreflexive(encode_utf8(a.descriptor.workspace_id@));
}

pub proof fn lemma_ranks_before_transitive(
    a: WorkspaceDiscoveryCandidate,
    b: WorkspaceDiscoveryCandidate,
    c: WorkspaceDiscoveryCandidate,
)
    requires
        ranks_before(a, b),
        ranks_before(b, c),
    ensures
        ranks_before(a, c),
{
    if match_class(a.evidence) == match_class(b.evidence) && match_class(b.evidence) == match_class(
        c.evidence,
    ) && lexical_strength(a.evidence) == lexical_strength(b.evidence) && lexical_strength(
        b.evidence,
    ) == lexical_strength(c.evidence) && a.descriptor.confirmed_recoveries
        == b.descriptor.confirmed_recoveries && b.descriptor.confirmed_recoveries
        == c.descriptor.confirmed_recoveries && a.descriptor.observation_count
        == b.descriptor.observation_count && b.descriptor.observation_count
        == c.descriptor.observation_count {
        lemma_bytes_lt_transitive(
            encode_utf8(a.descriptor.workspace_id@),
            encode_utf8(b.descriptor.workspace_id@),
            encode_utf8(c.descriptor.workspace_id@),
        );
    }
}

/// Candidates in rank order: no candidate ranks strictly before an earlier one.
pub open spec fn rank_sorted(s: Seq<WorkspaceDiscoveryCandidate>) -> bool {
    forall|i: int, j: int| 0 <= i < j < s.len() ==> !ranks_before(#[trigger] s[j], #[trigger] s[i])
}

fn candidate_ranks_before(a: &WorkspaceDiscoveryCandidate, b: &WorkspaceDiscoveryCandidate) -> (r: bool)
    ensures
        r == ranks_before(*a, *b),
{
    let ca = a.evidence.class();
    let cb = b.evidence.class();
    if ca != cb {
        return ca > cb;
    }
    let la = match a.evidence {
        WorkspaceDiscoveryMatch::LexicalTerms { matched } => matched,
        _ => 0,
    };
    let lb = match b.evidence {
        WorkspaceDiscoveryMatch::LexicalTerms { matched } => matched,
        _ => 0,
    };
    if la != lb {
        return la > lb;
    }
    if a.descriptor.confirmed_recoveries != b.descriptor.confirmed_recoveries {
        return a.descriptor.confirmed_recoveries > b.descriptor.confirmed_recoveries;
    }
    if a.descriptor.observation_count != b.descriptor.observation_count {
        return a.descriptor.observation_count > b.descriptor.observation_count;
    }
    str_less(a.descriptor.workspace_id.as_str(), b.descriptor.workspace_id.as_str())
}

/// The order of candidates: by rank.
pub open spec fn rank_order() -> spec_fn(WorkspaceDiscoveryCandidate, WorkspaceDiscoveryCandidate) -> bool {
    |a: WorkspaceDiscoveryCandidate, b: WorkspaceDiscoveryCandidate| ranks_before(a, b)
}

/// Candidates ordered as the scan promises, stated on their evidence and
/// descriptors: an exact workspace identity first, then an exact remote, then
/// shared terms, more shared terms first; among equal evidence, more
/// confirmed recoveries first, then more observations, then the smaller
/// workspace id.
pub open spec fn ranked_by_fields(c: Seq<WorkspaceDiscoveryCandidate>) -> bool {
    forall|i: int, j: int|
        0 <= i < j < c.len() ==> {
            let a = #[trigger] c[i];
            let b = #[trigger] c[j];
            &&& b.evidence is ExactWorkspaceId ==> a.evidence is ExactWorkspaceId
            &&& b.evidence is ExactRepositoryRemote ==> !(a.evidence is LexicalTerms)
            &&& a.evidence is LexicalTerms && b.evidence is LexicalTerms ==> a.evidence->matched >= b.evidence->matched
            &&& a.evidence == b.evidence ==> a.descriptor.confirmed_recoveries >= b.descriptor.confirmed_recoveries
            &&& a.evidence == b.evidence && a.descriptor.confirmed_recoveries == b.descriptor.confirmed_recoveries
                ==> a.descriptor.observation_count >= b.descriptor.observation_count
            &&& a.evidence == b.evidence && a.descriptor.confirmed_recoveries == b.descriptor.confirmed_recoveries
                && a.descriptor.observation_count == b.descriptor.observation_count ==> !bytes_lt(
                encode_utf8(b.descriptor.workspace_id@),
                encode_utf8(a.descriptor.workspace_id@),
            )
        }
}

/// Candidates in rank order are ordered by evidence, then confirmed
/// recoveries, then observations, then workspace id.
pub proof fn lemma_rank_order_by_fields(c: Seq<WorkspaceDiscoveryCandidate>)
    requires
        rank_sorted(c),
    ensures
        ranked_by_fields(c),
{
    assert forall|i: int, j: int| 0 <= i < j < c.len() implies {
        let a = #[trigger] c[i];
        let b = #[trigger] c[j];
        &&& b.evidence is ExactWorkspaceId ==> a.evidence is ExactWorkspaceId
        &&& b.evidence is ExactRepositoryRemote ==> !(a.evidence is LexicalTerms)
        &&& a.evidence is LexicalTerms && b.evidence is LexicalTerms ==> a.evidence->matched >= b.evidence->matched
        &&& a.evidence == b.evidence ==> a.descriptor.confirmed_recoveries >= b.descriptor.confirmed_recoveries
        &&& a.evidence == b.evidence && a.descriptor.confirmed_recoveries == b.descriptor.confirmed_recoveries
            ==> a.descriptor.observation_count >= b.descriptor.observation_count
        &&& a.evidence == b.evidence && a.descriptor.confirmed_recoveries == b.descriptor.confirmed_recoveries
            && a.descriptor.observation_count == b.descriptor.observation_count ==> !bytes_lt(
            encode_utf8(b.descriptor.workspace_id@),
            encode_utf8(a.descriptor.workspace_id@),
        )
    } by {
        assert(!ranks_before(c[j], c[i]));
    }
}

/// Sorts candidates into rank order, keeping candidates of equal rank in the
/// order they came.
pub fn sort_candidates(input: Vec<WorkspaceDiscoveryCandidate>) -> (r: Vec<WorkspaceDiscoveryCandidate>)
    ensures
        r@ == stable_sort(input@, rank_order()),
        rank_sorted(r@),
        r@.to_multiset() == input@.to_multiset(),
{
    let mut rest = input;
    let mut sorted: Vec<WorkspaceDiscoveryCandidate> = Vec::new();
    let ghost all = rest@;
    let ghost mut taken: int = 0;
    while rest.len() > 0
        invariant
            rank_sorted(sorted@),
            sorted@.to_multiset().add(rest@.to_multiset()) == all.to_multiset(),
            0 <= taken <= all.len(),
            rest@ == all.skip(taken),
            sorted@ == stable_sort(all.take(taken), rank_order()),
        decreases rest@.len(),
    {
        let ghost before_rest = rest@;
        let x = rest.remove(0);
        proof {
            assert(x == all[taken]);
            lemma_stable_sort_step(all, taken, rank_order());
        }
        proof {
            assert(before_rest =~= seq![x] + rest@);
            vstd::seq_lib::lemma_multiset_commutative(seq![x], rest@);
            assert(seq![x].to_multiset() =~= vstd::multiset::Multiset::singleton(x)) by {
                assert(seq![x] =~= Seq::<WorkspaceDiscoveryCandidate>::empty().push(x));
            }
        }
        let mut p: usize = 0;
        while p < sorted.len() && !candidate_ranks_before(&x, &sorted[p])
            invariant
                p <= sorted@.len(),
                forall|k: int| 0 <= k < p ==> !ranks_before(x, #[trigger] sorted@[k]),
            decreases sorted@.len() - p,
        {
            p = p + 1;
        }
        let ghost old_sorted = sorted@;
        sorted.insert(p, x);
        proof {
            let s = sorted@;
            assert(s =~= old_sorted.insert(p as int, x));
            lemma_insert_before_greater(old_sorted, x, rank_order(), p as int);
            taken = taken + 1;
            assert(rest@ =~= all.skip(taken));
            assert forall|i: int, j: int| 0 <= i < j < s.len() implies !ranks_before(
                #[trigger] s[j],
                #[trigger] s[i],
            ) by {
                if j < p {
                    assert(s[i] == old_sorted[i] && s[j] == old_sorted[j]);
                } else if j == p {
                    assert(s[i] == old_sorted[i]);
                } else if i > p {
                    assert(s[i] == old_sorted[i - 1] && s[j] == old_sorted[j - 1]);
                } else if i == p {
                    assert(s[j] == old_sorted[j - 1]);
                    assert(p < old_sorted.len());
                    assert(ranks_before(x, old_sorted[p as int]));
                    if ranks_before(s[j], x) {
                        lemma_ranks_before_transitive(s[j], x, old_sorted[p as int]);
                        if j - 1 == p {
                            lemma_ranks_before_irreflexive(old_sorted[p as int]);
                        }
                    }
                } else {
                    assert(s[i] == old_sorted[i] && s[j] == old_sorted[j - 1]);
                }
            }
        }
    }
    proof {
        assert(rest@ =~= Seq::<WorkspaceDiscoveryCandidate>::empty());
        assert(sorted@.to_multiset().add(rest@.to_multiset()) =~= sorted@.to_multiset());
        assert(all.take(taken) =~= all);
    }
    sorted
}

/// The candidates among `items` (descriptors with the lengths of their JSON
/// encodings), in the order scanned: valid descriptors that answer the query.
pub open spec fn matching_candidates(
    items: Seq<(WorkspaceDiscoveryDescriptorV1, usize)>,
    q: WorkspaceDiscoveryQuery,
) -> Seq<WorkspaceDiscoveryCandidate>
    decreases items.len(),
{
    if items.len() == 0 {
        Seq::empty()
    } else {
        let prev = matching_candidates(items.drop_last(), q);
        let (d, n) = items.last();
        if validate_outcome(d, n) is Ok && match_outcome(d, q) is Some {
            prev.push(WorkspaceDiscoveryCandidate { descriptor: d, evidence: match_outcome(d, q)->0 })
        } else {
            prev
        }
    }
}

/// How many of `items` are invalid.
pub open spec fn invalid_count(items: Seq<(WorkspaceDiscoveryDescriptorV1, usize)>) -> nat
    decreases items.len(),
{
    if items.len() == 0 {
        0
    } else {
        invalid_count(items.drop_last()) + if validate_outcome(items.last().0, items.last().1) is Err {
            1nat
        } else {
            0nat
        }
    }
}

/// Why a scan that reached its limit is incomplete.
pub const SCAN_LIMIT_REASON: &'static str = "workspace descriptor scan exceeded 4096 entries";

pub open spec fn scan_limit(n: nat) -> nat {
    if n > MAX_WORKSPACE_DISCOVERY_SCAN {
        MAX_WORKSPACE_DISCOVERY_SCAN as nat
    } else {
        n
    }
}

proof fn lemma_invalid_count_bounded(items: Seq<(WorkspaceDiscoveryDescriptorV1, usize)>)
    ensures
        invalid_count(items) <= items.len(),
    decreases items.len(),
{
    if items.len() > 0 {
        lemma_invalid_count_bounded(items.drop_last());
    }
}

/// Scans at most `MAX_WORKSPACE_DISCOVERY_SCAN` descriptors (each given with
/// the length of its JSON encoding) for those that answer the query, and
/// returns them in rank order. A scan that had to stop early says so.
pub fn scan_workspace_descriptors(
    descriptors: Vec<(WorkspaceDiscoveryDescriptorV1, usize)>,
    query: &WorkspaceDiscoveryQuery,
) -> (r: WorkspaceDiscoveryScanResult)
    requires
        forall|i: int| 0 <= i < descriptors@.len() ==> descriptor_sets(#[trigger] descriptors@[i].0),
    ensures
        ({
            let scanned = descriptors@.take(scan_limit(descriptors@.len()) as int);
            &&& r.scanned_descriptors == scan_limit(descriptors@.len())
            &&& r.invalid_descriptors == invalid_count(scanned)
            &&& rank_sorted(r.candidates@)
            &&& ranked_by_fields(r.candidates@)
            &&& r.candidates@.to_multiset() == matching_candidates(scanned, *query).to_multiset()
            &&& r.candidates@ == stable_sort(matching_candidates(scanned, *query), rank_order())
            &&& (r.completeness is Complete <==> descriptors@.len() <= MAX_WORKSPACE_DISCOVERY_SCAN)
            &&& (r.completeness matches WorkspaceDiscoveryCompleteness::Incomplete { reason }
                ==> reason@ == SCAN_LIMIT_REASON@)
        }),
{
    let ghost items = descriptors@;
    let mut rest = descriptors;
    let mut found: Vec<WorkspaceDiscoveryCandidate> = Vec::new();
    let mut scanned: u32 = 0;
    let mut invalid: u32 = 0;
    let mut truncated = false;
    while rest.len() > 0
        invariant_except_break
            scanned as int + rest@.len() == items.len(),
            rest@ == items.subrange(scanned as int, items.len() as int),
            scanned <= MAX_WORKSPACE_DISCOVERY_SCAN,
            invalid == invalid_count(items.take(scanned as int)),
            found@ == matching_candidates(items.take(scanned as int), *query),
            !truncated,
            forall|i: int| 0 <= i < items.len() ==> descriptor_sets(#[trigger] items[i].0),
        ensures
            scanned == scan_limit(items.len()),
            invalid == invalid_count(items.take(scanned as int)),
            found@ == matching_candidates(items.take(scanned as int), *query),
            truncated <==> items.len() > MAX_WORKSPACE_DISCOVERY_SCAN,
        decreases rest@.len(),
    {
        if scanned as usize >= MAX_WORKSPACE_DISCOVERY_SCAN {
            truncated = true;
            break;
        }
        let ghost before_rest = rest@;
        let (descriptor, encoded_len) = rest.remove(0);
        proof {
            assert(items.take(scanned + 1).drop_last() =~= items.take(scanned as int));
            assert(items.take(scanned + 1).last() == before_rest[0]);
            assert(rest@ =~= items.subrange(scanned + 1, items.len() as int));
            lemma_invalid_count_bounded(items.take(scanned as int));
        }
        scanned = scanned + 1;
        if descriptor.validate(encoded_len).is_err() {
            invalid = invalid + 1;
            continue;
        }
        match descriptor_match(&descriptor, query) {
            Some(evidence) => {
                found.push(WorkspaceDiscoveryCandidate { descriptor, evidence });
            },
            None => {},
        }
    }
    let candidates = sort_candidates(found);
    proof {
        lemma_rank_order_by_fields(candidates@);
    }
    WorkspaceDiscoveryScanResult {
        candidates,
        scanned_descriptors: scanned,
        invalid_descriptors: invalid,
        completeness: if truncated {
            WorkspaceDiscoveryCompleteness::Incomplete {
                reason: String::from_str(SCAN_LIMIT_REASON),
            }
        } else {
            WorkspaceDiscoveryCompleteness::Complete
        },
    }
}


// ---------------------------------------------------------------------------
// The scan does not depend on the order of the descriptors
// ---------------------------------------------------------------------------

/// The candidate one descriptor yields, as a multiset of at most one.
pub open spec fn item_candidates(
    item: (WorkspaceDiscoveryDescriptorV1, usize),
    q: WorkspaceDiscoveryQuery,
) -> vstd::multiset::Multiset<WorkspaceDiscoveryCandidate> {
    if validate_outcome(item.0, item.1) is Ok && match_outcome(item.0, q) is Some {
        vstd::multiset::Multiset::singleton(WorkspaceDiscoveryCandidate { descriptor: item.0, evidence: match_outcome(item.0, q)->0 })
    } else {
        vstd::multiset::Multiset::empty()
    }
}

pub open spec fn item_invalid(item: (WorkspaceDiscoveryDescriptorV1, usize)) -> nat {
    if validate_outcome(item.0, item.1) is Err {
        1
    } else {
        0
    }
}

proof fn lemma_matching_last(b: Seq<(WorkspaceDiscoveryDescriptorV1, usize)>, q: WorkspaceDiscoveryQuery)
    requires
        b.len() > 0,
    ensures
        matching_candidates(b, q).to_multiset() == matching_candidates(b.drop_last(), q).to_multiset().add(
            item_candidates(b.last(), q),
        ),
        invalid_count(b) == invalid_count(b.drop_last()) + item_invalid(b.last()),
{
    let prev = matching_candidates(b.drop_last(), q);
    if validate_outcome(b.last().0, b.last().1) is Ok && match_outcome(b.last().0, q) is Some {
        let c = WorkspaceDiscoveryCandidate { descriptor: b.last().0, evidence: match_outcome(b.last().0, q)->0 };
        assert(prev.push(c).to_multiset() =~= prev.to_multiset().insert(c));
        assert(prev.to_multiset().insert(c) =~= prev.to_multiset().add(vstd::multiset::Multiset::singleton(c)));
    } else {
        assert(prev.to_multiset() =~= prev.to_multiset().add(vstd::multiset::Multiset::empty()));
    }
}

proof fn lemma_matching_remove(
    b: Seq<(WorkspaceDiscoveryDescriptorV1, usize)>,
    i: int,
    q: WorkspaceDiscoveryQuery,
)
    requires
        0 <= i < b.len(),
    ensures
        matching_candidates(b, q).to_multiset() == matching_candidates(b.remove(i), q).to_multiset().add(
            item_candidates(b[i], q),
        ),
        invalid_count(b) == invalid_count(b.remove(i)) + item_invalid(b[i]),
    decreases b.len(),
{
    lemma_matching_last(b, q);
    if i == b.len() - 1 {
        assert(b.remove(i) =~= b.drop_last());
    } else {
        let c = b.drop_last();
        lemma_matching_remove(c, i, q);
        let r = b.remove(i);
        assert(r.drop_last() =~= c.remove(i));
        assert(r.last() == b.last());
        lemma_matching_last(r, q);
        let m = matching_candidates(c.remove(i), q).to_multiset();
        assert(m.add(item_candidates(b[i], q)).add(item_candidates(b.last(), q)) =~= m.add(
            item_candidates(b.last(), q),
        ).add(item_candidates(b[i], q)));
    }
}

/// Descriptors that are a reordering of each other yield the same candidates
/// and the same number of invalid descriptors.
pub proof fn lemma_matching_ignores_order(
    a: Seq<(WorkspaceDiscoveryDescriptorV1, usize)>,
    b: Seq<(WorkspaceDiscoveryDescriptorV1, usize)>,
    q: WorkspaceDiscoveryQuery,
)
    requires
        a.to_multiset() == b.to_multiset(),
    ensures
        matching_candidates(a, q).to_multiset() == matching_candidates(b, q).to_multiset(),
        invalid_count(a) == invalid_count(b),
    decreases a.len(),
{
    if a.len() == 0 {
        assert(b.to_multiset().len() == 0);
        assert(b =~= a);
    } else {
        let n = a.len() - 1;
        let x = a[n as int];
        assert(a.contains(x));
        assert(b.to_multiset().count(x) > 0);
        assert(b.contains(x));
        let i = choose|i: int| 0 <= i < b.len() && b[i] == x;
        lemma_matching_remove(a, n as int, q);
        lemma_matching_remove(b, i, q);
        assert(a.remove(n as int).to_multiset() == a.to_multiset().remove(x));
        assert(b.remove(i).to_multiset() == b.to_multiset().remove(x));
        lemma_matching_ignores_order(a.remove(n as int), b.remove(i), q);
    }
}

/// Any two different candidates in `m` name different workspaces.
pub open spec fn workspaces_identify(m: vstd::multiset::Multiset<WorkspaceDiscoveryCandidate>) -> bool {
    forall|x: WorkspaceDiscoveryCandidate, y: WorkspaceDiscoveryCandidate|
        #![trigger m.count(x), m.count(y)]
        m.count(x) > 0 && m.count(y) > 0 && x != y ==> x.descriptor.workspace_id@ != y.descriptor.workspace_id@
}

proof fn lemma_ranks_total(a: WorkspaceDiscoveryCandidate, b: WorkspaceDiscoveryCandidate)
    requires
        a.descriptor.workspace_id@ != b.descriptor.workspace_id@,
    ensures
        ranks_before(a, b) || ranks_before(b, a),
{
    let ea = encode_utf8(a.descriptor.workspace_id@);
    let eb = encode_utf8(b.descriptor.workspace_id@);
    lemma_bytes_lt_total(ea, eb);
    vstd::utf8::encode_utf8_decode_utf8(a.descriptor.workspace_id@);
    vstd::utf8::encode_utf8_decode_utf8(b.descriptor.workspace_id@);
}

proof fn lemma_rank_sorted_unique(s1: Seq<WorkspaceDiscoveryCandidate>, s2: Seq<WorkspaceDiscoveryCandidate>)
    requires
        rank_sorted(s1),
        rank_sorted(s2),
        s1.to_multiset() == s2.to_multiset(),
        workspaces_identify(s1.to_multiset()),
    ensures
        s1 == s2,
    decreases s1.len(),
{
    if s1.len() == 0 {
        assert(s2.to_multiset().len() == 0);
        assert(s2 =~= s1);
    } else {
        s1.to_multiset_ensures();
        s2.to_multiset_ensures();
        assert(s2.len() == s1.len());
        let x = s1[0];
        let y = s2[0];
        assert(s1.contains(x) && s2.contains(y));
        assert(s1.to_multiset().count(x) > 0 && s1.to_multiset().count(y) > 0);
        if x != y {
            assert(s2.contains(x));
            let j = choose|j: int| 0 <= j < s2.len() && s2[j] == x;
            assert(s1.contains(y));
            let k = choose|k: int| 0 <= k < s1.len() && s1[k] == y;
            lemma_ranks_total(x, y);
            if ranks_before(x, y) {
                assert(j > 0);
                assert(!ranks_before(s2[j], s2[0]));
            } else {
                assert(k > 0);
                assert(!ranks_before(s1[k], s1[0]));
            }
        }
        let t1 = s1.drop_first();
        let t2 = s2.drop_first();
        assert(t1 =~= s1.remove(0));
        assert(t2 =~= s2.remove(0));
        assert(t1.to_multiset() == s1.to_multiset().remove(x));
        assert(t2.to_multiset() == s2.to_multiset().remove(y));
        assert forall|i: int, j: int| 0 <= i < j < t1.len() implies !ranks_before(#[trigger] t1[j], #[trigger] t1[i]) by {
            assert(t1[j] == s1[j + 1] && t1[i] == s1[i + 1]);
        }
        assert forall|i: int, j: int| 0 <= i < j < t2.len() implies !ranks_before(#[trigger] t2[j], #[trigger] t2[i]) by {
            assert(t2[j] == s2[j + 1] && t2[i] == s2[i + 1]);
        }
        assert forall|u: WorkspaceDiscoveryCandidate, v: WorkspaceDiscoveryCandidate|
            t1.to_multiset().count(u) > 0 && t1.to_multiset().count(v) > 0 && u != v implies u.descriptor.workspace_id@
            != v.descriptor.workspace_id@ by {
            assert(s1.to_multiset().count(u) > 0 && s1.to_multiset().count(v) > 0);
        }
        lemma_rank_sorted_unique(t1, t2);
        assert(x == y);
        assert forall|i: int| 0 <= i < s1.len() implies s1[i] == s2[i] by {
            if i > 0 {
                assert(s1[i] == t1[i - 1] && s2[i] == t2[i - 1]);
            }
        }
        assert(s1 =~= s2);
    }
}

/// A scan of no more descriptors than the limit gives the same result
/// whatever order the descriptors come in, when different candidates name
/// different workspaces: any two candidate lists that the scan's contract
/// allows for the two orders are the same list, and the counts agree.
pub proof fn lemma_scan_ignores_descriptor_order(
    a: Seq<(WorkspaceDiscoveryDescriptorV1, usize)>,
    b: Seq<(WorkspaceDiscoveryDescriptorV1, usize)>,
    q: WorkspaceDiscoveryQuery,
    c1: Seq<WorkspaceDiscoveryCandidate>,
    c2: Seq<WorkspaceDiscoveryCandidate>,
)
    requires
        a.to_multiset() == b.to_multiset(),
        a.len() <= MAX_WORKSPACE_DISCOVERY_SCAN,
        workspaces_identify(matching_candidates(a, q).to_multiset()),
        rank_sorted(c1),
        c1.to_multiset() == matching_candidates(a.take(scan_limit(a.len()) as int), q).to_multiset(),
        rank_sorted(c2),
        c2.to_multiset() == matching_candidates(b.take(scan_limit(b.len()) as int), q).to_multiset(),
    ensures
        scan_limit(a.len()) == scan_limit(b.len()),
        invalid_count(a.take(scan_limit(a.len()) as int)) == invalid_count(b.take(scan_limit(b.len()) as int)),
        c1 == c2,
{
    assert(a.len() == a.to_multiset().len());
    assert(b.len() == b.to_multiset().len());
    assert(a.take(scan_limit(a.len()) as int) =~= a);
    assert(b.take(scan_limit(b.len()) as int) =~= b);
    lemma_matching_ignores_order(a, b, q);
    lemma_rank_sorted_unique(c1, c2);
}

} // verus!
