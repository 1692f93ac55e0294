//! Terminal benchmark outcomes: each (fixture revision, root execution,
//! evaluator) identity is published once; publishing it again with the same
//! evidence is idempotent, and with other evidence is refused.
use crate::context::{be_bytes, be_bytes_of, push_bytes};
use crate::identity::{is_blank, is_blank_str};
use crate::text_map::TextMap;
use vstd::prelude::*;
use vstd::string::StringSliceAdditionalSpecFns;

verus! {

pub const BENCHMARK_OUTCOME_PLUGIN: &'static str = "phenix.benchmark-outcomes";

pub const BENCHMARK_OUTCOME_COMPONENT: &'static str = "phenix.benchmark-outcomes";

pub const BENCHMARK_OUTCOME_SERVICE: &'static str = "phenix.benchmark-outcomes@1";

/// The interface through which outcomes are published and read.
pub struct BenchmarkOutcomeInterface;

impl BenchmarkOutcomeInterface {
    pub fn interface_id() -> (r: &'static str)
        ensures
            r@ == BENCHMARK_OUTCOME_SERVICE@,
    {
        BENCHMARK_OUTCOME_SERVICE
    }
}

/// How an evaluation ended.
#[derive(Clone, Copy, Debug, PartialEq, Eq, Structural)]
pub enum EvaluationOutcome {
    Succeeded,
    Failed,
    Unresolved,
}

/// The terminal outcome an evaluator found for one root execution on one fixture.
#[derive(Clone, Debug, PartialEq, Eq)]
pub struct BenchmarkOutcomeRecord {
    pub task_fixture_revision: String,
    pub root_execution_id: String,
    pub evaluator_identity: String,
    pub evidence_revision: String,
    pub outcome: EvaluationOutcome,
}

/// The evidence an outcome gives to efficiency evaluation.
#[derive(Clone, Debug, PartialEq, Eq)]
pub struct EfficiencyOutcomeEvidence {
    pub source_identity: String,
    pub evaluator_identity: String,
    pub evidence_revision: String,
    pub outcome: EvaluationOutcome,
}

/// The identities an outcome carries.
#[derive(Clone, Copy, Debug, PartialEq, Eq, Structural)]
pub enum BenchmarkField {
    TaskFixtureRevision,
    RootExecutionId,
    EvaluatorIdentity,
    EvidenceRevision,
}

/// Why an outcome request was refused.
#[derive(Clone, Debug, PartialEq, Eq)]
pub enum BenchmarkOutcomeError {
    EmptyIdentity { field: BenchmarkField },
    NotTerminal,
    DifferentEvidence,
}

/// The first identity of a lookup that is blank.
pub open spec fn lookup_error(fixture: Seq<char>, root: Seq<char>, evaluator: Seq<char>) -> Option<
    BenchmarkOutcomeError,
> {
    if is_blank(fixture) {
        Some(BenchmarkOutcomeError::EmptyIdentity { field: BenchmarkField::TaskFixtureRevision })
    } else if is_blank(root) {
        Some(BenchmarkOutcomeError::EmptyIdentity { field: BenchmarkField::RootExecutionId })
    } else if is_blank(evaluator) {
        Some(BenchmarkOutcomeError::EmptyIdentity { field: BenchmarkField::EvaluatorIdentity })
    } else {
        None
    }
}

/// Why a record may not be published, if it may not.
pub open spec fn record_error(r: BenchmarkOutcomeRecord) -> Option<BenchmarkOutcomeError> {
    if lookup_error(r.task_fixture_revision@, r.root_execution_id@, r.evaluator_identity@) is Some {
        lookup_error(r.task_fixture_revision@, r.root_execution_id@, r.evaluator_identity@)
    } else if is_blank(r.evidence_revision@) {
        Some(BenchmarkOutcomeError::EmptyIdentity { field: BenchmarkField::EvidenceRevision })
    } else if r.outcome == EvaluationOutcome::Unresolved {
        Some(BenchmarkOutcomeError::NotTerminal)
    } else {
        None
    }
}

/// Checks the three identities of an outcome lookup.
pub fn validate_lookup(
    task_fixture_revision: &str,
    root_execution_id: &str,
    evaluator_identity: &str,
) -> (r: Result<(), BenchmarkOutcomeError>)
    ensures
        match lookup_error(task_fixture_revision@, root_execution_id@, evaluator_identity@) {
            Some(e) => r == Err::<(), _>(e),
            None => r is Ok,
        },
{
    if is_blank_str(task_fixture_revision) {
        return Err(BenchmarkOutcomeError::EmptyIdentity { field: BenchmarkField::TaskFixtureRevision });
    }
    if is_blank_str(root_execution_id) {
        return Err(BenchmarkOutcomeError::EmptyIdentity { field: BenchmarkField::RootExecutionId });
    }
    if is_blank_str(evaluator_identity) {
        return Err(BenchmarkOutcomeError::EmptyIdentity { field: BenchmarkField::EvaluatorIdentity });
    }
    Ok(())
}

/// A record must carry all its identities and a terminal outcome.
pub fn validate_record(record: &BenchmarkOutcomeRecord) -> (r: Result<(), BenchmarkOutcomeError>)
    ensures
        match record_error(*record) {
            Some(e) => r == Err::<(), _>(e),
            None => r is Ok,
        },
{
    validate_lookup(
        record.task_fixture_revision.as_str(),
        record.root_execution_id.as_str(),
        record.evaluator_identity.as_str(),
    )?;
    if is_blank_str(record.evidence_revision.as_str()) {
        return Err(BenchmarkOutcomeError::EmptyIdentity { field: BenchmarkField::EvidenceRevision });
    }
    if record.outcome == EvaluationOutcome::Unresolved {
        return Err(BenchmarkOutcomeError::NotTerminal);
    }
    Ok(())
}

/// One part of the identity material: its length in eight big-endian bytes, then its bytes.
pub open spec fn framed_part(part: Seq<u8>) -> Seq<u8> {
    be_bytes(if part.len() <= u64::MAX {
        part.len() as u64
    } else {
        u64::MAX
    }) + part
}

/// The material an outcome's identity key is the content revision of.
pub open spec fn record_key_material_spec(fixture: Seq<u8>, root: Seq<u8>, evaluator: Seq<u8>) -> Seq<
    u8,
> {
    framed_part(fixture) + framed_part(root) + framed_part(evaluator)
}

fn push_framed(out: &mut Vec<u8>, part: &[u8])
    ensures
        final(out)@ == old(out)@ + framed_part(part@),
{
    let n = part.len();
    let len: u64 = if n as u128 <= u64::MAX as u128 {
        n as u64
    } else {
        u64::MAX
    };
    let prefix = be_bytes_of(len);
    push_bytes(out, prefix.as_slice());
    push_bytes(out, part);
    proof {
        assert(old(out)@ + be_bytes(len) + part@ =~= old(out)@ + framed_part(part@));
    }
}

/// The length-prefixed material of an outcome's identity; its content
/// revision is the key the outcome is kept under.
pub fn record_key_material(
    task_fixture_revision: &str,
    root_execution_id: &str,
    evaluator_identity: &str,
) -> (r: Vec<u8>)
    ensures
        r@ == record_key_material_spec(
            task_fixture_revision.spec_bytes(),
            root_execution_id.spec_bytes(),
            evaluator_identity.spec_bytes(),
        ),
{
    let mut bytes: Vec<u8> = Vec::new();
    push_framed(&mut bytes, task_fixture_revision.as_bytes());
    push_framed(&mut bytes, root_execution_id.as_bytes());
    push_framed(&mut bytes, evaluator_identity.as_bytes());
    proof {
        assert(bytes@ =~= record_key_material_spec(
            task_fixture_revision.spec_bytes(),
            root_execution_id.spec_bytes(),
            evaluator_identity.spec_bytes(),
        ));
    }
    bytes
}

pub open spec fn evidence_of(record: BenchmarkOutcomeRecord, key: Seq<char>) -> (
    Seq<char>,
    Seq<char>,
    Seq<char>,
    EvaluationOutcome,
) {
    ("benchmark-outcome:"@ + key, record.evaluator_identity@, record.evidence_revision@, record.outcome)
}

pub open spec fn evidence_view(e: EfficiencyOutcomeEvidence) -> (
    Seq<char>,
    Seq<char>,
    Seq<char>,
    EvaluationOutcome,
) {
    (e.source_identity@, e.evaluator_identity@, e.evidence_revision@, e.outcome)
}

/// The evidence of an outcome kept under `key`.
pub fn evidence(record: &BenchmarkOutcomeRecord, key: &str) -> (r: EfficiencyOutcomeEvidence)
    ensures
        evidence_view(r) == evidence_of(*record, key@),
{
    let mut source_identity = String::from_str("benchmark-outcome:");
    source_identity.append(key);
    EfficiencyOutcomeEvidence {
        source_identity,
        evaluator_identity: record.evaluator_identity.clone(),
        evidence_revision: record.evidence_revision.clone(),
        outcome: record.outcome,
    }
}

pub open spec fn same_record(a: BenchmarkOutcomeRecord, b: BenchmarkOutcomeRecord) -> bool {
    &&& a.task_fixture_revision@ == b.task_fixture_revision@
    &&& a.root_execution_id@ == b.root_execution_id@
    &&& a.evaluator_identity@ == b.evaluator_identity@
    &&& a.evidence_revision@ == b.evidence_revision@
    &&& a.outcome == b.outcome
}

fn records_equal(a: &BenchmarkOutcomeRecord, b: &BenchmarkOutcomeRecord) -> (r: bool)
    ensures
        r == same_record(*a, *b),
{
    a.task_fixture_revision == b.task_fixture_revision && a.root_execution_id == b.root_execution_id
        && a.evaluator_identity == b.evaluator_identity && a.evidence_revision == b.evidence_revision
        && a.outcome == b.outcome
}

/// The answer of a publication, with the evidence taken by its view.
pub open spec fn publish_result_view(r: Result<EfficiencyOutcomeEvidence, BenchmarkOutcomeError>) -> Result<
    (Seq<char>, Seq<char>, Seq<char>, EvaluationOutcome),
    BenchmarkOutcomeError,
> {
    match r {
        Ok(e) => Ok(evidence_view(e)),
        Err(e) => Err(e),
    }
}

/// What publishing `record` under `key` answers, and the outcomes kept after it.
pub open spec fn publish_outcome(
    m: Map<Seq<char>, BenchmarkOutcomeRecord>,
    record: BenchmarkOutcomeRecord,
    key: Seq<char>,
) -> (
    Result<(Seq<char>, Seq<char>, Seq<char>, EvaluationOutcome), BenchmarkOutcomeError>,
    Map<Seq<char>, BenchmarkOutcomeRecord>,
) {
    match record_error(record) {
        Some(e) => (Err(e), m),
        None => if m.contains_key(key) {
            if same_record(m[key], record) {
                (Ok(evidence_of(m[key], key)), m)
            } else {
                (Err(BenchmarkOutcomeError::DifferentEvidence), m)
            }
        } else {
            (Ok(evidence_of(record, key)), m.insert(key, record))
        },
    }
}

/// Publishing the same outcome again answers what the first publication
/// answered and keeps the outcomes as they were.
pub proof fn lemma_publish_is_idempotent(
    m: Map<Seq<char>, BenchmarkOutcomeRecord>,
    record: BenchmarkOutcomeRecord,
    key: Seq<char>,
)
    ensures
        ({
            let (first, after) = publish_outcome(m, record, key);
            publish_outcome(after, record, key) == (first, after)
        }),
{
}

/// Once an outcome is published under a key, no other outcome can replace it:
/// publishing a different record there is refused and changes nothing.
pub proof fn lemma_published_outcome_cannot_be_rewritten(
    m: Map<Seq<char>, BenchmarkOutcomeRecord>,
    record: BenchmarkOutcomeRecord,
    other: BenchmarkOutcomeRecord,
    key: Seq<char>,
)
    requires
        publish_outcome(m, record, key).0 is Ok,
        !same_record(publish_outcome(m, record, key).1[key], other),
        record_error(other) is None,
    ensures
        ({
            let after = publish_outcome(m, record, key).1;
            publish_outcome(after, other, key) == (
                Err::<(Seq<char>, Seq<char>, Seq<char>, EvaluationOutcome), _>(
                    BenchmarkOutcomeError::DifferentEvidence,
                ),
                after,
            )
        }),
{
}

/// The published outcomes, keyed by identity key.
pub struct BenchmarkOutcomeProjection {
    records: TextMap<BenchmarkOutcomeRecord>,
}

impl BenchmarkOutcomeProjection {
    pub closed spec fn wf(self) -> bool {
        self.records.wf()
    }

    pub closed spec fn published(self) -> Map<Seq<char>, BenchmarkOutcomeRecord> {
        self.records@
    }

    pub fn new() -> (r: Self)
        ensures
            r.wf(),
            r.published() == Map::<Seq<char>, BenchmarkOutcomeRecord>::empty(),
    {
        BenchmarkOutcomeProjection { records: TextMap::new() }
    }

    pub fn get(&self, key: &String) -> (r: Option<&BenchmarkOutcomeRecord>)
        requires
            self.wf(),
        ensures
            match r {
                Some(v) => self.published().contains_key(key@) && self.published()[key@] == *v,
                None => !self.published().contains_key(key@),
            },
    {
        self.records.get(key)
    }

    /// Publishes a terminal outcome under its identity key. The same record
    /// again gives the same evidence and changes nothing; another record under
    /// the same key is refused.
    pub fn publish(&mut self, record: BenchmarkOutcomeRecord, key: String) -> (r: Result<
        EfficiencyOutcomeEvidence,
        BenchmarkOutcomeError,
    >)
        requires
            old(self).wf(),
        ensures
            final(self).wf(),
            (publish_result_view(r), final(self).published()) == publish_outcome(
                old(self).published(),
                record,
                key@,
            ),
    {
        validate_record(&record)?;
        if let Some(existing) = self.records.get(&key) {
            if !records_equal(existing, &record) {
                return Err(BenchmarkOutcomeError::DifferentEvidence);
            }
            return Ok(evidence(existing, key.as_str()));
        }
        let published = evidence(&record, key.as_str());
        self.records.insert(key, record);
        Ok(published)
    }
}


/// The identity material of a record: its fixture revision, root execution
/// and evaluator, each framed by its length.
pub open spec fn identity_material(r: BenchmarkOutcomeRecord) -> Seq<u8> {
    record_key_material_spec(
        vstd::utf8::encode_utf8(r.task_fixture_revision@),
        vstd::utf8::encode_utf8(r.root_execution_id@),
        vstd::utf8::encode_utf8(r.evaluator_identity@),
    )
}

/// Outcomes are published once per identity, whatever revision `key_of`
/// names the identity material by: after `first` is published, publishing a
/// record with the same fixture revision, root execution and evaluator
/// answers the same evidence and keeps the outcomes when it is the same
/// record, is refused with different evidence otherwise, and a non-terminal
/// record is refused as such.
pub proof fn lemma_identity_publishes_once(
    m: Map<Seq<char>, BenchmarkOutcomeRecord>,
    first: BenchmarkOutcomeRecord,
    second: BenchmarkOutcomeRecord,
    key_of: spec_fn(Seq<u8>) -> Seq<char>,
)
    requires
        first.task_fixture_revision@ == second.task_fixture_revision@,
        first.root_execution_id@ == second.root_execution_id@,
        first.evaluator_identity@ == second.evaluator_identity@,
        publish_outcome(m, first, key_of(identity_material(first))).0 is Ok,
    ensures
        ({
            let (answer, after) = publish_outcome(m, first, key_of(identity_material(first)));
            let again = publish_outcome(after, second, key_of(identity_material(second)));
            &&& record_error(second) is None && same_record(first, second) ==> again == (answer, after)
            &&& record_error(second) is None && !same_record(first, second) ==> again == (
                Err::<(Seq<char>, Seq<char>, Seq<char>, EvaluationOutcome), _>(
                    BenchmarkOutcomeError::DifferentEvidence,
                ),
                after,
            )
            &&& second.outcome == EvaluationOutcome::Unresolved && !is_blank(second.evidence_revision@)
                && lookup_error(second.task_fixture_revision@, second.root_execution_id@, second.evaluator_identity@)
                is None ==> again == (
                Err::<(Seq<char>, Seq<char>, Seq<char>, EvaluationOutcome), _>(BenchmarkOutcomeError::NotTerminal),
                after,
            )
        }),
{
    let key = key_of(identity_material(first));
    assert(identity_material(second) == identity_material(first));
    let after = publish_outcome(m, first, key).1;
    assert(after.contains_key(key));
    assert(same_record(after[key], first));
}

} // verus!
