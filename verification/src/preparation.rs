//! Preparing an invocation: the context candidates an execution's prompt
//! offers for admission, and the size of the request they are admitted for.
use crate::context::{
    content_hash, content_revision, conservative_token_estimate, section_id, section_id_spec,
    AdmittedContextItem, CachePlacement, ContextProjectionForm, ContextProjectionState,
    ContextRetention, ContextSource, ExactContextReference, ProjectionCheckpoint, ProjectionRevision,
    PromptAssembly, PromptSection, PromptSectionKind, same_reference,
};
use vstd::prelude::*;

verus! {

/// Content offered for admission into an execution's projection.
#[derive(Clone, Debug, PartialEq, Eq)]
pub struct ContextCandidate {
    pub id: String,
    pub source: ContextSource,
    pub content_identity: String,
    pub content: Vec<u8>,
    pub estimated_tokens: u64,
    pub mandatory: bool,
    pub retention: ContextRetention,
    pub cache: CachePlacement,
    pub recovery: Option<ExactContextReference>,
}

/// What an invocation is prepared with: the estimated size of its request,
/// the candidates, and the projection revision they are offered against.
#[derive(Clone, Debug, PartialEq, Eq)]
pub struct ContextInvocationPreparation {
    pub request_input_tokens: u64,
    pub candidates: Vec<ContextCandidate>,
    pub projection: ProjectionRevision,
}

/// The estimate of a content's tokens: one per byte, saturated.
pub open spec fn token_estimate(content: Seq<u8>) -> u64 {
    if content.len() <= u64::MAX {
        content.len() as u64
    } else {
        u64::MAX
    }
}

/// The harness identity, project instructions and skills are mandatory.
pub open spec fn is_mandatory(kind: PromptSectionKind) -> bool {
    kind == PromptSectionKind::HarnessIdentity || kind == PromptSectionKind::ProjectInstruction || kind
        == PromptSectionKind::Skill
}

/// The candidate a prompt section offers: mandatory sections are pinned in
/// the stable cache prefix, the others kept in full within the cache epoch;
/// a section with a reference comes from that exact revision.
pub open spec fn candidate_for(c: ContextCandidate, section: PromptSection) -> bool {
    let mandatory = is_mandatory(section.kind);
    &&& c.id@ == section_id_spec(section)
    &&& match section.reference {
        Some(r) => c.source matches ContextSource::Exact { reference: x } && same_reference(x, r),
        None => c.source matches ContextSource::Inline { identity } && identity@
            == "phenix:harness-identity"@,
    }
    &&& c.content_identity@ == content_revision(section.content@)
    &&& c.content@ == section.content@
    &&& c.estimated_tokens == token_estimate(section.content@)
    &&& c.mandatory == mandatory
    &&& c.retention == if mandatory {
        ContextRetention::Pinned
    } else {
        ContextRetention::Full
    }
    &&& c.cache == if mandatory {
        CachePlacement::StablePrefix
    } else {
        CachePlacement::Epoch
    }
    &&& match (c.recovery, section.reference) {
        (Some(x), Some(r)) => same_reference(x, r),
        (None, None) => true,
        _ => false,
    }
}

/// The candidate of one prompt section.
pub fn context_candidate(section: &PromptSection) -> (r: ContextCandidate)
    ensures
        candidate_for(r, *section),
{
    let mandatory = matches!(
        section.kind,
        PromptSectionKind::HarnessIdentity | PromptSectionKind::ProjectInstruction | PromptSectionKind::Skill
    );
    let cache = if mandatory {
        CachePlacement::StablePrefix
    } else {
        CachePlacement::Epoch
    };
    let retention = if mandatory {
        ContextRetention::Pinned
    } else {
        ContextRetention::Full
    };
    let (source, recovery) = match &section.reference {
        Some(reference) => (
            ContextSource::Exact {
                reference: ExactContextReference {
                    resource_id: reference.resource_id.clone(),
                    revision: reference.revision.clone(),
                },
            },
            Some(
                ExactContextReference {
                    resource_id: reference.resource_id.clone(),
                    revision: reference.revision.clone(),
                },
            ),
        ),
        None => (ContextSource::Inline { identity: String::from_str("phenix:harness-identity") }, None),
    };
    let content = section.content.clone();
    proof {
        assert(content@ =~= section.content@);
    }
    ContextCandidate {
        id: section_id(section),
        source,
        content_identity: content_hash(section.content.as_slice()),
        content,
        estimated_tokens: conservative_token_estimate(section.content.as_slice()),
        mandatory,
        retention,
        cache,
        recovery,
    }
}

/// The candidate of a committed checkpoint's compact view; it may be dropped.
pub open spec fn checkpoint_candidate_for(c: ContextCandidate, checkpoint: ProjectionCheckpoint) -> bool {
    &&& c.id@ == "phenix:checkpoint:"@ + checkpoint.checkpoint_id@
    &&& c.source matches ContextSource::Inline { identity } && identity@ == c.id@
    &&& c.content_identity@ == checkpoint.content_identity@
    &&& c.content@ == checkpoint.compact_view@
    &&& c.estimated_tokens == token_estimate(checkpoint.compact_view@)
    &&& !c.mandatory
    &&& c.retention == ContextRetention::DropAllowed
    &&& c.cache == CachePlacement::Epoch
    &&& c.recovery is None
}

/// The candidate of a committed checkpoint.
pub fn checkpoint_candidate(checkpoint: &ProjectionCheckpoint) -> (r: ContextCandidate)
    ensures
        checkpoint_candidate_for(r, *checkpoint),
{
    let mut id = String::from_str("phenix:checkpoint:");
    id.append(checkpoint.checkpoint_id.as_str());
    let content = checkpoint.compact_view.clone();
    proof {
        assert(content@ =~= checkpoint.compact_view@);
    }
    ContextCandidate {
        id: id.clone(),
        source: ContextSource::Inline { identity: id },
        content_identity: checkpoint.content_identity.clone(),
        content,
        estimated_tokens: conservative_token_estimate(checkpoint.compact_view.as_slice()),
        mandatory: false,
        retention: ContextRetention::DropAllowed,
        cache: CachePlacement::Epoch,
        recovery: None,
    }
}

/// An item that is compacted or not shown in full.
pub open spec fn reduced(item: AdmittedContextItem) -> bool {
    item.retention == ContextRetention::Compact || item.form != ContextProjectionForm::Full
}

pub fn is_reduced_item(item: &AdmittedContextItem) -> (r: bool)
    ensures
        r == reduced(*item),
{
    item.retention == ContextRetention::Compact || item.form != ContextProjectionForm::Full
}

/// Whether a section's item is admitted in reduced form, so that the section
/// is not offered again.
pub open spec fn section_reduced(section: PromptSection, admitted: Option<Map<Seq<char>, AdmittedContextItem>>) -> bool {
    match admitted {
        Some(m) => m.contains_key(section_id_spec(section)) && reduced(m[section_id_spec(section)]),
        None => false,
    }
}

/// The sections whose candidates are offered, in order.
pub open spec fn offered_sections(
    sections: Seq<PromptSection>,
    admitted: Option<Map<Seq<char>, AdmittedContextItem>>,
) -> Seq<PromptSection>
    decreases sections.len(),
{
    if sections.len() == 0 {
        Seq::empty()
    } else {
        let rest = offered_sections(sections.drop_last(), admitted);
        if section_reduced(sections.last(), admitted) {
            rest
        } else {
            rest.push(sections.last())
        }
    }
}

/// The checkpoint whose compact view is offered: the committed one, when
/// some admitted item is compacted.
pub open spec fn offered_checkpoint(committed: Option<ContextProjectionState>) -> Option<ProjectionCheckpoint> {
    match committed {
        Some(state) => if exists|k: Seq<char>|
            #[trigger] state.admitted_items().contains_key(k) && state.admitted_items()[k].retention
                == ContextRetention::Compact {
            state.committed_checkpoint
        } else {
            None
        },
        None => None,
    }
}

/// Prepares an invocation of an execution: every section of its prompt
/// offers a candidate unless its item is admitted in reduced form, the
/// committed checkpoint follows when some item is compacted, and the request
/// is estimated by its size. `committed` is the execution's projection, if
/// it has one.
pub fn invocation_preparation(
    assembly: &PromptAssembly,
    committed: Option<&ContextProjectionState>,
    projection: ProjectionRevision,
    input: &[u8],
) -> (r: ContextInvocationPreparation)
    requires
        committed matches Some(state) ==> state.wf(),
    ensures
        r.request_input_tokens == token_estimate(input@),
        r.projection == projection,
        ({
            let admitted = match committed {
                Some(state) => Some(state.admitted_items()),
                None => None,
            };
            let offered = offered_sections(assembly.sections@, admitted);
            let checkpoint = offered_checkpoint(
                match committed {
                    Some(state) => Some(*state),
                    None => None,
                },
            );
            &&& r.candidates@.len() == offered.len() + if checkpoint is Some {
                1int
            } else {
                0int
            }
            &&& forall|i: int| 0 <= i < offered.len() ==> candidate_for(#[trigger] r.candidates@[i], offered[i])
            &&& checkpoint matches Some(c) ==> checkpoint_candidate_for(r.candidates@[offered.len() as int], c)
        }),
{
    let ghost admitted = match committed {
        Some(state) => Some(state.admitted_items()),
        None => None,
    };
    let ghost all = assembly.sections@;
    let mut candidates: Vec<ContextCandidate> = Vec::new();
    let mut i: usize = 0;
    while i < assembly.sections.len()
        invariant
            i <= all.len(),
            all == assembly.sections@,
            committed matches Some(state) ==> state.wf(),
            admitted == match committed {
                Some(state) => Some(state.admitted_items()),
                None => None,
            },
            candidates@.len() == offered_sections(all.take(i as int), admitted).len(),
            forall|j: int|
                0 <= j < candidates@.len() ==> candidate_for(
                    #[trigger] candidates@[j],
                    offered_sections(all.take(i as int), admitted)[j],
                ),
        decreases all.len() - i,
    {
        let section = &assembly.sections[i];
        proof {
            assert(all.take(i + 1).drop_last() =~= all.take(i as int));
            assert(all.take(i + 1).last() == all[i as int]);
        }
        let id = section_id(section);
        let skip = match committed {
            Some(state) => match state.admitted_item(&id) {
                Some(item) => is_reduced_item(item),
                None => false,
            },
            None => false,
        };
        if !skip {
            let c = context_candidate(section);
            candidates.push(c);
        }
        i = i + 1;
    }
    proof {
        assert(all.take(i as int) =~= all);
    }
    let checkpoint = match committed {
        Some(state) => {
            if state.has_compacted_item() {
                match &state.committed_checkpoint {
                    Some(c) => Some(checkpoint_candidate(c)),
                    None => None,
                }
            } else {
                None
            }
        },
        None => None,
    };
    if let Some(c) = checkpoint {
        candidates.push(c);
    }
    ContextInvocationPreparation {
        request_input_tokens: conservative_token_estimate(input),
        candidates,
        projection,
    }
}

} // verus!
