//! The application worker's own bookkeeping: the capacities of its queues,
//! the identities it allocates, and the check of a session journal read
//! before it becomes a snapshot.
use crate::projection::{SessionInfo, SessionProjectionStore, SessionSnapshot, SessionUpdate};
use crate::text::{decimal, numbered};
use vstd::prelude::*;

verus! {

/// How many invocations may wait for the worker.
pub const APPLICATION_INVOCATION_CAPACITY: usize = 64;

/// How many client capability requests may wait.
pub const CLIENT_CAPABILITY_CAPACITY: usize = 64;

/// How many application events may wait for the client.
pub const APPLICATION_EVENT_CAPACITY: usize = 256;

/// The observable value that carries the session projection.
pub const SESSION_PROJECTION_VALUE: &'static str = "phenix.application.sessions@1";

/// Why a session journal could not become a snapshot.
#[derive(Clone, Debug, PartialEq, Eq)]
pub enum SessionJournalError {
    /// The client resumes after a sequence the journal has not reached.
    ResumeAhead { after_sequence: u64, through_sequence: u64 },
    /// An entry is not the one that follows the previous one.
    Gap { expected: u64, actual: u64 },
    /// The sequence after an entry does not fit.
    SequenceExhausted,
}

/// The first fault of a run of journal sequences that should count up from `expected`.
pub open spec fn journal_fault(expected: int, seqs: Seq<u64>) -> Option<SessionJournalError>
    decreases seqs.len(),
{
    if seqs.len() == 0 {
        None
    } else if seqs[0] != expected {
        Some(SessionJournalError::Gap { expected: expected as u64, actual: seqs[0] })
    } else if expected == u64::MAX {
        Some(SessionJournalError::SequenceExhausted)
    } else {
        journal_fault(expected + 1, seqs.drop_first())
    }
}

pub open spec fn sequences(updates: Seq<SessionUpdate>) -> Seq<u64> {
    updates.map_values(|u: SessionUpdate| u.sequence)
}

/// The sequence a journal read resumes from: one past `after`, saturated.
pub open spec fn first_expected(after: Option<u64>) -> int {
    match after {
        Some(a) => if a == u64::MAX {
            u64::MAX as int
        } else {
            a + 1
        },
        None => 1,
    }
}

proof fn lemma_journal_fault_step(expected: int, seqs: Seq<u64>, i: int)
    requires
        0 <= expected,
        0 <= i < seqs.len(),
        journal_fault(expected, seqs.take(i)) is None,
        forall|j: int| 0 <= j < i ==> seqs[j] == expected + j,
        expected + i <= u64::MAX,
    ensures
        journal_fault(expected, seqs.take(i + 1)) == (if seqs[i] != expected + i {
            Some(SessionJournalError::Gap { expected: (expected + i) as u64, actual: seqs[i] })
        } else if expected + i == u64::MAX {
            Some(SessionJournalError::SequenceExhausted)
        } else {
            None
        }),
    decreases i,
{
    let t = seqs.take(i + 1);
    assert(t[0] == seqs[0]);
    if i > 0 {
        assert(t.drop_first() =~= seqs.drop_first().take(i));
        assert(seqs.take(i).drop_first() =~= seqs.drop_first().take(i - 1));
        assert(seqs.take(i)[0] == seqs[0]);
        assert(seqs.drop_first()[i - 1] == seqs[i]);
        assert(seqs[0] == expected);
        assert(expected < u64::MAX);
        lemma_journal_fault_step(expected + 1, seqs.drop_first(), i - 1);
        assert(journal_fault(expected, t) == journal_fault(expected + 1, t.drop_first()));
        assert(journal_fault(expected + 1, t.drop_first()) == journal_fault(expected + 1, seqs.drop_first().take(i)));
    } else {
        assert(t.drop_first() =~= Seq::<u64>::empty());
    }
}

proof fn lemma_journal_fault_extends(expected: int, seqs: Seq<u64>, j: int, k: int)
    requires
        0 <= j <= k <= seqs.len(),
        journal_fault(expected, seqs.take(j)) is Some,
    ensures
        journal_fault(expected, seqs.take(k)) == journal_fault(expected, seqs.take(j)),
    decreases j,
{
    if j > 0 && seqs[0] == expected && expected < u64::MAX {
        assert(seqs.take(j).drop_first() =~= seqs.drop_first().take(j - 1));
        assert(seqs.take(k).drop_first() =~= seqs.drop_first().take(k - 1));
        assert(seqs.take(j)[0] == seqs[0]);
        assert(seqs.take(k)[0] == seqs[0]);
        lemma_journal_fault_extends(expected + 1, seqs.drop_first(), j - 1, k - 1);
    } else if j > 0 {
        assert(seqs.take(j)[0] == seqs[0]);
        assert(seqs.take(k)[0] == seqs[0]);
    }
}

/// Turns a journal read into a snapshot: resuming may not run ahead of the
/// journal, and the entries must count up by one from the entry after the
/// one resumed from.
pub fn load_session_snapshot(
    session: SessionInfo,
    after_sequence: Option<u64>,
    through_sequence: u64,
    updates: Vec<SessionUpdate>,
) -> (r: Result<SessionSnapshot, SessionJournalError>)
    ensures
        (after_sequence matches Some(a) && a > through_sequence) ==> r == Err::<SessionSnapshot, _>(
            SessionJournalError::ResumeAhead {
                after_sequence: after_sequence->0,
                through_sequence,
            },
        ),
        !(after_sequence matches Some(a) && a > through_sequence) ==> match journal_fault(
            first_expected(after_sequence),
            sequences(updates@),
        ) {
            Some(e) => r == Err::<SessionSnapshot, _>(e),
            None => r == Ok::<_, SessionJournalError>(
                SessionSnapshot { session, through_sequence, updates },
            ),
        },
{
    if let Some(a) = after_sequence {
        if a > through_sequence {
            return Err(SessionJournalError::ResumeAhead { after_sequence: a, through_sequence });
        }
    }
    let start: u64 = match after_sequence {
        Some(a) => a.saturating_add(1),
        None => 1,
    };
    let ghost seqs = sequences(updates@);
    let mut expected = start;
    let mut i: usize = 0;
    while i < updates.len()
        invariant
            seqs == sequences(updates@),
            !(after_sequence matches Some(a) && a > through_sequence),
            start as int == first_expected(after_sequence),
            i <= updates@.len(),
            expected == start + i,
            journal_fault(start as int, seqs.take(i as int)) is None,
            forall|j: int| 0 <= j < i ==> seqs[j] == start + j,
        decreases updates@.len() - i,
    {
        proof {
            lemma_journal_fault_step(start as int, seqs, i as int);
        }
        let actual = updates[i].sequence;
        if actual != expected {
            proof {
                lemma_journal_fault_extends(start as int, seqs, i + 1, seqs.len() as int);
                assert(seqs.take(seqs.len() as int) =~= seqs);
            }
            return Err(SessionJournalError::Gap { expected, actual });
        }
        if expected == u64::MAX {
            proof {
                lemma_journal_fault_extends(start as int, seqs, i + 1, seqs.len() as int);
                assert(seqs.take(seqs.len() as int) =~= seqs);
            }
            return Err(SessionJournalError::SequenceExhausted);
        }
        expected = expected + 1;
        i = i + 1;
    }
    proof {
        assert(seqs.take(i as int) =~= seqs);
    }
    Ok(SessionSnapshot { session, through_sequence, updates })
}

/// Whether an update continues a session's projection exactly.
pub fn continues_projection(store: &SessionProjectionStore, session_id: &String, sequence: u64) -> (r: bool)
    requires
        store.wf(),
    ensures
        r == (store.view().contains_key(session_id@) && store.view()[session_id@].through_sequence
            < u64::MAX && store.view()[session_id@].through_sequence + 1 == sequence),
{
    match store.state().session(session_id) {
        Some(projection) => projection.through_sequence < u64::MAX && projection.through_sequence + 1
            == sequence,
        None => false,
    }
}

/// Why an identity could not be allocated.
#[derive(Clone, Copy, Debug, PartialEq, Eq, Structural)]
pub enum AllocationError {
    SessionIdsExhausted,
    ExecutionIdsExhausted,
}

/// The ordinals of the next session and execution identities.
pub struct ApplicationOrdinals {
    next_session_ordinal: u64,
    next_execution_ordinal: u64,
}

impl ApplicationOrdinals {
    pub closed spec fn next_session(self) -> u64 {
        self.next_session_ordinal
    }

    pub closed spec fn next_execution(self) -> u64 {
        self.next_execution_ordinal
    }

    pub fn new() -> (r: Self)
        ensures
            r.next_session() == 1,
            r.next_execution() == 1,
    {
        ApplicationOrdinals { next_session_ordinal: 1, next_execution_ordinal: 1 }
    }

    /// The next candidate session identity, `session-<n>`; the caller
    /// skips candidates that already name a session.
    pub fn next_session_candidate(&mut self) -> (r: Result<String, AllocationError>)
        ensures
            final(self).next_execution() == old(self).next_execution(),
            old(self).next_session() == u64::MAX ==> r == Err::<String, _>(
                AllocationError::SessionIdsExhausted,
            ) && final(self).next_session() == old(self).next_session(),
            old(self).next_session() < u64::MAX ==> (r matches Ok(id) && id@ == "session-"@ + decimal(
                old(self).next_session() as nat,
            )) && final(self).next_session() == old(self).next_session() + 1,
    {
        let ordinal = self.next_session_ordinal;
        if ordinal == u64::MAX {
            return Err(AllocationError::SessionIdsExhausted);
        }
        self.next_session_ordinal = ordinal + 1;
        Ok(numbered("session-", ordinal))
    }

    /// The next execution identity, `execution-<n>`.
    pub fn allocate_execution_id(&mut self) -> (r: Result<String, AllocationError>)
        ensures
            final(self).next_session() == old(self).next_session(),
            old(self).next_execution() == u64::MAX ==> r == Err::<String, _>(
                AllocationError::ExecutionIdsExhausted,
            ) && final(self).next_execution() == old(self).next_execution(),
            old(self).next_execution() < u64::MAX ==> (r matches Ok(id) && id@ == "execution-"@
                + decimal(old(self).next_execution() as nat)) && final(self).next_execution() == old(
                self,
            ).next_execution() + 1,
    {
        let ordinal = self.next_execution_ordinal;
        if ordinal == u64::MAX {
            return Err(AllocationError::ExecutionIdsExhausted);
        }
        self.next_execution_ordinal = ordinal + 1;
        Ok(numbered("execution-", ordinal))
    }
}

// ---------------------------------------------------------------------------
// Sessions an application may use
// ---------------------------------------------------------------------------

/// Whether a session is still open.
#[derive(Clone, Copy, Debug, PartialEq, Eq, Structural)]
pub enum SessionLifecycle {
    Open,
    Closed,
}

/// A session as the session service records it. Application sessions are
/// the ones with a working directory.
#[derive(Clone, Debug, PartialEq, Eq)]
pub struct SessionRecord {
    pub id: String,
    pub title: Option<String>,
    pub working_directory: Option<String>,
    pub lifecycle: SessionLifecycle,
}

/// Why an application cannot use a session.
#[derive(Clone, Debug, PartialEq, Eq)]
pub enum SessionAccessError {
    NotFound { resource: String },
    Closed { session_id: String },
    CursorNotIssued,
}

pub open spec fn info_of(r: SessionRecord) -> Option<SessionInfo> {
    match r.working_directory {
        Some(w) => Some(SessionInfo { session_id: r.id, title: r.title, working_directory: w }),
        None => None,
    }
}

fn clone_text_option(a: &Option<String>) -> (r: Option<String>)
    ensures
        r == *a,
{
    match a {
        Some(x) => Some(x.clone()),
        None => None,
    }
}

/// The application's view of a session: absent for sessions that are not
/// application sessions.
pub fn application_session_info(session: &SessionRecord) -> (r: Result<SessionInfo, SessionAccessError>)
    ensures
        match info_of(*session) {
            Some(i) => r matches Ok(x) && x.session_id@ == i.session_id@ && x.working_directory@
                == i.working_directory@ && x.title == i.title,
            None => r matches Err(SessionAccessError::NotFound { resource }) && resource@ == session.id@,
        },
{
    match &session.working_directory {
        None => Err(SessionAccessError::NotFound { resource: session.id.clone() }),
        Some(w) => Ok(
            SessionInfo {
                session_id: session.id.clone(),
                title: clone_text_option(&session.title),
                working_directory: w.clone(),
            },
        ),
    }
}

/// The application sessions among the recorded ones, in order. A page
/// cursor is never issued, so none is accepted.
pub fn application_sessions(sessions: &Vec<SessionRecord>, cursor: &Option<String>) -> (r: Result<
    Vec<SessionInfo>,
    SessionAccessError,
>)
    ensures
        cursor is Some ==> r == Err::<Vec<SessionInfo>, _>(SessionAccessError::CursorNotIssued),
        cursor is None ==> (r matches Ok(list) && {
            let kept = sessions@.filter(|x: SessionRecord| x.working_directory is Some);
            &&& list@.len() == kept.len()
            &&& forall|i: int| 0 <= i < kept.len() ==> {
                let x = #[trigger] list@[i];
                &&& x.session_id@ == kept[i].id@
                &&& x.title == kept[i].title
                &&& Some(x.working_directory) == kept[i].working_directory
            }
        }),
{
    if cursor.is_some() {
        return Err(SessionAccessError::CursorNotIssued);
    }
    let ghost pred = |x: SessionRecord| x.working_directory is Some;
    let mut out: Vec<SessionInfo> = Vec::new();
    let mut i: usize = 0;
    while i < sessions.len()
        invariant
            i <= sessions@.len(),
            pred == (|x: SessionRecord| x.working_directory is Some),
            out@.len() == sessions@.take(i as int).filter(pred).len(),
            forall|j: int| 0 <= j < out@.len() ==> {
                let x = #[trigger] out@[j];
                let k = sessions@.take(i as int).filter(pred)[j];
                &&& x.session_id@ == k.id@
                &&& x.title == k.title
                &&& Some(x.working_directory) == k.working_directory
            },
        decreases sessions@.len() - i,
    {
        let ghost before = sessions@.take(i as int);
        proof {
            assert(sessions@.take(i + 1) =~= before.push(sessions@[i as int]));
            vstd::seq::Seq::lemma_filter_push(before, sessions@[i as int], pred);
        }
        match &sessions[i].working_directory {
            Some(w) => {
                out.push(
                    SessionInfo {
                        session_id: sessions[i].id.clone(),
                        title: clone_text_option(&sessions[i].title),
                        working_directory: w.clone(),
                    },
                );
            },
            None => {},
        }
        i = i + 1;
    }
    proof {
        assert(sessions@.take(i as int) =~= sessions@);
    }
    Ok(out)
}

/// The session an operation needs: it must be recorded (`record`, as the
/// session service knows it), be an application session, and be open.
pub fn require_open_application_session(session_id: &String, record: Option<SessionRecord>) -> (r: Result<
    SessionRecord,
    SessionAccessError,
>)
    ensures
        match record {
            None => r matches Err(SessionAccessError::NotFound { resource }) && resource@ == session_id@,
            Some(s) => if s.working_directory is None {
                r matches Err(SessionAccessError::NotFound { resource }) && resource@ == s.id@
            } else if s.lifecycle != SessionLifecycle::Open {
                r matches Err(SessionAccessError::Closed { session_id: i }) && i@ == session_id@
            } else {
                r == Ok::<_, SessionAccessError>(s)
            },
        },
{
    match record {
        None => Err(SessionAccessError::NotFound { resource: session_id.clone() }),
        Some(s) => {
            if s.working_directory.is_none() {
                return Err(SessionAccessError::NotFound { resource: s.id });
            }
            if s.lifecycle != SessionLifecycle::Open {
                return Err(SessionAccessError::Closed { session_id: session_id.clone() });
            }
            Ok(s)
        },
    }
}

// ---------------------------------------------------------------------------
// Interaction handlers
// ---------------------------------------------------------------------------

/// The kinds of interaction a client can handle for the application.
#[derive(Clone, Copy, Debug, PartialEq, Eq, Structural)]
pub enum InteractionKind {
    Permission,
    Elicitation,
}

/// The client callables that handle interactions, if any.
#[derive(Clone, Debug, PartialEq, Eq)]
pub struct InteractionHandlers<H> {
    pub permission: Option<H>,
    pub elicitation: Option<H>,
}

/// Replaces the interaction handlers, after `accept` (the check of a handler
/// against the schema of its kind) has accepted every new one; a refused
/// handler leaves the previous handlers in place.
pub fn set_interaction_handlers<H, F>(
    current: &mut InteractionHandlers<H>,
    handlers: InteractionHandlers<H>,
    accept: F,
) -> (r: Result<(), String>) where F: Fn(&H, InteractionKind) -> Result<(), String>
    requires
        handlers.permission matches Some(p) ==> accept.requires((&p, InteractionKind::Permission)),
        handlers.elicitation matches Some(e) ==> accept.requires((&e, InteractionKind::Elicitation)),
    ensures
        r is Ok ==> *final(current) == handlers,
        r is Err ==> *final(current) == *old(current),
        r is Ok && handlers.permission is Some ==> accept.ensures(
            (&handlers.permission->Some_0, InteractionKind::Permission),
            Ok::<(), String>(()),
        ),
        r is Ok && handlers.elicitation is Some ==> accept.ensures(
            (&handlers.elicitation->Some_0, InteractionKind::Elicitation),
            Ok::<(), String>(()),
        ),
        r matches Err(reason) ==> (handlers.permission matches Some(p) && accept.ensures(
            (&p, InteractionKind::Permission),
            Err::<(), String>(reason),
        )) || (handlers.elicitation matches Some(e) && accept.ensures(
            (&e, InteractionKind::Elicitation),
            Err::<(), String>(reason),
        )),
{
    if let Some(p) = &handlers.permission {
        let checked = accept(p, InteractionKind::Permission);
        match checked {
            Err(reason) => {
                return Err(reason);
            },
            Ok(()) => {},
        }
        assert(checked->Ok_0 == ());
    }
    if let Some(e) = &handlers.elicitation {
        let checked = accept(e, InteractionKind::Elicitation);
        match checked {
            Err(reason) => {
                return Err(reason);
            },
            Ok(()) => {},
        }
        assert(checked->Ok_0 == ());
    }
    *current = handlers;
    Ok(())
}

/// Empties both interaction handler slots.
pub fn clear_interaction_handlers<H>(current: &mut InteractionHandlers<H>)
    ensures
        final(current).permission is None,
        final(current).elicitation is None,
{
    *current = InteractionHandlers { permission: None, elicitation: None };
}

} // verus!
