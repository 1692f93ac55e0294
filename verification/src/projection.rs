//! The per-session projection that the application worker keeps in step with
//! the durable session journal.
//!
//! Each session has a projection that records the journal updates applied so
//! far and the sequence number through which it is current. Updates must
//! arrive contiguously; a gap is reported instead of guessed, and repair
//! replaces a session wholesale with an authoritative snapshot before
//! consuming the still-relevant suffix of buffered updates.
use vstd::prelude::*;

verus! {

/// Who wrote a journaled message.
#[derive(Clone, Copy, Debug, PartialEq, Eq)]
pub enum MessageRole {
    User,
    Assistant,
}

/// A journaled conversation message; its content blocks are carried in their
/// encoded text form.
#[derive(Clone, Debug, PartialEq, Eq)]
pub struct Message {
    pub role: MessageRole,
    pub content: String,
}

/// One change of an application session, as recorded in its journal.
#[derive(Clone, Debug, PartialEq, Eq)]
pub enum SessionChange {
    Renamed { title: String },
    Closed,
    Message { message: Message },
}

/// The application-facing description of a session.
#[derive(Clone, Debug, PartialEq, Eq)]
pub struct SessionInfo {
    pub session_id: String,
    pub title: Option<String>,
    pub working_directory: String,
}

/// One journal entry of a session, with its position in that session's journal.
#[derive(Clone, Debug, PartialEq, Eq)]
pub struct SessionUpdate {
    pub session_id: String,
    pub sequence: u64,
    pub update: SessionChange,
}

/// An authoritative full copy of one session's journal through a sequence number.
#[derive(Clone, Debug, PartialEq, Eq)]
pub struct SessionSnapshot {
    pub session: SessionInfo,
    pub through_sequence: u64,
    pub updates: Vec<SessionUpdate>,
}

/// The projection of one session.
#[derive(Clone, Debug, PartialEq, Eq)]
pub struct SessionProjection {
    pub session: SessionInfo,
    pub through_sequence: u64,
    pub updates: Vec<SessionUpdate>,
}

/// The mathematical content of one session projection.
pub struct ProjectionView {
    pub session: SessionInfo,
    pub through_sequence: u64,
    pub updates: Seq<SessionUpdate>,
}

impl SessionProjection {
    pub open spec fn model(self) -> ProjectionView {
        ProjectionView {
            session: self.session,
            through_sequence: self.through_sequence,
            updates: self.updates@,
        }
    }

    pub open spec fn key(self) -> Seq<char> {
        self.session.session_id@
    }
}

/// All session projections, one per session identity.
#[derive(Clone, Debug, PartialEq, Eq)]
pub struct SessionProjectionState {
    pub sessions: Vec<SessionProjection>,
}

/// Why an update could not be applied to a projection.
#[derive(Clone, Debug, PartialEq, Eq)]
pub enum SessionProjectionError {
    Missing { session_id: String },
    SequenceGap { session_id: String, expected: u64, actual: u64 },
    RepairSessionMismatch { expected: String, actual: String },
}

pub open spec fn keys_distinct(s: Seq<SessionProjection>) -> bool {
    forall|i: int, j: int|
        0 <= i < s.len() && 0 <= j < s.len() && i != j ==> #[trigger] s[i].key() != #[trigger] s[j].key()
}

pub open spec fn has_key(s: Seq<SessionProjection>, k: Seq<char>) -> bool {
    exists|i: int| 0 <= i < s.len() && #[trigger] s[i].key() == k
}

pub open spec fn index_of_key(s: Seq<SessionProjection>, k: Seq<char>) -> int {
    choose|i: int| 0 <= i < s.len() && #[trigger] s[i].key() == k
}

/// The projections keyed by session identity.
pub open spec fn projection_map(s: Seq<SessionProjection>) -> Map<Seq<char>, ProjectionView> {
    Map::new(|k: Seq<char>| has_key(s, k), |k: Seq<char>| s[index_of_key(s, k)].model())
}

/// The projection that a freshly created session starts with.
pub open spec fn created_projection(session: SessionInfo) -> ProjectionView {
    ProjectionView { session, through_sequence: 0, updates: Seq::empty() }
}

/// The projection that a full snapshot stands for.
pub open spec fn snapshot_projection(snapshot: SessionSnapshot) -> ProjectionView {
    ProjectionView {
        session: snapshot.session,
        through_sequence: snapshot.through_sequence,
        updates: snapshot.updates@,
    }
}

/// A projection after one contiguous update: a rename retitles the session,
/// and the update joins the history.
pub open spec fn advanced(p: ProjectionView, u: SessionUpdate) -> ProjectionView {
    ProjectionView {
        session: match u.update {
            SessionChange::Renamed { title } => SessionInfo { title: Some(title), ..p.session },
            _ => p.session,
        },
        through_sequence: u.sequence,
        updates: p.updates.push(u),
    }
}

/// What applying one update to the projections yields.
pub open spec fn apply_outcome(m: Map<Seq<char>, ProjectionView>, u: SessionUpdate) -> Result<
    Map<Seq<char>, ProjectionView>,
    SessionProjectionError,
> {
    if !m.contains_key(u.session_id@) {
        Err(SessionProjectionError::Missing { session_id: u.session_id })
    } else if u.sequence != m[u.session_id@].through_sequence + 1 {
        Err(
            SessionProjectionError::SequenceGap {
                session_id: u.session_id,
                expected: (m[u.session_id@].through_sequence + 1) as u64,
                actual: u.sequence,
            },
        )
    } else {
        Ok(m.insert(u.session_id@, advanced(m[u.session_id@], u)))
    }
}

/// An update can be checked against the projections without the expected
/// sequence number overflowing.
pub open spec fn sequence_room(m: Map<Seq<char>, ProjectionView>, id: Seq<char>) -> bool {
    m.contains_key(id) ==> m[id].through_sequence < u64::MAX
}

/// What repair yields once the snapshot has replaced the session: the buffered
/// updates for that session are consumed in order, those the snapshot already
/// covers are skipped, and the first error ends the repair with every earlier
/// step kept.
pub open spec fn repair_outcome(
    m: Map<Seq<char>, ProjectionView>,
    id: SessionInfo,
    buffered: Seq<SessionUpdate>,
) -> (Map<Seq<char>, ProjectionView>, Result<(), SessionProjectionError>)
    decreases buffered.len(),
{
    if buffered.len() == 0 {
        (m, Ok(()))
    } else {
        let u = buffered[0];
        if u.session_id@ != id.session_id@ {
            (
                m,
                Err(
                    SessionProjectionError::RepairSessionMismatch {
                        expected: id.session_id,
                        actual: u.session_id,
                    },
                ),
            )
        } else if u.sequence <= m[id.session_id@].through_sequence {
            repair_outcome(m, id, buffered.drop_first())
        } else {
            match apply_outcome(m, u) {
                Ok(next) => repair_outcome(next, id, buffered.drop_first()),
                Err(e) => (m, Err(e)),
            }
        }
    }
}

/// The buffered updates leave room for every sequence check that repair may make.
pub open spec fn repair_room(buffered: Seq<SessionUpdate>) -> bool {
    forall|i: int| 0 <= i < buffered.len() ==> #[trigger] buffered[i].sequence < u64::MAX
}

proof fn lemma_index_of_key(s: Seq<SessionProjection>, i: int)
    requires
        keys_distinct(s),
        0 <= i < s.len(),
    ensures
        has_key(s, s[i].key()),
        index_of_key(s, s[i].key()) == i,
{
    let k = s[i].key();
    assert(has_key(s, k));
    let j = index_of_key(s, k);
    if j != i {
        assert(s[j].key() == s[i].key());
    }
}

impl SessionProjectionState {
    pub open spec fn wf(self) -> bool {
        keys_distinct(self.sessions@)
    }

    pub open spec fn view(self) -> Map<Seq<char>, ProjectionView> {
        projection_map(self.sessions@)
    }

    pub fn new() -> (s: Self)
        ensures
            s.wf(),
            s.view() == Map::<Seq<char>, ProjectionView>::empty(),
    {
        let s = SessionProjectionState { sessions: Vec::new() };
        assert(s.view() =~= Map::<Seq<char>, ProjectionView>::empty());
        s
    }

    /// The position of the session's projection, if it has one.
    fn find(&self, session_id: &String) -> (r: Option<usize>)
        requires
            self.wf(),
        ensures
            match r {
                Some(i) => i < self.sessions@.len() && self.sessions@[i as int].key() == session_id@,
                None => !has_key(self.sessions@, session_id@),
            },
    {
        let mut i: usize = 0;
        while i < self.sessions.len()
            invariant
                i <= self.sessions@.len(),
                forall|j: int| 0 <= j < i ==> #[trigger] self.sessions@[j].key() != session_id@,
            decreases self.sessions@.len() - i,
        {
            if self.sessions[i].session.session_id == *session_id {
                return Some(i);
            }
            i = i + 1;
        }
        None
    }

    /// The projection of one session.
    pub fn session(&self, session_id: &String) -> (r: Option<&SessionProjection>)
        requires
            self.wf(),
        ensures
            match r {
                Some(p) => self.view().contains_key(session_id@) && self.view()[session_id@]
                    == p.model() && p.key() == session_id@,
                None => !self.view().contains_key(session_id@),
            },
    {
        match self.find(session_id) {
            Some(i) => {
                proof {
                    lemma_index_of_key(self.sessions@, i as int);
                }
                Some(&self.sessions[i])
            },
            None => None,
        }
    }

    /// Sets the projection of the projection's own session, replacing any earlier one.
    fn put(&mut self, p: SessionProjection)
        requires
            old(self).wf(),
        ensures
            final(self).wf(),
            final(self).view() == old(self).view().insert(p.key(), p.model()),
    {
        let ghost key = p.key();
        let ghost before = self.sessions@;
        match self.find(&p.session.session_id) {
            Some(i) => {
                self.sessions.set(i, p);
                proof {
                    let after = self.sessions@;
                    assert forall|a: int, b: int|
                        0 <= a < after.len() && 0 <= b < after.len() && a != b implies #[trigger] after[a].key()
                        != #[trigger] after[b].key() by {
                        if a != i && b != i {
                            assert(after[a] == before[a] && after[b] == before[b]);
                        } else if a == i {
                            assert(after[b] == before[b]);
                            assert(before[i as int].key() == key);
                        } else {
                            assert(after[a] == before[a]);
                            assert(before[i as int].key() == key);
                        }
                    }
                    assert forall|k: Seq<char>|
                        #![auto]
                        projection_map(after).contains_key(k) == projection_map(before).insert(
                            key,
                            p.model(),
                        ).contains_key(k) by {
                        if has_key(before, k) {
                            let j = index_of_key(before, k);
                            if j == i {
                                assert(after[i as int].key() == k);
                            } else {
                                assert(after[j] == before[j]);
                            }
                        }
                        if has_key(after, k) {
                            let j = index_of_key(after, k);
                            if j != i {
                                assert(after[j] == before[j]);
                            }
                        }
                    }
                    assert forall|k: Seq<char>|
                        #![auto]
                        projection_map(after).contains_key(k) implies projection_map(after)[k]
                        == projection_map(before).insert(key, p.model())[k] by {
                        let j = index_of_key(after, k);
                        lemma_index_of_key(after, j);
                        if j == i {
                            assert(k == key);
                        } else {
                            assert(after[j] == before[j]);
                            lemma_index_of_key(before, j);
                        }
                    }
                    assert(projection_map(after) =~= projection_map(before).insert(
                        key,
                        p.model(),
                    ));
                }
            },
            None => {
                self.sessions.push(p);
                proof {
                    let after = self.sessions@;
                    let n = before.len() as int;
                    assert(after[n].key() == key);
                    assert forall|a: int, b: int|
                        0 <= a < after.len() && 0 <= b < after.len() && a != b implies #[trigger] after[a].key()
                        != #[trigger] after[b].key() by {
                        if a < n && b < n {
                            assert(after[a] == before[a] && after[b] == before[b]);
                        } else if a == n {
                            assert(after[b] == before[b]);
                            assert(!has_key(before, key));
                            assert(before[b].key() != key);
                        } else {
                            assert(after[a] == before[a]);
                            assert(before[a].key() != key);
                        }
                    }
                    assert forall|k: Seq<char>|
                        #![auto]
                        projection_map(after).contains_key(k) == projection_map(before).insert(
                            key,
                            p.model(),
                        ).contains_key(k) by {
                        if has_key(before, k) {
                            let j = index_of_key(before, k);
                            assert(after[j] == before[j]);
                        }
                        if has_key(after, k) {
                            let j = index_of_key(after, k);
                            if j < n {
                                assert(after[j] == before[j]);
                            }
                        }
                    }
                    assert forall|k: Seq<char>|
                        #![auto]
                        projection_map(after).contains_key(k) implies projection_map(after)[k]
                        == projection_map(before).insert(key, p.model())[k] by {
                        let j = index_of_key(after, k);
                        lemma_index_of_key(after, j);
                        if j == n {
                            assert(k == key);
                        } else {
                            assert(after[j] == before[j]);
                            lemma_index_of_key(before, j);
                        }
                    }
                    assert(projection_map(after) =~= projection_map(before).insert(
                        key,
                        p.model(),
                    ));
                }
            },
        }
    }
}

/// Keeps the session projections and applies journal updates to them.
#[derive(Clone, Debug, PartialEq, Eq)]
pub struct SessionProjectionReducer {
    state: SessionProjectionState,
}

impl SessionProjectionReducer {
    pub closed spec fn wf(self) -> bool {
        self.state.wf()
    }

    pub closed spec fn view(self) -> Map<Seq<char>, ProjectionView> {
        self.state.view()
    }

    /// A reducer without any session.
    pub fn new() -> (r: Self)
        ensures
            r.wf(),
            r.view() == Map::<Seq<char>, ProjectionView>::empty(),
    {
        SessionProjectionReducer { state: SessionProjectionState::new() }
    }

    pub fn state(&self) -> (r: &SessionProjectionState)
        ensures
            r.view() == self.view(),
            r.wf() == self.wf(),
    {
        &self.state
    }

    /// A newly created session starts at sequence zero with an empty history,
    /// replacing any earlier projection of that session.
    pub fn insert_created(&mut self, session: SessionInfo)
        requires
            old(self).wf(),
        ensures
            final(self).wf(),
            final(self).view() == old(self).view().insert(
                session.session_id@,
                created_projection(session),
            ),
    {
        let ghost s = session;
        let p = SessionProjection { session, through_sequence: 0, updates: Vec::new() };
        assert(p.model() == created_projection(s));
        self.state.put(p);
    }

    /// A full snapshot replaces the session's projection.
    pub fn replace_snapshot(&mut self, snapshot: SessionSnapshot)
        requires
            old(self).wf(),
        ensures
            final(self).wf(),
            final(self).view() == old(self).view().insert(
                snapshot.session.session_id@,
                snapshot_projection(snapshot),
            ),
    {
        let ghost s = snapshot;
        let SessionSnapshot { session, through_sequence, updates } = snapshot;
        let p = SessionProjection { session, through_sequence, updates };
        assert(p.model() == snapshot_projection(s));
        self.state.put(p);
    }

    /// Applies one update when it is the next one of a projected session;
    /// otherwise reports the missing projection or the gap and changes nothing.
    pub fn apply_update(&mut self, update: SessionUpdate) -> (r: Result<(), SessionProjectionError>)
        requires
            old(self).wf(),
            sequence_room(old(self).view(), update.session_id@),
        ensures
            final(self).wf(),
            match apply_outcome(old(self).view(), update) {
                Ok(next) => r is Ok && final(self).view() == next,
                Err(e) => r == Err::<(), _>(e) && final(self).view() == old(self).view(),
            },
    {
        let ghost u = update;
        let ghost m = self.view();
        let found = self.state.session(&update.session_id);
        let current = match found {
            None => {
                return Err(SessionProjectionError::Missing { session_id: update.session_id });
            },
            Some(p) => p,
        };
        let expected = current.through_sequence + 1;
        if update.sequence != expected {
            return Err(
                SessionProjectionError::SequenceGap {
                    session_id: update.session_id,
                    expected,
                    actual: update.sequence,
                },
            );
        }
        let mut session = current.session.clone_info();
        let mut updates = clone_updates(&current.updates);
        if let SessionChange::Renamed { title } = &update.update {
            session.title = Some(title.clone());
        }
        let through_sequence = update.sequence;
        updates.push(update);
        let next = SessionProjection { session, through_sequence, updates };
        assert(next.model() == advanced(m[u.session_id@], u));
        self.state.put(next);
        Ok(())
    }
}

/// Why the projection store refused a mutation.
#[derive(Clone, Debug, PartialEq, Eq)]
pub enum SessionProjectionStoreError {
    Projection(SessionProjectionError),
    Observable { message: String },
}

/// The session projections as published to observers: every mutation either
/// commits whole or leaves the projections unchanged.
#[derive(Clone, Debug, PartialEq, Eq)]
pub struct SessionProjectionStore {
    reducer: SessionProjectionReducer,
}

impl SessionProjectionStore {
    pub closed spec fn wf(self) -> bool {
        self.reducer.wf()
    }

    pub closed spec fn view(self) -> Map<Seq<char>, ProjectionView> {
        self.reducer.view()
    }

    pub fn new() -> (r: Self)
        ensures
            r.wf(),
            r.view() == Map::<Seq<char>, ProjectionView>::empty(),
    {
        SessionProjectionStore { reducer: SessionProjectionReducer::new() }
    }

    pub fn state(&self) -> (r: &SessionProjectionState)
        ensures
            r.view() == self.view(),
            r.wf() == self.wf(),
    {
        self.reducer.state()
    }

    pub fn insert_created(&mut self, session: SessionInfo) -> (r: Result<(), SessionProjectionStoreError>)
        requires
            old(self).wf(),
        ensures
            r is Ok,
            final(self).wf(),
            final(self).view() == old(self).view().insert(
                session.session_id@,
                created_projection(session),
            ),
    {
        self.reducer.insert_created(session);
        Ok(())
    }

    pub fn replace_snapshot(&mut self, snapshot: SessionSnapshot) -> (r: Result<(), SessionProjectionStoreError>)
        requires
            old(self).wf(),
        ensures
            r is Ok,
            final(self).wf(),
            final(self).view() == old(self).view().insert(
                snapshot.session.session_id@,
                snapshot_projection(snapshot),
            ),
    {
        self.reducer.replace_snapshot(snapshot);
        Ok(())
    }

    pub fn apply_update(&mut self, update: SessionUpdate) -> (r: Result<(), SessionProjectionStoreError>)
        requires
            old(self).wf(),
            sequence_room(old(self).view(), update.session_id@),
        ensures
            final(self).wf(),
            match apply_outcome(old(self).view(), update) {
                Ok(next) => r is Ok && final(self).view() == next,
                Err(e) => r == Err::<(), _>(SessionProjectionStoreError::Projection(e))
                    && final(self).view() == old(self).view(),
            },
    {
        match self.reducer.apply_update(update) {
            Ok(()) => Ok(()),
            Err(e) => Err(SessionProjectionStoreError::Projection(e)),
        }
    }

    /// Replaces one session with an authoritative full snapshot, then consumes
    /// only the still-relevant contiguous suffix buffered while repair ran.
    ///
    /// A remaining gap is returned after the snapshot (and any preceding
    /// contiguous suffix) has committed; the caller then fetches another full
    /// snapshot rather than guessing the missing transition.
    pub fn repair_with_snapshot(&mut self, snapshot: SessionSnapshot, buffered: Vec<SessionUpdate>) -> (r:
        Result<(), SessionProjectionStoreError>)
        requires
            old(self).wf(),
        ensures
            final(self).wf(),
            ({
                let (m, outcome) = repair_outcome(
                    old(self).view().insert(
                        snapshot.session.session_id@,
                        snapshot_projection(snapshot),
                    ),
                    snapshot.session,
                    buffered@,
                );
                &&& final(self).view() == m
                &&& match outcome {
                    Ok(()) => r is Ok,
                    Err(e) => r == Err::<(), _>(SessionProjectionStoreError::Projection(e)),
                }
            }),
    {
        let ghost session = snapshot.session;
        let ghost snap = snapshot;
        let ghost initial = self.view();
        let session_id = snapshot.session.session_id.clone();
        let _ = self.replace_snapshot(snapshot);
        let ghost start = self.view();
        let mut i: usize = 0;
        assert(buffered@.subrange(0, buffered@.len() as int) =~= buffered@);
        while i < buffered.len()
            invariant
                self.wf(),
                i <= buffered@.len(),
                session_id == session.session_id,
                start == initial.insert(snap.session.session_id@, snapshot_projection(snap)),
                session == snap.session,
                snap == snapshot,
                initial == old(self).view(),
                self.view().contains_key(session_id@),
                repair_outcome(self.view(), session, buffered@.subrange(i as int, buffered@.len() as int))
                    == repair_outcome(start, session, buffered@),
            decreases buffered@.len() - i,
        {
            let ghost rest = buffered@.subrange(i as int, buffered@.len() as int);
            assert(rest[0] == buffered@[i as int]);
            assert(rest.drop_first() =~= buffered@.subrange(i + 1, buffered@.len() as int));
            let update = buffered[i].clone_update();
            if !(update.session_id == session_id) {
                let ghost e = SessionProjectionError::RepairSessionMismatch {
                    expected: session_id,
                    actual: update.session_id,
                };
                assert(repair_outcome(self.view(), session, rest) == (self.view(), Err::<(), _>(e)));
                return Err(
                    SessionProjectionStoreError::Projection(
                        SessionProjectionError::RepairSessionMismatch {
                            expected: session_id,
                            actual: update.session_id,
                        },
                    ),
                );
            }
            let through_sequence = match self.state().session(&session_id) {
                Some(p) => p.through_sequence,
                None => {
                    assert(false);
                    0
                },
            };
            if update.sequence > through_sequence {
                let ghost before = self.view();
                let ghost u = update;
                let applied = self.apply_update(update);
                if applied.is_err() {
                    assert(apply_outcome(before, u) is Err);
                    assert(repair_outcome(before, session, rest) == (before, Err::<(), _>(
                        apply_outcome(before, u)->Err_0,
                    )));
                    return applied;
                }
            }
            i = i + 1;
        }
        assert(buffered@.subrange(i as int, buffered@.len() as int) =~= Seq::<SessionUpdate>::empty());
        Ok(())
    }
}

impl SessionInfo {
    /// A copy of the description.
    pub fn clone_info(&self) -> (r: SessionInfo)
        ensures
            r == *self,
    {
        SessionInfo {
            session_id: self.session_id.clone(),
            title: match &self.title {
                Some(t) => Some(t.clone()),
                None => None,
            },
            working_directory: self.working_directory.clone(),
        }
    }
}

impl Message {
    pub fn clone_message(&self) -> (r: Message)
        ensures
            r == *self,
    {
        Message { role: self.role, content: self.content.clone() }
    }
}

impl SessionChange {
    pub fn clone_change(&self) -> (r: SessionChange)
        ensures
            r == *self,
    {
        match self {
            SessionChange::Renamed { title } => SessionChange::Renamed { title: title.clone() },
            SessionChange::Closed => SessionChange::Closed,
            SessionChange::Message { message } => SessionChange::Message {
                message: message.clone_message(),
            },
        }
    }
}

impl SessionUpdate {
    pub fn clone_update(&self) -> (r: SessionUpdate)
        ensures
            r == *self,
    {
        SessionUpdate {
            session_id: self.session_id.clone(),
            sequence: self.sequence,
            update: self.update.clone_change(),
        }
    }
}

/// A copy of a list of updates.
pub fn clone_updates(updates: &Vec<SessionUpdate>) -> (r: Vec<SessionUpdate>)
    ensures
        r@ == updates@,
{
    let mut r: Vec<SessionUpdate> = Vec::new();
    let mut i: usize = 0;
    while i < updates.len()
        invariant
            i <= updates@.len(),
            r@ == updates@.subrange(0, i as int),
        decreases updates@.len() - i,
    {
        r.push(updates[i].clone_update());
        i = i + 1;
        assert(r@ =~= updates@.subrange(0, i as int));
    }
    assert(r@ =~= updates@);
    r
}

/// A projection after each of a run of contiguous updates in turn.
pub open spec fn advance_all(p: ProjectionView, us: Seq<SessionUpdate>) -> ProjectionView
    decreases us.len(),
{
    if us.len() == 0 {
        p
    } else {
        advance_all(advanced(p, us[0]), us.drop_first())
    }
}

proof fn lemma_repair_skips_covered(
    m: Map<Seq<char>, ProjectionView>,
    info: SessionInfo,
    covered: Seq<SessionUpdate>,
    rest: Seq<SessionUpdate>,
)
    requires
        m.contains_key(info.session_id@),
        forall|i: int| 0 <= i < covered.len() ==> (#[trigger] covered[i]).session_id@ == info.session_id@
            && covered[i].sequence <= m[info.session_id@].through_sequence,
    ensures
        repair_outcome(m, info, covered + rest) == repair_outcome(m, info, rest),
    decreases covered.len(),
{
    if covered.len() > 0 {
        assert((covered + rest).drop_first() =~= covered.drop_first() + rest);
        assert((covered + rest)[0] == covered[0]);
        lemma_repair_skips_covered(m, info, covered.drop_first(), rest);
    } else {
        assert(covered + rest =~= rest);
    }
}

proof fn lemma_repair_applies_suffix(
    m: Map<Seq<char>, ProjectionView>,
    info: SessionInfo,
    suffix: Seq<SessionUpdate>,
)
    requires
        m.contains_key(info.session_id@),
        m[info.session_id@].through_sequence + suffix.len() <= u64::MAX,
        forall|i: int| 0 <= i < suffix.len() ==> (#[trigger] suffix[i]).session_id@ == info.session_id@
            && suffix[i].sequence == m[info.session_id@].through_sequence + 1 + i,
    ensures
        repair_outcome(m, info, suffix) == (
            m.insert(info.session_id@, advance_all(m[info.session_id@], suffix)),
            Ok::<(), SessionProjectionError>(()),
        ),
    decreases suffix.len(),
{
    let id = info.session_id@;
    if suffix.len() == 0 {
        assert(m.insert(id, m[id]) =~= m);
    } else {
        let u = suffix[0];
        let next = m.insert(id, advanced(m[id], u));
        assert(apply_outcome(m, u) == Ok::<_, SessionProjectionError>(next));
        let rest = suffix.drop_first();
        assert forall|i: int| 0 <= i < rest.len() implies (#[trigger] rest[i]).session_id@ == id
            && rest[i].sequence == next[id].through_sequence + 1 + i by {
            assert(rest[i] == suffix[i + 1]);
        }
        lemma_repair_applies_suffix(next, info, rest);
        assert(next.insert(id, advance_all(next[id], rest)) =~= m.insert(id, advance_all(m[id], suffix)));
    }
}

/// Repair after a snapshot skips the buffered updates the snapshot already
/// covers and applies the contiguous ones that follow it: the session ends
/// as the snapshot advanced by that suffix.
pub proof fn lemma_repair_discards_covered_and_applies_suffix(
    m: Map<Seq<char>, ProjectionView>,
    snapshot: SessionSnapshot,
    covered: Seq<SessionUpdate>,
    suffix: Seq<SessionUpdate>,
)
    requires
        snapshot.through_sequence + suffix.len() <= u64::MAX,
        forall|i: int| 0 <= i < covered.len() ==> (#[trigger] covered[i]).session_id@
            == snapshot.session.session_id@ && covered[i].sequence <= snapshot.through_sequence,
        forall|i: int| 0 <= i < suffix.len() ==> (#[trigger] suffix[i]).session_id@
            == snapshot.session.session_id@ && suffix[i].sequence == snapshot.through_sequence + 1 + i,
    ensures
        repair_outcome(
            m.insert(snapshot.session.session_id@, snapshot_projection(snapshot)),
            snapshot.session,
            covered + suffix,
        ) == (
            m.insert(
                snapshot.session.session_id@,
                advance_all(snapshot_projection(snapshot), suffix),
            ),
            Ok::<(), SessionProjectionError>(()),
        ),
{
    let id = snapshot.session.session_id@;
    let start = m.insert(id, snapshot_projection(snapshot));
    lemma_repair_skips_covered(start, snapshot.session, covered, suffix);
    lemma_repair_applies_suffix(start, snapshot.session, suffix);
    assert(start.insert(id, advance_all(start[id], suffix)) =~= m.insert(
        id,
        advance_all(snapshot_projection(snapshot), suffix),
    ));
}

/// An update that does not continue its session's projection is refused and
/// changes nothing: a gap never advances the projection.
pub proof fn lemma_gap_never_advances(m: Map<Seq<char>, ProjectionView>, u: SessionUpdate)
    requires
        m.contains_key(u.session_id@),
        u.sequence != m[u.session_id@].through_sequence + 1,
    ensures
        apply_outcome(m, u) is Err,
{
}

} // verus!
