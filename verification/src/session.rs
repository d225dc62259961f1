use crate::models::MemoryScope;
use crate::text::owned;
use dashmap::DashMap;
use uuid::Uuid;
use vstd::prelude::*;

verus! {

/// A client session: the graph it works on and the protocol version agreed on.
/// (The channel that carries its events is kept by the transport.)
#[derive(Clone, Debug)]
pub struct Session {
    pub project_id: String,
    pub scope: MemoryScope,
    pub protocol_version: String,
}

/// The view of a session: project, scope and protocol version.
pub type SessionView = (Seq<char>, Option<Seq<char>>, Seq<char>);

impl View for Session {
    type V = SessionView;

    open spec fn view(&self) -> SessionView {
        (self.project_id@, self.scope@, self.protocol_version@)
    }
}

/// What a session table holds: the session stored under each id.
pub uninterp spec fn session_table(m: DashMap<String, Session>) -> Map<Seq<char>, SessionView>;

/// `DashMap::new`: a session table that holds nothing.
#[verifier::external_body]
fn session_table_new() -> (r: DashMap<String, Session>)
    ensures
        session_table(r).is_empty(),
{
    DashMap::new()
}

/// `DashMap::get`, with the session copied out.
#[verifier::external_body]
fn session_table_get(m: &DashMap<String, Session>, id: &str) -> (r: Option<Session>)
    ensures
        match r {
            Some(s) => session_table(*m).contains_key(id@) && s@ == session_table(*m)[id@],
            None => !session_table(*m).contains_key(id@),
        },
{
    m.get(id).map(|entry| entry.value().clone())
}

/// `DashMap::insert`: stores `s` under `id`, replacing what was there.
#[verifier::external_body]
fn session_table_insert(m: &mut DashMap<String, Session>, id: String, s: Session)
    ensures
        session_table(*final(m)) == session_table(*old(m)).insert(id@, s@),
{
    m.insert(id, s);
}

/// `DashMap::remove`: drops the session stored under `id`, if any.
#[verifier::external_body]
fn session_table_remove(m: &mut DashMap<String, Session>, id: &str)
    ensures
        session_table(*final(m)) == session_table(*old(m)).remove(id@),
{
    m.remove(id);
}

/// Whether `c` is a lowercase hexadecimal digit.
pub open spec fn is_lower_hex(c: char) -> bool {
    (48 <= (c as u32) <= 57) || (97 <= (c as u32) <= 102)
}

/// Whether `s` is a version-4 UUID written as lowercase hyphenated text,
/// `xxxxxxxx-xxxx-4xxx-yxxx-xxxxxxxxxxxx`: each `x` a lowercase hexadecimal digit and
/// `y` one of `8`, `9`, `a`, `b` (the RFC 4122 variant).
pub open spec fn is_uuid_v4_text(s: Seq<char>) -> bool {
    &&& s.len() == 36
    &&& forall|i: int|
        0 <= i < 36 ==> if i == 8 || i == 13 || i == 18 || i == 23 {
            #[trigger] s[i] == '-'
        } else {
            is_lower_hex(s[i])
        }
    &&& s[14] == '4'
    &&& (s[19] == '8' || s[19] == '9' || s[19] == 'a' || s[19] == 'b')
}

/// `Uuid::new_v4`, written by its `Display` impl: a random version-4 UUID (the version
/// and variant bits set, the other bits random) as lowercase hyphenated text. Which id
/// comes out is left open.
#[verifier::external_body]
fn new_session_id() -> (r: String)
    ensures
        is_uuid_v4_text(r@),
{
    Uuid::new_v4().to_string()
}

/// A call that changes the sessions, with what it was given: opening a session under
/// an id, recording a protocol version in one, closing one.
pub enum SessionCall {
    Create { id: Seq<char>, project_id: Seq<char>, scope: Option<Seq<char>> },
    SetVersion { id: Seq<char>, version: Seq<char> },
    Remove { id: Seq<char> },
}

/// The id of the session that a call is about.
pub open spec fn call_id(c: SessionCall) -> Seq<char> {
    match c {
        SessionCall::Create { id, .. } => id,
        SessionCall::SetVersion { id, .. } => id,
        SessionCall::Remove { id } => id,
    }
}

/// The sessions after a call, as `create_session`, `set_protocol_version` and
/// `remove_session` leave them.
pub open spec fn after_session_call(m: Map<Seq<char>, SessionView>, c: SessionCall) -> Map<
    Seq<char>,
    SessionView,
> {
    match c {
        SessionCall::Create { id, project_id, scope } => m.insert(
            id,
            (project_id, scope, "2024-11-05"@),
        ),
        SessionCall::SetVersion { id, version } => if m.contains_key(id) {
            m.insert(id, (m[id].0, m[id].1, version))
        } else {
            m
        },
        SessionCall::Remove { id } => m.remove(id),
    }
}

/// The sessions after the calls, first to last.
pub open spec fn after_session_calls(m: Map<Seq<char>, SessionView>, cs: Seq<SessionCall>) -> Map<
    Seq<char>,
    SessionView,
>
    decreases cs.len(),
{
    if cs.len() == 0 {
        m
    } else {
        after_session_call(after_session_calls(m, cs.drop_last()), cs.last())
    }
}

/// The call at `i` opened the session `sid` that is open now: it created `sid`, and
/// every later call about `sid` only recorded a version.
pub open spec fn opened_at(cs: Seq<SessionCall>, sid: Seq<char>, i: int) -> bool {
    &&& 0 <= i < cs.len()
    &&& cs[i] is Create
    &&& call_id(cs[i]) == sid
    &&& forall|j: int| i < j < cs.len() && call_id(#[trigger] cs[j]) == sid ==> cs[j] is SetVersion
}

/// The call at `k` is the last that recorded a version in the session `sid`.
pub open spec fn version_set_at(cs: Seq<SessionCall>, sid: Seq<char>, k: int) -> bool {
    &&& 0 <= k < cs.len()
    &&& cs[k] is SetVersion
    &&& call_id(cs[k]) == sid
    &&& forall|j: int| k < j < cs.len() && call_id(#[trigger] cs[j]) == sid ==> !(cs[j] is SetVersion)
}

/// What a run of calls leaves of a session, starting with none: the session `sid` is
/// open exactly when a call created it and no call closed it (or created it anew)
/// since; it keeps the project and scope it was created with; and its version is the
/// last one recorded since, or `2024-11-05` when none was.
pub proof fn lemma_session_history(cs: Seq<SessionCall>, sid: Seq<char>)
    ensures
        after_session_calls(Map::empty(), cs).contains_key(sid) == exists|i: int|
            opened_at(cs, sid, i),
        forall|i: int|
            #[trigger] opened_at(cs, sid, i) ==> after_session_calls(Map::empty(), cs)[sid].0
                == cs[i]->project_id && after_session_calls(Map::empty(), cs)[sid].1
                == cs[i]->scope,
        forall|i: int, k: int|
            #[trigger] opened_at(cs, sid, i) && i < k && #[trigger] version_set_at(cs, sid, k)
                ==> after_session_calls(Map::empty(), cs)[sid].2 == cs[k]->version,
        forall|i: int|
            #[trigger] opened_at(cs, sid, i) && (forall|k: int|
                i < k < cs.len() && call_id(#[trigger] cs[k]) == sid ==> !(cs[k] is SetVersion))
                ==> after_session_calls(Map::empty(), cs)[sid].2 == "2024-11-05"@,
    decreases cs.len(),
{
    if cs.len() > 0 {
        let init = cs.drop_last();
        let c = cs.last();
        let n = cs.len() - 1;
        lemma_session_history(init, sid);
        let m0 = after_session_calls(Map::empty(), init);
        let m = after_session_calls(Map::empty(), cs);
        assert(m == after_session_call(m0, c));
        assert(cs[n] == c);
        assert forall|j: int| 0 <= j < n implies #[trigger] init[j] == cs[j] by {}
        if call_id(c) != sid {
            assert(m.contains_key(sid) == m0.contains_key(sid));
            assert(m.contains_key(sid) ==> m[sid] == m0[sid]);
            assert forall|i: int| #[trigger] opened_at(cs, sid, i) implies opened_at(init, sid, i) by {
                assert(i < n);
                assert forall|j: int| i < j < init.len() && call_id(#[trigger] init[j]) == sid implies init[j] is SetVersion by {
                    assert(init[j] == cs[j]);
                }
            }
            assert forall|i: int| #[trigger] opened_at(init, sid, i) implies opened_at(cs, sid, i) by {
                assert forall|j: int| i < j < cs.len() && call_id(#[trigger] cs[j]) == sid implies cs[j] is SetVersion by {
                    assert(init[j] == cs[j]);
                }
            }
            assert forall|k: int| #[trigger] version_set_at(cs, sid, k) implies version_set_at(init, sid, k) by {
                assert forall|j: int| k < j < init.len() && call_id(#[trigger] init[j]) == sid implies !(init[j] is SetVersion) by {
                    assert(init[j] == cs[j]);
                }
            }
            assert forall|i: int| #[trigger] opened_at(cs, sid, i) && (forall|k: int|
                i < k < cs.len() && call_id(#[trigger] cs[k]) == sid ==> !(cs[k] is SetVersion)) implies m[sid].2 == "2024-11-05"@ by {
                assert(opened_at(init, sid, i));
                assert forall|k: int| i < k < init.len() && call_id(#[trigger] init[k]) == sid implies !(init[k] is SetVersion) by {
                    assert(init[k] == cs[k]);
                }
            }
        } else {
            match c {
                SessionCall::Create { .. } => {
                    assert(opened_at(cs, sid, n));
                    assert forall|i: int| #[trigger] opened_at(cs, sid, i) implies i == n by {
                        if i < n {
                            assert(call_id(cs[n]) == sid);
                        }
                    }
                },
                SessionCall::Remove { .. } => {
                    assert forall|i: int| !#[trigger] opened_at(cs, sid, i) by {
                        if 0 <= i < n && cs[i] is Create && call_id(cs[i]) == sid {
                            assert(call_id(cs[n]) == sid);
                        }
                    }
                },
                SessionCall::SetVersion { .. } => {
                    assert forall|i: int| #[trigger] opened_at(cs, sid, i) implies opened_at(init, sid, i) by {
                        assert forall|j: int| i < j < init.len() && call_id(#[trigger] init[j]) == sid implies init[j] is SetVersion by {
                            assert(init[j] == cs[j]);
                        }
                    }
                    assert forall|i: int| #[trigger] opened_at(init, sid, i) implies opened_at(cs, sid, i) by {
                        assert forall|j: int| i < j < cs.len() && call_id(#[trigger] cs[j]) == sid implies cs[j] is SetVersion by {
                            if j < n {
                                assert(init[j] == cs[j]);
                            }
                        }
                    }
                    assert forall|k: int| #[trigger] version_set_at(cs, sid, k) implies k == n by {
                        if k < n {
                            assert(call_id(cs[n]) == sid);
                        }
                    }
                    assert forall|i: int| #[trigger] opened_at(cs, sid, i) implies !(forall|k: int|
                        i < k < cs.len() && call_id(#[trigger] cs[k]) == sid ==> !(cs[k] is SetVersion)) by {
                        assert(call_id(cs[n]) == sid);
                    }
                },
            }
        }
    }
}

/// The sessions of the server, by id.
pub struct SessionManager {
    sessions: DashMap<String, Session>,
}

impl View for SessionManager {
    type V = Map<Seq<char>, SessionView>;

    closed spec fn view(&self) -> Map<Seq<char>, SessionView> {
        session_table(self.sessions)
    }
}

impl SessionManager {
    /// No sessions.
    pub fn new() -> (r: SessionManager)
        ensures
            r@.is_empty(),
    {
        SessionManager { sessions: session_table_new() }
    }

    /// Opens a session on the graph of `project_id` and `scope`, under a random version-4
    /// UUID that it returns. A new session speaks protocol version `2024-11-05`.
    pub fn create_session(&mut self, project_id: String, scope: MemoryScope) -> (id: String)
        ensures
            is_uuid_v4_text(id@),
            final(self)@ == old(self)@.insert(id@, (project_id@, scope@, "2024-11-05"@)),
            final(self)@ == after_session_call(
                old(self)@,
                SessionCall::Create { id: id@, project_id: project_id@, scope: scope@ },
            ),
    {
        let id = new_session_id();
        let session = Session { project_id, scope, protocol_version: owned("2024-11-05") };
        session_table_insert(&mut self.sessions, id.clone(), session);
        id
    }

    /// The session with this id, if any.
    pub fn get_session(&self, session_id: &str) -> (r: Option<Session>)
        ensures
            match r {
                Some(s) => self@.contains_key(session_id@) && s@ == self@[session_id@],
                None => !self@.contains_key(session_id@),
            },
    {
        session_table_get(&self.sessions, session_id)
    }

    /// Closes the session with this id, if any.
    pub fn remove_session(&mut self, session_id: &str)
        ensures
            final(self)@ == old(self)@.remove(session_id@),
            final(self)@ == after_session_call(old(self)@, SessionCall::Remove { id: session_id@ }),
    {
        session_table_remove(&mut self.sessions, session_id);
    }

    /// Records the protocol version agreed on in the session with this id; tells whether
    /// the session exists.
    pub fn set_protocol_version(&mut self, session_id: &str, version: String) -> (found: bool)
        ensures
            found == old(self)@.contains_key(session_id@),
            found ==> final(self)@ == old(self)@.insert(
                session_id@,
                (old(self)@[session_id@].0, old(self)@[session_id@].1, version@),
            ),
            !found ==> final(self)@ == old(self)@,
            final(self)@ == after_session_call(
                old(self)@,
                SessionCall::SetVersion { id: session_id@, version: version@ },
            ),
    {
        match session_table_get(&self.sessions, session_id) {
            Some(s) => {
                let updated = Session {
                    project_id: s.project_id,
                    scope: s.scope,
                    protocol_version: version,
                };
                session_table_insert(&mut self.sessions, owned(session_id), updated);
                true
            },
            None => false,
        }
    }
}

} // verus!
