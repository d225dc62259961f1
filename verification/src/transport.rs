use crate::dispatcher::opt_view;
use crate::models::{strings_view, MemoryScope};
use crate::session::SessionManager;
use crate::text::{chars_of, concat, owned, same_str};
use vstd::prelude::*;
use vstd::string::StrSliceExecFns;

verus! {

/// Where a request goes: the graph of a project and scope, and the session it came
/// through, if any.
pub struct Target {
    pub project_id: String,
    pub scope: MemoryScope,
    pub session_id: Option<String>,
}

/// Resolves a request of the streamable transport: a known session named by the
/// session header decides the graph; otherwise the path does, with no session.
pub fn resolve_streamable_target(
    sessions: &SessionManager,
    session_header: Option<&str>,
    project_id: String,
    scope: MemoryScope,
) -> (r: Target)
    ensures
        ({
            match session_header {
                Some(sid) => sessions@.contains_key(sid@),
                None => false,
            }
        }) ==> ({
            let sid = session_header->0@;
            &&& r.project_id@ == sessions@[sid].0
            &&& r.scope@ == sessions@[sid].1
            &&& opt_view(r.session_id) == Some(sid)
        }),
        !({
            match session_header {
                Some(sid) => sessions@.contains_key(sid@),
                None => false,
            }
        }) ==> (r.project_id@ == project_id@ && r.scope@ == scope@ && r.session_id is None),
{
    match session_header {
        Some(sid) => match sessions.get_session(sid) {
            Some(s) => Target {
                project_id: s.project_id,
                scope: s.scope,
                session_id: Some(owned(sid)),
            },
            None => Target { project_id, scope, session_id: None },
        },
        None => Target { project_id, scope, session_id: None },
    }
}

/// Resolves a request of the legacy transport: the session named in the query decides
/// the graph; an unknown session gets the shared graph of project `default`.
pub fn resolve_legacy_target(sessions: &SessionManager, session_id: &str) -> (r: Target)
    ensures
        sessions@.contains_key(session_id@) ==> r.project_id@ == sessions@[session_id@].0
            && r.scope@ == sessions@[session_id@].1 && opt_view(r.session_id) == Some(
            session_id@,
        ),
        !sessions@.contains_key(session_id@) ==> r.project_id@ == "default"@ && r.scope is Shared
            && r.session_id is None,
{
    match sessions.get_session(session_id) {
        Some(s) => Target {
            project_id: s.project_id,
            scope: s.scope,
            session_id: Some(owned(session_id)),
        },
        None => Target { project_id: owned("default"), scope: MemoryScope::Shared, session_id: None },
    }
}

/// The protocol version to announce in a response: that of the request's session, or
/// `2025-11-25` when there is none.
pub fn response_version(sessions: &SessionManager, session_id: &Option<String>) -> (r: String)
    ensures
        ({
            match session_id {
                Some(sid) => sessions@.contains_key(sid@),
                None => false,
            }
        }) ==> r@ == sessions@[session_id->0@].2,
        !({
            match session_id {
                Some(sid) => sessions@.contains_key(sid@),
                None => false,
            }
        }) ==> r@ == "2025-11-25"@,
{
    match session_id {
        Some(sid) => match sessions.get_session(sid.as_str()) {
            Some(s) => s.protocol_version,
            None => owned("2025-11-25"),
        },
        None => owned("2025-11-25"),
    }
}

/// Whether a request is let in: with no key configured every request is; with a key,
/// only one whose authorization header is exactly `Bearer ` followed by the key.
pub open spec fn authorized(api_key: Option<Seq<char>>, header: Option<Seq<char>>) -> bool {
    match api_key {
        None => true,
        Some(k) => header == Some("Bearer "@ + k),
    }
}

/// Whether a request with this authorization header is let in (see `authorized`).
pub fn is_authorized(api_key: &Option<String>, header: Option<&str>) -> (r: bool)
    ensures
        r == authorized(opt_view(*api_key), match header {
            Some(h) => Some(h@),
            None => None,
        }),
{
    match api_key {
        None => true,
        Some(k) => match header {
            Some(h) => {
                let expected = concat("Bearer ", k.as_str());
                same_str(h, expected.as_str())
            },
            None => false,
        },
    }
}

/// Each part followed by a comma, concatenated.
pub open spec fn with_commas(parts: Seq<Seq<char>>) -> Seq<char>
    decreases parts.len(),
{
    if parts.len() == 0 {
        Seq::empty()
    } else {
        with_commas(parts.drop_last()) + parts.last() + seq![',']
    }
}

/// The parts joined by commas.
pub open spec fn joined_by_commas(parts: Seq<Seq<char>>) -> Seq<char> {
    if parts.len() == 0 {
        Seq::empty()
    } else {
        with_commas(parts.drop_last()) + parts.last()
    }
}

/// Splits a comma-separated list of allowed origins: the parts hold no comma and,
/// joined by commas, give back the text.
pub fn split_origins(list: &str) -> (r: Vec<String>)
    ensures
        r@.len() >= 1,
        joined_by_commas(strings_view(r@)) == list@,
        forall|i: int| 0 <= i < r@.len() ==> !(#[trigger] r@[i]@).contains(','),
{
    let chars = chars_of(list);
    let n = chars.len();
    let mut parts: Vec<String> = Vec::new();
    let mut start: usize = 0;
    for i in 0..n
        invariant
            chars@ == list@,
            n == chars@.len(),
            start <= i,
            with_commas(strings_view(parts@)) == list@.subrange(0, start as int),
            !list@.subrange(start as int, i as int).contains(','),
            forall|k: int| 0 <= k < parts@.len() ==> !(#[trigger] parts@[k]@).contains(','),
    {
        if chars[i] == ',' {
            let part = owned(list.substring_char(start, i));
            proof {
                let pv = strings_view(parts@);
                assert(strings_view(parts@.push(part)) =~= pv.push(part@));
                assert(pv.push(part@).drop_last() =~= pv);
                assert(list@.subrange(0, i + 1) =~= list@.subrange(0, start as int) + part@ + seq![',']);
                assert(list@.subrange(i + 1, i + 1) =~= Seq::<char>::empty());
            }
            parts.push(part);
            start = i + 1;
        } else {
            proof {
                assert(list@.subrange(start as int, i + 1) =~= list@.subrange(start as int, i as int).push(chars@[i as int]));
                let seg = list@.subrange(start as int, i + 1);
                if seg.contains(',') {
                    let k = choose|k: int| 0 <= k < seg.len() && #[trigger] seg[k] == ',';
                    if k < i - start {
                        assert(list@.subrange(start as int, i as int)[k] == ',');
                    }
                }
            }
        }
    }
    let last = owned(list.substring_char(start, n));
    proof {
        let pv = strings_view(parts@);
        assert(strings_view(parts@.push(last)) =~= pv.push(last@));
        assert(pv.push(last@).drop_last() =~= pv);
        assert(list@ =~= list@.subrange(0, start as int) + last@);
    }
    parts.push(last);
    parts
}

/// Whether `origin` is among the allowed ones.
pub fn origin_allowed(allowed: &Vec<String>, origin: &str) -> (r: bool)
    ensures
        r == strings_view(allowed@).contains(origin@),
{
    for i in 0..allowed.len()
        invariant
            forall|k: int| 0 <= k < i ==> allowed@[k]@ != origin@,
    {
        if same_str(allowed[i].as_str(), origin) {
            proof {
                assert(strings_view(allowed@)[i as int] == origin@);
            }
            return true;
        }
    }
    proof {
        if strings_view(allowed@).contains(origin@) {
            let k = choose|k: int| 0 <= k < strings_view(allowed@).len() && strings_view(allowed@)[k] == origin@;
            assert(allowed@[k]@ == origin@);
        }
    }
    false
}

/// The URI to which a client of the legacy transport posts its messages, announced
/// in the `endpoint` event: the request's host (`localhost:3000` when it names none),
/// the message path, and the session id.
pub fn endpoint_uri(host: Option<&str>, session_id: &str) -> (r: String)
    ensures
        r@ == "http://"@ + (match host {
            Some(h) => h@,
            None => "localhost:3000"@,
        }) + "/message?session_id="@ + session_id@,
{
    let mut r = match host {
        Some(h) => concat("http://", h),
        None => owned("http://localhost:3000"),
    };
    proof {
        reveal_strlit("http://");
        reveal_strlit("localhost:3000");
        reveal_strlit("http://localhost:3000");
        assert("http://localhost:3000"@ =~= "http://"@ + "localhost:3000"@);
    }
    r.append("/message?session_id=");
    r.append(session_id);
    r
}

} // verus!
