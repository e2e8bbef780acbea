//! The media sessions that INVITEs open and BYEs close, by Call-ID.
use vstd::prelude::*;
use dashmap::DashMap;

verus! {

/// The outside map type, declared so that it can be held.
#[verifier::external_type_specification]
#[verifier::external_body]
#[verifier::reject_recursive_types(K)]
#[verifier::reject_recursive_types(V)]
#[verifier::reject_recursive_types(S)]
pub struct ExDashMap<K, V, S>(DashMap<K, V, S>);

/// What was started for a call: the RTP sender on the media server.
#[derive(Debug, Clone)]
pub struct SessionInfo {
    pub ssrc: u32,
    pub stream_name: String,
    pub zlm_api_base: String,
    pub zlm_secret: String,
    pub app: String,
}

/// A session's fields as values of specifications.
pub struct SessionView {
    pub ssrc: u32,
    pub stream_name: Seq<char>,
    pub zlm_api_base: Seq<char>,
    pub zlm_secret: Seq<char>,
    pub app: Seq<char>,
}

impl View for SessionInfo {
    type V = SessionView;

    open spec fn view(&self) -> SessionView {
        SessionView {
            ssrc: self.ssrc,
            stream_name: self.stream_name@,
            zlm_api_base: self.zlm_api_base@,
            zlm_secret: self.zlm_secret@,
            app: self.app@,
        }
    }
}

/// The map that holds the sessions.
pub type SessionMap = DashMap<String, SessionInfo>;

/// The sessions a map holds, by Call-ID.
pub uninterp spec fn session_entries(m: SessionMap) -> Map<Seq<char>, SessionView>;

/// `DashMap::new`: an empty map.
#[verifier::external_body]
fn session_map_new() -> (r: SessionMap)
    ensures
        session_entries(r).dom() == Set::<Seq<char>>::empty(),
{
    DashMap::new()
}

/// `DashMap::insert`: the key now maps to the value, others are unchanged.
#[verifier::external_body]
fn session_map_insert(m: &mut SessionMap, key: String, value: SessionInfo)
    ensures
        session_entries(*final(m)) == session_entries(*old(m)).insert(key@, value@),
{
    m.insert(key, value);
}

/// `DashMap::get`, cloning the value found.
#[verifier::external_body]
fn session_map_get(m: &SessionMap, key: &str) -> (r: Option<SessionInfo>)
    ensures
        match r {
            Some(v) => session_entries(*m).contains_key(key@) && v@ == session_entries(*m)[key@],
            None => !session_entries(*m).contains_key(key@),
        },
{
    m.get(key).map(|v| v.clone())
}

/// `DashMap::remove`: the key no longer maps, others are unchanged.
#[verifier::external_body]
fn session_map_remove(m: &mut SessionMap, key: &str)
    ensures
        session_entries(*final(m)) == session_entries(*old(m)).remove(key@),
{
    m.remove(key);
}

/// The sessions of all devices, by Call-ID.
pub struct SessionStore {
    map: SessionMap,
}

impl View for SessionStore {
    type V = Map<Seq<char>, SessionView>;

    closed spec fn view(&self) -> Map<Seq<char>, SessionView> {
        session_entries(self.map)
    }
}

impl SessionStore {
    /// A store with no sessions.
    pub fn new() -> (r: SessionStore)
        ensures
            r@ == Map::<Seq<char>, SessionView>::empty(),
    {
        let map = session_map_new();
        assert(session_entries(map) =~= Map::<Seq<char>, SessionView>::empty());
        SessionStore { map }
    }
}

/// Records the session of a call, replacing any earlier one of the same Call-ID.
pub fn add_session(store: &mut SessionStore, call_id: &str, info: SessionInfo)
    ensures
        final(store)@ == old(store)@.insert(call_id@, info@),
{
    session_map_insert(&mut store.map, call_id.to_owned(), info);
}

/// The session of a call, if one is recorded.
pub fn get_session(store: &SessionStore, call_id: &str) -> (r: Option<SessionInfo>)
    ensures
        match r {
            Some(v) => store@.contains_key(call_id@) && v@ == store@[call_id@],
            None => !store@.contains_key(call_id@),
        },
{
    session_map_get(&store.map, call_id)
}

/// Forgets the session of a call.
pub fn remove_session(store: &mut SessionStore, call_id: &str)
    ensures
        final(store)@ == old(store)@.remove(call_id@),
{
    session_map_remove(&mut store.map, call_id);
}


/// Read after write: once a call's session is recorded, a lookup of that
/// Call-ID finds exactly it, and lookups of other Call-IDs are unaffected.
pub proof fn law_session_read_after_write(
    s: Map<Seq<char>, SessionView>,
    call_id: Seq<char>,
    info: SessionView,
    other: Seq<char>,
)
    requires
        other != call_id,
    ensures
        s.insert(call_id, info).contains_key(call_id),
        s.insert(call_id, info)[call_id] == info,
        s.insert(call_id, info).contains_key(other) == s.contains_key(other),
        s.contains_key(other) ==> s.insert(call_id, info)[other] == s[other],
{
}

/// Once a call's session is forgotten no lookup finds it, and the sessions
/// of other calls stay.
pub proof fn law_session_removed(s: Map<Seq<char>, SessionView>, call_id: Seq<char>, other: Seq<char>)
    requires
        other != call_id,
    ensures
        !s.remove(call_id).contains_key(call_id),
        s.remove(call_id).contains_key(other) == s.contains_key(other),
        s.contains_key(other) ==> s.remove(call_id)[other] == s[other],
{
}

/// A change to the session store: recording a session, or forgetting one.
pub enum SessionOp {
    /// `add_session` with this Call-ID and session.
    Add(Seq<char>, SessionView),
    /// `remove_session` with this Call-ID.
    Remove(Seq<char>),
}

/// The Call-ID a change concerns.
pub open spec fn op_key(o: SessionOp) -> Seq<char> {
    match o {
        SessionOp::Add(k, _) => k,
        SessionOp::Remove(k) => k,
    }
}

/// The sessions after the changes, in order, as `add_session` and
/// `remove_session` make them.
pub open spec fn apply_session_ops(m: Map<Seq<char>, SessionView>, ops: Seq<SessionOp>) -> Map<
    Seq<char>,
    SessionView,
>
    decreases ops.len(),
{
    if ops.len() == 0 {
        m
    } else {
        let next = match ops[0] {
            SessionOp::Add(k, v) => m.insert(k, v),
            SessionOp::Remove(k) => m.remove(k),
        };
        apply_session_ops(next, ops.drop_first())
    }
}

/// Read after write across other calls: a session recorded for a Call-ID
/// stays, unchanged, through changes that concern other Call-IDs, and those
/// changes leave every other Call-ID as they would have without it.
pub proof fn law_session_kept_through_other_changes(
    s: Map<Seq<char>, SessionView>,
    call_id: Seq<char>,
    info: SessionView,
    ops: Seq<SessionOp>,
)
    requires
        forall|i: int| 0 <= i < ops.len() ==> op_key(#[trigger] ops[i]) != call_id,
    ensures
        apply_session_ops(s.insert(call_id, info), ops) == apply_session_ops(s, ops).insert(
            call_id,
            info,
        ),
        apply_session_ops(s.insert(call_id, info), ops).contains_key(call_id),
        apply_session_ops(s.insert(call_id, info), ops)[call_id] == info,
    decreases ops.len(),
{
    if ops.len() > 0 {
        let t = ops.drop_first();
        assert forall|i: int| 0 <= i < t.len() implies op_key(#[trigger] t[i]) != call_id by {
            assert(t[i] == ops[i + 1]);
        }
        assert(op_key(ops[0]) != call_id);
        match ops[0] {
            SessionOp::Add(k, v) => {
                assert(s.insert(call_id, info).insert(k, v) =~= s.insert(k, v).insert(call_id, info));
                law_session_kept_through_other_changes(s.insert(k, v), call_id, info, t);
            },
            SessionOp::Remove(k) => {
                assert(s.insert(call_id, info).remove(k) =~= s.remove(k).insert(call_id, info));
                law_session_kept_through_other_changes(s.remove(k), call_id, info, t);
            },
        }
    }
}

} // verus!
