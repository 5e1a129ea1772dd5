//! The brain's table of live edge-node sessions and the state of each.
//! Every change that others must hear of is returned as an event for the
//! caller to broadcast.
use vstd::prelude::*;
use crate::types::{NodeState, NodeStateEvent};

verus! {

/// One live session of an edge node.
#[derive(Debug)]
pub struct Session {
    pub node_id: String,
    pub state: NodeState,
}

impl Session {
    /// A copy of this session.
    pub fn duplicate(&self) -> (s: Session)
        ensures
            s.node_id@ == self.node_id@,
            s.state == self.state,
    {
        Session { node_id: self.node_id.clone(), state: self.state }
    }
}

/// The state recorded for `id` in `s`, by the first session with that id.
pub open spec fn lookup(s: Seq<Session>, id: Seq<char>) -> Option<NodeState>
    decreases s.len(),
{
    if s.len() == 0 {
        None
    } else if s[0].node_id@ == id {
        Some(s[0].state)
    } else {
        lookup(s.drop_first(), id)
    }
}

/// No two sessions share a node id.
pub open spec fn distinct_ids(s: Seq<Session>) -> bool {
    forall|i: int, j: int| 0 <= i < j < s.len() ==> s[i].node_id@ != s[j].node_id@
}

/// The live sessions, at most one per node.
pub struct SessionTable {
    sessions: Vec<Session>,
}

impl View for SessionTable {
    type V = Map<Seq<char>, NodeState>;

    /// Node id → state of each live session.
    closed spec fn view(&self) -> Map<Seq<char>, NodeState> {
        Map::new(|id: Seq<char>| lookup(self.sessions@, id) is Some, |id: Seq<char>| lookup(self.sessions@, id)->0)
    }
}

proof fn lemma_lookup_at(s: Seq<Session>, id: Seq<char>, i: int)
    requires
        distinct_ids(s),
        0 <= i < s.len(),
        s[i].node_id@ == id,
    ensures
        lookup(s, id) == Some(s[i].state),
    decreases s.len(),
{
    if i > 0 {
        assert(s[0].node_id@ != id);
        assert(distinct_ids(s.drop_first())) by {
            assert forall|a: int, b: int| 0 <= a < b < s.drop_first().len() implies s.drop_first()[a].node_id@
                != s.drop_first()[b].node_id@ by {
                assert(s.drop_first()[a] == s[a + 1]);
                assert(s.drop_first()[b] == s[b + 1]);
            }
        }
        lemma_lookup_at(s.drop_first(), id, i - 1);
    }
}

proof fn lemma_lookup_absent(s: Seq<Session>, id: Seq<char>)
    requires
        forall|i: int| 0 <= i < s.len() ==> (#[trigger] s[i]).node_id@ != id,
    ensures
        lookup(s, id) is None,
    decreases s.len(),
{
    if s.len() > 0 {
        assert forall|i: int| 0 <= i < s.drop_first().len() implies (
        #[trigger] s.drop_first()[i]).node_id@ != id by {
            assert(s.drop_first()[i] == s[i + 1]);
        }
        lemma_lookup_absent(s.drop_first(), id);
    }
}

/// With distinct ids, the view reads each session.
proof fn lemma_lookup_all(s: Seq<Session>, id: Seq<char>)
    requires
        distinct_ids(s),
    ensures
        lookup(s, id) is Some <==> exists|i: int| 0 <= i < s.len() && (#[trigger] s[i]).node_id@ == id,
        forall|i: int| 0 <= i < s.len() && (#[trigger] s[i]).node_id@ == id ==> lookup(s, id) == Some(
            s[i].state,
        ),
{
    assert forall|i: int| 0 <= i < s.len() && (#[trigger] s[i]).node_id@ == id implies lookup(s, id)
        == Some(s[i].state) by {
        lemma_lookup_at(s, id, i);
    }
    if !(exists|i: int| 0 <= i < s.len() && (#[trigger] s[i]).node_id@ == id) {
        lemma_lookup_absent(s, id);
    }
}

impl SessionTable {
    #[verifier::type_invariant]
    closed spec fn wf(&self) -> bool {
        distinct_ids(self.sessions@)
    }

    /// An empty table.
    pub fn new() -> (t: SessionTable)
        ensures
            t@ == Map::<Seq<char>, NodeState>::empty(),
    {
        let t = SessionTable { sessions: Vec::new() };
        assert(t@ =~= Map::<Seq<char>, NodeState>::empty());
        t
    }

    fn position(&self, node_id: &str) -> (r: Option<usize>)
        ensures
            r matches Some(i) ==> i < self.sessions@.len() && self.sessions@[i as int].node_id@
                == node_id@,
            r is None ==> forall|i: int|
                0 <= i < self.sessions@.len() ==> (#[trigger] self.sessions@[i]).node_id@ != node_id@,
    {
        let key = String::from_str(node_id);
        let mut i: usize = 0;
        while i < self.sessions.len()
            invariant
                0 <= i <= self.sessions@.len(),
                key@ == node_id@,
                forall|k: int| 0 <= k < i ==> (#[trigger] self.sessions@[k]).node_id@ != node_id@,
            decreases self.sessions@.len() - i,
        {
            if self.sessions[i].node_id == key {
                return Some(i);
            }
            i = i + 1;
        }
        None
    }

    /// Open (or re-open) the session of `node_id` in the `Idle` state and
    /// return the event to broadcast.
    pub fn register(&mut self, node_id: String) -> (ev: NodeStateEvent)
        ensures
            final(self)@ == old(self)@.insert(node_id@, NodeState::Idle),
            ev.node_id@ == node_id@,
            ev.state == NodeState::Idle,
    {
        proof {
            use_type_invariant(&*self);
        }
        let ghost old_s = self.sessions@;
        let ev = NodeStateEvent { node_id: node_id.clone(), state: NodeState::Idle };
        match self.position(node_id.as_str()) {
            Some(i) => {
                let mut v: Vec<Session> = Vec::new();
                std::mem::swap(&mut v, &mut self.sessions);
                v.set(i, Session { node_id, state: NodeState::Idle });
                let ghost new_s = v@;
                assert(distinct_ids(new_s)) by {
                    assert forall|a: int, b: int| 0 <= a < b < new_s.len() implies new_s[a].node_id@
                        != new_s[b].node_id@ by {
                        assert(new_s[a].node_id@ == old_s[a].node_id@);
                        assert(new_s[b].node_id@ == old_s[b].node_id@);
                    }
                }
                self.sessions = v;
                proof {
                    assert forall|id: Seq<char>| #[trigger] lookup(new_s, id) == if id == ev.node_id@ {
                        Some(NodeState::Idle)
                    } else {
                        lookup(old_s, id)
                    } by {
                        lemma_lookup_all(new_s, id);
                        lemma_lookup_all(old_s, id);
                        if id != ev.node_id@ {
                            if exists|k: int| 0 <= k < old_s.len() && (#[trigger] old_s[k]).node_id@ == id {
                                let k = choose|k: int| 0 <= k < old_s.len() && (#[trigger] old_s[k]).node_id@ == id;
                                assert(new_s[k] == old_s[k]);
                            }
                            if exists|k: int| 0 <= k < new_s.len() && (#[trigger] new_s[k]).node_id@ == id {
                                let k = choose|k: int| 0 <= k < new_s.len() && (#[trigger] new_s[k]).node_id@ == id;
                                assert(new_s[k] == old_s[k]);
                            }
                        } else {
                            assert(new_s[i as int].node_id@ == id);
                        }
                    }
                    assert(self@ =~= old(self)@.insert(node_id@, NodeState::Idle));
                }
            },
            None => {
                let ghost id0 = node_id@;
                let mut v: Vec<Session> = Vec::new();
                std::mem::swap(&mut v, &mut self.sessions);
                v.push(Session { node_id, state: NodeState::Idle });
                let ghost new_s = v@;
                assert(distinct_ids(new_s)) by {
                    assert forall|a: int, b: int| 0 <= a < b < new_s.len() implies new_s[a].node_id@
                        != new_s[b].node_id@ by {
                        if b < old_s.len() {
                            assert(new_s[a] == old_s[a] && new_s[b] == old_s[b]);
                        } else {
                            assert(new_s[a] == old_s[a]);
                        }
                    }
                }
                self.sessions = v;
                proof {
                    assert forall|id: Seq<char>| #[trigger] lookup(new_s, id) == if id == id0 {
                        Some(NodeState::Idle)
                    } else {
                        lookup(old_s, id)
                    } by {
                        lemma_lookup_all(new_s, id);
                        lemma_lookup_all(old_s, id);
                        if id != id0 {
                            if exists|k: int| 0 <= k < new_s.len() && (#[trigger] new_s[k]).node_id@ == id {
                                let k = choose|k: int| 0 <= k < new_s.len() && (#[trigger] new_s[k]).node_id@ == id;
                                assert(k < old_s.len());
                                assert(new_s[k] == old_s[k]);
                            }
                            if exists|k: int| 0 <= k < old_s.len() && (#[trigger] old_s[k]).node_id@ == id {
                                let k = choose|k: int| 0 <= k < old_s.len() && (#[trigger] old_s[k]).node_id@ == id;
                                assert(new_s[k] == old_s[k]);
                            }
                        } else {
                            assert(new_s[old_s.len() as int].node_id@ == id);
                        }
                    }
                    assert(self@ =~= old(self)@.insert(id0, NodeState::Idle));
                }
            },
        }
        ev
    }

    /// Close the session of `node_id`, if open; tell whether it was.
    pub fn unregister(&mut self, node_id: &str) -> (removed: bool)
        ensures
            final(self)@ == old(self)@.remove(node_id@),
            removed == old(self)@.contains_key(node_id@),
    {
        proof {
            use_type_invariant(&*self);
        }
        let ghost old_s = self.sessions@;
        proof {
            lemma_lookup_all(old_s, node_id@);
        }
        match self.position(node_id) {
            Some(i) => {
                let mut v: Vec<Session> = Vec::new();
                std::mem::swap(&mut v, &mut self.sessions);
                let _gone = v.remove(i);
                let ghost new_s = v@;
                assert(new_s =~= old_s.take(i as int) + old_s.skip(i + 1));
                assert(distinct_ids(new_s)) by {
                    assert forall|a: int, b: int| 0 <= a < b < new_s.len() implies new_s[a].node_id@
                        != new_s[b].node_id@ by {
                        let a2 = if a < i {
                            a
                        } else {
                            a + 1
                        };
                        let b2 = if b < i {
                            b
                        } else {
                            b + 1
                        };
                        assert(new_s[a] == old_s[a2]);
                        assert(new_s[b] == old_s[b2]);
                    }
                }
                self.sessions = v;
                proof {
                    assert forall|id: Seq<char>| #[trigger] lookup(new_s, id) == if id == node_id@ {
                        None
                    } else {
                        lookup(old_s, id)
                    } by {
                        lemma_lookup_all(new_s, id);
                        lemma_lookup_all(old_s, id);
                        if exists|k: int| 0 <= k < new_s.len() && (#[trigger] new_s[k]).node_id@ == id {
                            let k = choose|k: int| 0 <= k < new_s.len() && (#[trigger] new_s[k]).node_id@ == id;
                            let k2 = if k < i {
                                k
                            } else {
                                k + 1
                            };
                            assert(new_s[k] == old_s[k2]);
                        }
                        if id != node_id@ {
                            if exists|k: int| 0 <= k < old_s.len() && (#[trigger] old_s[k]).node_id@ == id {
                                let k = choose|k: int| 0 <= k < old_s.len() && (#[trigger] old_s[k]).node_id@ == id;
                                assert(k != i);
                                let k2 = if k < i {
                                    k
                                } else {
                                    k - 1
                                };
                                assert(new_s[k2] == old_s[k]);
                            }
                        }
                    }
                    assert(self@ =~= old(self)@.remove(node_id@));
                }
                true
            },
            None => {
                assert(self@ =~= old(self)@.remove(node_id@));
                false
            },
        }
    }

    /// Record `state` for the session of `node_id`. When the session is open
    /// the change is made and its event returned; otherwise nothing changes.
    pub fn set_state(&mut self, node_id: &str, state: NodeState) -> (ev: Option<NodeStateEvent>)
        ensures
            old(self)@.contains_key(node_id@) ==> final(self)@ == old(self)@.insert(node_id@, state),
            !old(self)@.contains_key(node_id@) ==> final(self)@ == old(self)@,
            ev is Some == old(self)@.contains_key(node_id@),
            ev matches Some(e) ==> e.node_id@ == node_id@ && e.state == state,
    {
        proof {
            use_type_invariant(&*self);
        }
        let ghost old_s = self.sessions@;
        proof {
            lemma_lookup_all(old_s, node_id@);
        }
        match self.position(node_id) {
            Some(i) => {
                let mut v: Vec<Session> = Vec::new();
                std::mem::swap(&mut v, &mut self.sessions);
                let id_copy = v[i].node_id.clone();
                v.set(i, Session { node_id: id_copy, state });
                let ghost new_s = v@;
                assert(distinct_ids(new_s)) by {
                    assert forall|a: int, b: int| 0 <= a < b < new_s.len() implies new_s[a].node_id@
                        != new_s[b].node_id@ by {
                        assert(new_s[a].node_id@ == old_s[a].node_id@);
                        assert(new_s[b].node_id@ == old_s[b].node_id@);
                    }
                }
                self.sessions = v;
                proof {
                    assert forall|id: Seq<char>| #[trigger] lookup(new_s, id) == if id == node_id@ {
                        Some(state)
                    } else {
                        lookup(old_s, id)
                    } by {
                        lemma_lookup_all(new_s, id);
                        lemma_lookup_all(old_s, id);
                        if id != node_id@ {
                            if exists|k: int| 0 <= k < old_s.len() && (#[trigger] old_s[k]).node_id@ == id {
                                let k = choose|k: int| 0 <= k < old_s.len() && (#[trigger] old_s[k]).node_id@ == id;
                                assert(new_s[k] == old_s[k]);
                            }
                            if exists|k: int| 0 <= k < new_s.len() && (#[trigger] new_s[k]).node_id@ == id {
                                let k = choose|k: int| 0 <= k < new_s.len() && (#[trigger] new_s[k]).node_id@ == id;
                                assert(new_s[k] == old_s[k]);
                            }
                        } else {
                            assert(new_s[i as int].node_id@ == id);
                        }
                    }
                    assert(self@ =~= old(self)@.insert(node_id@, state));
                }
                Some(NodeStateEvent { node_id: String::from_str(node_id), state })
            },
            None => None,
        }
    }

    /// The state of the session of `node_id`, if open.
    pub fn state_of(&self, node_id: &str) -> (r: Option<NodeState>)
        ensures
            r == (if self@.contains_key(node_id@) {
                Some(self@[node_id@])
            } else {
                None
            }),
    {
        proof {
            use_type_invariant(self);
            lemma_lookup_all(self.sessions@, node_id@);
        }
        match self.position(node_id) {
            Some(i) => Some(self.sessions[i].state),
            None => None,
        }
    }

    /// A point-in-time copy of all open sessions.
    pub fn snapshot(&self) -> (v: Vec<Session>)
        ensures
            v@.len() == self@.len(),
            distinct_ids(v@),
            forall|i: int| 0 <= i < v@.len() ==> self@.contains_key((#[trigger] v@[i]).node_id@)
                && self@[v@[i].node_id@] == v@[i].state,
            forall|id: Seq<char>| #[trigger]
                self@.contains_key(id) ==> exists|i: int| 0 <= i < v@.len() && v@[i].node_id@ == id,
    {
        proof {
            use_type_invariant(self);
        }
        let ghost s = self.sessions@;
        let mut v: Vec<Session> = Vec::new();
        let mut i: usize = 0;
        while i < self.sessions.len()
            invariant
                0 <= i <= s.len(),
                s == self.sessions@,
                v@.len() == i,
                forall|k: int| 0 <= k < i ==> (#[trigger] v@[k]).node_id@ == s[k].node_id@ && v@[k].state
                    == s[k].state,
            decreases s.len() - i,
        {
            v.push(self.sessions[i].duplicate());
            i = i + 1;
        }
        proof {
            assert forall|id: Seq<char>| #[trigger] lookup(s, id) == lookup(v@, id) by {
                lemma_lookup_eq(s, v@, id);
            }
            assert(distinct_ids(v@)) by {
                assert forall|a: int, b: int| 0 <= a < b < v@.len() implies v@[a].node_id@
                    != v@[b].node_id@ by {
                    assert(v@[a].node_id@ == s[a].node_id@);
                    assert(v@[b].node_id@ == s[b].node_id@);
                }
            }
            assert forall|k: int| 0 <= k < v@.len() implies self@.contains_key(
            (#[trigger] v@[k]).node_id@) && self@[v@[k].node_id@] == v@[k].state by {
                lemma_lookup_at(s, s[k].node_id@, k);
            }
            assert forall|id: Seq<char>| #[trigger] self@.contains_key(id) implies exists|i: int|
                0 <= i < v@.len() && v@[i].node_id@ == id by {
                lemma_lookup_all(s, id);
                let k = choose|k: int| 0 <= k < s.len() && (#[trigger] s[k]).node_id@ == id;
                assert(v@[k].node_id@ == id);
            }
            lemma_view_len(s);
        }
        v
    }

    /// The number of open sessions.
    pub fn count(&self) -> (n: usize)
        ensures
            n == self@.len(),
    {
        proof {
            use_type_invariant(self);
            lemma_view_len(self.sessions@);
        }
        self.sessions.len()
    }
}

proof fn lemma_lookup_eq(a: Seq<Session>, b: Seq<Session>, id: Seq<char>)
    requires
        a.len() == b.len(),
        forall|k: int| 0 <= k < a.len() ==> (#[trigger] b[k]).node_id@ == a[k].node_id@ && b[k].state
            == a[k].state,
    ensures
        lookup(a, id) == lookup(b, id),
    decreases a.len(),
{
    if a.len() > 0 {
        assert(b[0].node_id@ == a[0].node_id@);
        assert forall|k: int| 0 <= k < a.drop_first().len() implies (
        #[trigger] b.drop_first()[k]).node_id@ == a.drop_first()[k].node_id@
            && b.drop_first()[k].state == a.drop_first()[k].state by {
            assert(b.drop_first()[k] == b[k + 1]);
            assert(a.drop_first()[k] == a[k + 1]);
        }
        lemma_lookup_eq(a.drop_first(), b.drop_first(), id);
    }
}

proof fn lemma_view_len(s: Seq<Session>)
    requires
        distinct_ids(s),
    ensures
        Map::new(|id: Seq<char>| lookup(s, id) is Some, |id: Seq<char>| lookup(s, id)->0).len()
            == s.len(),
        Map::new(|id: Seq<char>| lookup(s, id) is Some, |id: Seq<char>| lookup(s, id)->0).dom().finite(),
    decreases s.len(),
{
    let m = Map::new(|id: Seq<char>| lookup(s, id) is Some, |id: Seq<char>| lookup(s, id)->0);
    if s.len() == 0 {
        assert(m.dom() =~= Set::<Seq<char>>::empty());
    } else {
        let t = s.drop_first();
        assert(distinct_ids(t)) by {
            assert forall|a: int, b: int| 0 <= a < b < t.len() implies t[a].node_id@
                != t[b].node_id@ by {
                assert(t[a] == s[a + 1]);
                assert(t[b] == s[b + 1]);
            }
        }
        lemma_view_len(t);
        let mt = Map::new(|id: Seq<char>| lookup(t, id) is Some, |id: Seq<char>| lookup(t, id)->0);
        let k0 = s[0].node_id@;
        assert forall|id: Seq<char>| lookup(t, id) is Some implies id != k0 by {
            lemma_lookup_all(t, id);
            let k = choose|k: int| 0 <= k < t.len() && (#[trigger] t[k]).node_id@ == id;
            assert(t[k] == s[k + 1]);
        }
        assert(m.dom() =~= mt.dom().insert(k0));
        assert(!mt.dom().contains(k0));
    }
}

/// Which online nodes a model push goes to: all of them when no ids are
/// asked for, else those asked for.
pub open spec fn push_target(requested: Seq<Seq<char>>, id: Seq<char>) -> bool {
    requested.len() == 0 || requested.contains(id)
}

/// The online node ids that a wake-word model push reaches.
pub fn push_targets(online: &[String], requested: &[String]) -> (r: Vec<String>)
    ensures
        crate::trie::views(r@) == crate::trie::views(online@).filter(
            |id: Seq<char>| push_target(crate::trie::views(requested@), id),
        ),
{
    let ghost req = crate::trie::views(requested@);
    let ghost on = crate::trie::views(online@);
    let mut r: Vec<String> = Vec::new();
    let mut i: usize = 0;
    while i < online.len()
        invariant
            0 <= i <= online@.len(),
            req == crate::trie::views(requested@),
            on == crate::trie::views(online@),
            crate::trie::views(r@) == on.take(i as int).filter(|id: Seq<char>| push_target(req, id)),
        decreases online@.len() - i,
    {
        let id = &online[i];
        let mut wanted = requested.len() == 0;
        let mut j: usize = 0;
        while !wanted && j < requested.len()
            invariant
                0 <= j <= requested@.len(),
                req == crate::trie::views(requested@),
                wanted ==> push_target(req, id@),
                !wanted ==> requested@.len() > 0 && forall|k: int| 0 <= k < j ==> req[k] != id@,
            decreases requested@.len() - j,
        {
            if requested[j] == *id {
                assert(req[j as int] == id@);
                wanted = true;
            }
            j = j + 1;
        }
        assert(on.take(i + 1).drop_last() =~= on.take(i as int));
        assert(on[i as int] == id@);
        reveal_with_fuel(Seq::<_>::filter, 1);
        if wanted {
            let ghost before = crate::trie::views(r@);
            r.push(id.clone());
            assert(crate::trie::views(r@) =~= before.push(id@));
        } else {
            assert(!req.contains(id@));
        }
        i = i + 1;
    }
    assert(on.take(online@.len() as int) =~= on);
    r
}

/// Sessions are independent: registering a node, changing its state or
/// closing its session (the table's `insert` and `remove` of that node's id)
/// leaves the session of every other node exactly as it was.
pub proof fn lemma_sessions_are_independent(
    table: Map<Seq<char>, NodeState>,
    id: Seq<char>,
    other: Seq<char>,
    state: NodeState,
)
    requires
        other != id,
    ensures
        table.insert(id, state).contains_key(other) == table.contains_key(other),
        table.contains_key(other) ==> table.insert(id, state)[other] == table[other],
        table.remove(id).contains_key(other) == table.contains_key(other),
        table.contains_key(other) ==> table.remove(id)[other] == table[other],
{
}

} // verus!
