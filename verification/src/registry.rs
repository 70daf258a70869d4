//! The connection registry: the one piece of shared state of the relay.
//!
//! A [`Registry`] maps a transport-assigned connection id to the
//! [`ConnectionRecord`] captured when that connection was admitted. Entries
//! are inserted exactly once, at admission, and removed when the connection
//! closes; records are never mutated in between. The registry is viewed as a
//! `Map<u32, ConnectionRecord<S>>`, and every operation's contract is stated
//! over that map.

use vstd::prelude::*;

verus! {

/// The role a connection is given at admission, fixed for its lifetime.
#[derive(Clone, Copy, Debug, PartialEq, Eq, Structural)]
pub enum ConnectionRole {
    /// A producer's messages are fanned out to every consumer.
    Producer,
    /// A consumer receives broadcasts; its own messages are never forwarded.
    Consumer,
}

/// One live connection: its id, its role, the opaque outbound capability the
/// transport supplied for it, and the request headers captured verbatim at
/// admission (name/value pairs, in arrival order).
pub struct ConnectionRecord<S> {
    /// Unique identifier assigned by the transport; the registry's key.
    pub id: u32,
    /// Role determined from the request path at admission.
    pub role: ConnectionRole,
    /// Capability to send to, or close, this specific connection.
    pub handle: S,
    /// Header name/value pairs, kept only for diagnostics.
    pub metadata: Vec<(String, String)>,
}

/// Does some entry of `s` carry the id `id`?
spec fn has_id<S>(s: Seq<ConnectionRecord<S>>, id: u32) -> bool {
    exists|i: int| 0 <= i < s.len() && (#[trigger] s[i]).id == id
}

/// An index of the entry of `s` carrying `id` (meaningful when `has_id`).
spec fn index_of<S>(s: Seq<ConnectionRecord<S>>, id: u32) -> int {
    choose|i: int| 0 <= i < s.len() && (#[trigger] s[i]).id == id
}

/// The entry of `s` carrying `id` (meaningful when `has_id`).
spec fn record_for<S>(s: Seq<ConnectionRecord<S>>, id: u32) -> ConnectionRecord<S> {
    s[index_of(s, id)]
}

/// No two entries of `s` share an id.
spec fn ids_unique<S>(s: Seq<ConnectionRecord<S>>) -> bool {
    forall|i: int, j: int|
        0 <= i < j < s.len() ==> (#[trigger] s[i]).id != (#[trigger] s[j]).id
}

/// The map a sequence of uniquely-keyed records denotes.
spec fn map_of<S>(s: Seq<ConnectionRecord<S>>) -> Map<u32, ConnectionRecord<S>> {
    Map::new(|id: u32| has_id(s, id), |id: u32| record_for(s, id))
}

/// The table of live connections, keyed by connection id.
pub struct Registry<S> {
    records: Vec<ConnectionRecord<S>>,
}

impl<S> View for Registry<S> {
    type V = Map<u32, ConnectionRecord<S>>;

    closed spec fn view(&self) -> Map<u32, ConnectionRecord<S>> {
        map_of(self.records@)
    }
}

proof fn lemma_found_at<S>(s: Seq<ConnectionRecord<S>>, i: int)
    requires
        ids_unique(s),
        0 <= i < s.len(),
    ensures
        has_id(s, s[i].id),
        record_for(s, s[i].id) == s[i],
{
    assert(has_id(s, s[i].id)) by {
        assert(0 <= i < s.len() && (s[i]).id == s[i].id);
    }
    let j = index_of(s, s[i].id);
    assert(0 <= j < s.len() && (s[j]).id == s[i].id);
    if i != j {
        assert(false);
    }
}

proof fn lemma_push<S>(s: Seq<ConnectionRecord<S>>, rec: ConnectionRecord<S>)
    requires
        ids_unique(s),
        !has_id(s, rec.id),
    ensures
        ids_unique(s.push(rec)),
        map_of(s.push(rec)) == map_of(s).insert(rec.id, rec),
{
    let t = s.push(rec);
    assert(t[s.len() as int] == rec);
    assert forall|i: int, j: int| 0 <= i < j < t.len() implies (#[trigger] t[i]).id != (
    #[trigger] t[j]).id by {
        if j < s.len() {
            assert(t[i] == s[i] && t[j] == s[j]);
        } else {
            assert(t[j] == rec && t[i] == s[i]);
            if s[i].id == rec.id {
                assert(has_id(s, rec.id));
            }
        }
    }
    assert forall|k: u32| #[trigger] has_id(t, k) implies k == rec.id || has_id(s, k) by {
        let i = index_of(t, k);
        assert(0 <= i < t.len() && (t[i]).id == k);
        if i < s.len() {
            assert(t[i] == s[i]);
            assert(has_id(s, k));
        } else {
            assert(t[i] == rec);
        }
    }
    assert forall|k: u32| has_id(s, k) implies has_id(t, k) && k != rec.id by {
        let i = index_of(s, k);
        assert(0 <= i < s.len() && (s[i]).id == k);
        assert(t[i] == s[i]);
        assert(has_id(t, k));
    }
    assert(has_id(t, rec.id)) by {
        assert(0 <= s.len() && (t[s.len() as int]).id == rec.id);
    }
    assert(record_for(t, rec.id) == rec) by {
        let i = index_of(t, rec.id);
        assert(0 <= i < t.len() && (t[i]).id == rec.id);
        if i < s.len() {
            assert(t[i] == s[i]);
            assert(has_id(s, rec.id));
        }
    }
    assert forall|k: u32| has_id(s, k) implies record_for(t, k) == record_for(s, k) by {
        let i = index_of(t, k);
        let j = index_of(s, k);
        assert(0 <= j < s.len() && (s[j]).id == k);
        assert(has_id(t, k));
        assert(0 <= i < t.len() && (t[i]).id == k);
        if i == s.len() {
            assert(t[i] == rec);
            assert(k == rec.id);
            assert(false);
        }
        assert(t[i] == s[i]);
        if i != j {
            assert(false);
        }
    }
    assert(map_of(t) =~= map_of(s).insert(rec.id, rec));
}

proof fn lemma_remove_at<S>(s: Seq<ConnectionRecord<S>>, i: int)
    requires
        ids_unique(s),
        0 <= i < s.len(),
    ensures
        ids_unique(s.remove(i)),
        map_of(s.remove(i)) == map_of(s).remove(s[i].id),
{
    let t = s.remove(i);
    let id = s[i].id;
    s.remove_ensures(i);
    assert forall|a: int, b: int| 0 <= a < b < t.len() implies (#[trigger] t[a]).id != (
    #[trigger] t[b]).id by {
        let a0: int = if a < i { a } else { a + 1 };
        let b0: int = if b < i { b } else { b + 1 };
        assert(t[a] == s[a0] && t[b] == s[b0]);
    }
    assert(!has_id(t, id)) by {
        if has_id(t, id) {
            let a = index_of(t, id);
            assert(0 <= a < t.len() && (t[a]).id == id);
            let a0: int = if a < i { a } else { a + 1 };
            assert(t[a] == s[a0]);
            assert(a0 != i && s[a0].id == s[i].id);
        }
    }
    assert forall|k: u32| #[trigger] has_id(t, k) implies has_id(s, k) by {
        let a = index_of(t, k);
        assert(0 <= a < t.len() && (t[a]).id == k);
        let a0: int = if a < i { a } else { a + 1 };
        assert(t[a] == s[a0]);
        assert(has_id(s, k));
    }
    assert forall|k: u32| has_id(s, k) && k != id implies has_id(t, k) by {
        let j = index_of(s, k);
        assert(0 <= j < s.len() && (s[j]).id == k);
        if j < i {
            assert(t[j] == s[j]);
            assert(has_id(t, k));
        } else {
            assert(j != i);
            assert(t[j - 1] == s[j]);
            assert(has_id(t, k));
        }
    }
    assert forall|k: u32| #[trigger] has_id(t, k) implies record_for(t, k) == record_for(s, k) by {
        let a = index_of(t, k);
        assert(0 <= a < t.len() && (t[a]).id == k);
        let a0: int = if a < i { a } else { a + 1 };
        assert(t[a] == s[a0]);
        assert(has_id(s, k));
        let j = index_of(s, k);
        assert(0 <= j < s.len() && (s[j]).id == k);
        if a0 != j {
            assert(false);
        }
    }
    assert(map_of(t) =~= map_of(s).remove(id));
}

proof fn lemma_remove_absent<S>(s: Seq<ConnectionRecord<S>>, id: u32)
    requires
        !has_id(s, id),
    ensures
        map_of(s).remove(id) == map_of(s),
{
    assert(map_of(s).remove(id) =~= map_of(s));
}

impl<S> Registry<S> {
    #[verifier::type_invariant]
    spec fn wf(self) -> bool {
        ids_unique(self.records@)
    }

    /// An empty registry: no connection has been admitted.
    pub fn new() -> (r: Registry<S>)
        ensures
            r@ == Map::<u32, ConnectionRecord<S>>::empty(),
    {
        let r = Registry { records: Vec::new() };
        proof {
            assert(r@ =~= Map::<u32, ConnectionRecord<S>>::empty());
        }
        r
    }

    /// Adds a record under its id. The id must not be present yet: the
    /// transport hands out unique ids, and admission inserts each exactly
    /// once.
    pub fn insert(&mut self, record: ConnectionRecord<S>)
        requires
            !old(self)@.contains_key(record.id),
        ensures
            final(self)@ == old(self)@.insert(record.id, record),
    {
        proof {
            use_type_invariant(&*self);
        }
        let mut records: Vec<ConnectionRecord<S>> = Vec::new();
        core::mem::swap(&mut records, &mut self.records);
        let ghost s0 = records@;
        proof {
            lemma_push(s0, record);
        }
        records.push(record);
        self.records = records;
    }

    /// Looks the id up, returning the record admitted under it, or nothing
    /// when no such connection is live.
    pub fn get(&self, id: u32) -> (r: Option<&ConnectionRecord<S>>)
        ensures
            match r {
                Some(rec) => self@.contains_key(id) && *rec == self@[id],
                None => !self@.contains_key(id),
            },
    {
        proof {
            use_type_invariant(self);
        }
        let n = self.records.len();
        let mut k: usize = 0;
        while k < n
            invariant
                n == self.records.len(),
                k <= n,
                ids_unique(self.records@),
                forall|i: int| 0 <= i < k ==> (#[trigger] self.records@[i]).id != id,
            decreases n - k,
        {
            if self.records[k].id == id {
                proof {
                    lemma_found_at(self.records@, k as int);
                }
                return Some(&self.records[k]);
            }
            k += 1;
        }
        proof {
            if has_id(self.records@, id) {
                let i = index_of(self.records@, id);
                assert(0 <= i < self.records@.len() && (self.records@[i]).id == id);
            }
        }
        None
    }

    /// Deletes the entry for `id`, if present. Idempotent: removing an id
    /// that is not registered (a duplicate close notification, say) is a
    /// silent no-op.
    pub fn remove(&mut self, id: u32)
        ensures
            final(self)@ == old(self)@.remove(id),
    {
        proof {
            use_type_invariant(&*self);
        }
        let mut records: Vec<ConnectionRecord<S>> = Vec::new();
        core::mem::swap(&mut records, &mut self.records);
        let ghost s0 = records@;
        let n = records.len();
        let mut k: usize = 0;
        while k < n
            invariant
                n == records.len(),
                k <= n,
                records@ == s0,
                s0 == old(self).records@,
                ids_unique(s0),
                forall|i: int| 0 <= i < k ==> (#[trigger] s0[i]).id != id,
            decreases n - k,
        {
            if records[k].id == id {
                proof {
                    lemma_remove_at(s0, k as int);
                }
                records.remove(k);
                self.records = records;
                return;
            }
            k += 1;
        }
        proof {
            if has_id(s0, id) {
                let i = index_of(s0, id);
                assert(0 <= i < s0.len() && (s0[i]).id == id);
            }
            lemma_remove_absent(s0, id);
        }
        self.records = records;
    }
}

/// `p` pairs the id of entry `i` of `s` with a clone of that entry's handle,
/// and the entry has role `role`.
spec fn role_entry<S: Clone>(
    s: Seq<ConnectionRecord<S>>,
    i: int,
    role: ConnectionRole,
    p: (u32, S),
) -> bool {
    &&& s[i].id == p.0
    &&& s[i].role == role
    &&& cloned(s[i].handle, p.1)
}

/// `p` comes from one of the first `k` entries of `s`, as a `role_entry`.
spec fn matched<S: Clone>(
    s: Seq<ConnectionRecord<S>>,
    k: int,
    role: ConnectionRole,
    p: (u32, S),
) -> bool {
    exists|i: int| 0 <= i < k && #[trigger] role_entry(s, i, role, p)
}

/// Some pair of `out` carries the id `id`.
pub open spec fn has_target<S>(out: Seq<(u32, S)>, id: u32) -> bool {
    exists|a: int| 0 <= a < out.len() && (#[trigger] out[a]).0 == id
}

proof fn lemma_matched_widen<S: Clone>(
    s: Seq<ConnectionRecord<S>>,
    k1: int,
    k2: int,
    role: ConnectionRole,
    p: (u32, S),
)
    requires
        matched(s, k1, role, p),
        k1 <= k2,
    ensures
        matched(s, k2, role, p),
{
    let i = choose|i: int| 0 <= i < k1 && #[trigger] role_entry(s, i, role, p);
    assert(0 <= i < k2 && role_entry(s, i, role, p));
}

proof fn lemma_target_push<S>(out: Seq<(u32, S)>, p: (u32, S), id: u32)
    requires
        has_target(out, id),
    ensures
        has_target(out.push(p), id),
{
    let a = choose|a: int| 0 <= a < out.len() && (#[trigger] out[a]).0 == id;
    assert((out.push(p)[a]).0 == id);
}

impl<S: Clone> Registry<S> {
    /// A point-in-time snapshot of the connections holding `role`: each such
    /// connection contributes its id paired with a clone of its outbound
    /// handle, exactly once; no other connection contributes anything. This
    /// is the fan-out primitive: the caller sends through the cloned handles
    /// after letting go of the registry.
    pub fn collect_role(&self, role: ConnectionRole) -> (out: Vec<(u32, S)>)
        ensures
            forall|a: int, b: int|
                0 <= a < b < out@.len() ==> (#[trigger] out@[a]).0 != (#[trigger] out@[b]).0,
            forall|a: int|
                0 <= a < out@.len() ==> {
                    &&& self@.contains_key((#[trigger] out@[a]).0)
                    &&& self@[out@[a].0].role == role
                    &&& cloned(self@[out@[a].0].handle, out@[a].1)
                },
            forall|id: u32|
                self@.contains_key(id) && (#[trigger] self@[id]).role == role ==> has_target(
                    out@,
                    id,
                ),
    {
        proof {
            use_type_invariant(self);
        }
        let ghost s = self.records@;
        let n = self.records.len();
        let mut out: Vec<(u32, S)> = Vec::new();
        let mut k: usize = 0;
        while k < n
            invariant
                n == self.records.len(),
                k <= n,
                s == self.records@,
                ids_unique(s),
                forall|a: int, b: int|
                    0 <= a < b < out@.len() ==> (#[trigger] out@[a]).0 != (#[trigger] out@[b]).0,
                forall|a: int|
                    0 <= a < out@.len() ==> matched(s, k as int, role, #[trigger] out@[a]),
                forall|i: int|
                    0 <= i < k && (#[trigger] s[i]).role == role ==> has_target(out@, s[i].id),
            decreases n - k,
        {
            let ghost out0 = out@;
            if self.records[k].role == role {
                let id = self.records[k].id;
                let handle = self.records[k].handle.clone();
                proof {
                    assert forall|a: int| 0 <= a < out0.len() implies (#[trigger] out0[a]).0
                        != id by {
                        let i = choose|i: int| 0 <= i < k && #[trigger] role_entry(s, i, role, out0[a]);
                        assert(s[i].id == out0[a].0);
                    }
                }
                out.push((id, handle));
                proof {
                    assert(role_entry(s, k as int, role, (id, handle)));
                    assert forall|a: int| 0 <= a < out@.len() implies matched(
                        s,
                        k + 1,
                        role,
                        #[trigger] out@[a],
                    ) by {
                        if a < out0.len() {
                            assert(out@[a] == out0[a]);
                            lemma_matched_widen(s, k as int, k + 1, role, out0[a]);
                        } else {
                            assert(out@[a] == (id, handle));
                            assert(0 <= k < k + 1 && role_entry(s, k as int, role, (id, handle)));
                        }
                    }
                    assert forall|i: int|
                        0 <= i < k + 1 && (#[trigger] s[i]).role == role implies has_target(
                        out@,
                        s[i].id,
                    ) by {
                        if i < k {
                            lemma_target_push(out0, (id, handle), s[i].id);
                        } else {
                            assert((out@[out0.len() as int]).0 == id);
                        }
                    }
                }
            } else {
                proof {
                    assert forall|a: int| 0 <= a < out@.len() implies matched(
                        s,
                        k + 1,
                        role,
                        #[trigger] out@[a],
                    ) by {
                        lemma_matched_widen(s, k as int, k + 1, role, out@[a]);
                    }
                }
            }
            k += 1;
        }
        proof {
            assert forall|a: int|
                0 <= a < out@.len() implies {
                    &&& self@.contains_key((#[trigger] out@[a]).0)
                    &&& self@[out@[a].0].role == role
                    &&& cloned(self@[out@[a].0].handle, out@[a].1)
                } by {
                let i = choose|i: int| 0 <= i < n && #[trigger] role_entry(s, i, role, out@[a]);
                lemma_found_at(s, i);
            }
            assert forall|id: u32|
                self@.contains_key(id) && (#[trigger] self@[id]).role == role implies has_target(
                out@,
                id,
            ) by {
                let i = index_of(s, id);
                assert(0 <= i < s.len() && (s[i]).id == id);
                lemma_found_at(s, i);
            }
        }
        out
    }
}

} // verus!
