use vstd::prelude::*;
use crate::ids::{VertexID, id_text};

verus! {

/// Why a per-vertex value could not be read.
#[derive(Debug)]
pub enum Error {
    FailedToFindCustomAttribute { message: String },
    FailedToFindEntryForVertexID { message: String },
}

/// The map that a list of key-value pairs with distinct keys stands for.
pub open spec fn keyed<K, T>(s: Seq<(K, T)>) -> Map<K, T> {
    Map::new(
        |k: K| exists|i: int| 0 <= i < s.len() && #[trigger] s[i].0 == k,
        |k: K| s[choose|i: int| 0 <= i < s.len() && #[trigger] s[i].0 == k].1,
    )
}

/// No key occurs twice in the list.
pub open spec fn distinct_keys<K, T>(s: Seq<(K, T)>) -> bool {
    forall|i: int, j: int| 0 <= i < j < s.len() ==> (#[trigger] s[i]).0 != (#[trigger] s[j]).0
}

proof fn lemma_keyed_at<K, T>(s: Seq<(K, T)>, i: int)
    requires
        distinct_keys(s),
        0 <= i < s.len(),
    ensures
        keyed(s).dom().contains(s[i].0),
        keyed(s)[s[i].0] == s[i].1,
{
    let j = choose|j: int| 0 <= j < s.len() && #[trigger] s[j].0 == s[i].0;
    assert(s[j].0 == s[i].0);
    if j != i {
        if j < i {
            assert(s[j].0 != s[i].0);
        } else {
            assert(s[i].0 != s[j].0);
        }
    }
}

proof fn lemma_keyed_push<K, T>(s: Seq<(K, T)>, k: K, t: T)
    requires
        distinct_keys(s),
        !keyed(s).dom().contains(k),
    ensures
        distinct_keys(s.push((k, t))),
        keyed(s.push((k, t))) == keyed(s).insert(k, t),
{
    let p = s.push((k, t));
    assert forall|i: int, j: int| 0 <= i < j < p.len() implies (#[trigger] p[i]).0 != (#[trigger] p[j]).0 by {
        if j == s.len() {
            assert(s[i].0 == p[i].0);
        } else {
            assert(s[i] == p[i] && s[j] == p[j]);
        }
    }
    assert forall|x: K| #[trigger] keyed(p).dom().contains(x) <==> keyed(s).insert(k, t).dom().contains(x) by {
        if keyed(s).dom().contains(x) {
            let i = choose|i: int| 0 <= i < s.len() && #[trigger] s[i].0 == x;
            assert(p[i].0 == x);
        }
        if keyed(p).dom().contains(x) && x != k {
            let i = choose|i: int| 0 <= i < p.len() && #[trigger] p[i].0 == x;
            assert(i < s.len());
            assert(s[i].0 == x);
        }
        if x == k {
            assert(p[s.len() as int].0 == k);
        }
    }
    assert forall|x: K| #[trigger] keyed(p).dom().contains(x) implies keyed(p)[x] == keyed(s).insert(k, t)[x] by {
        if x == k {
            lemma_keyed_at(p, s.len() as int);
        } else {
            let i = choose|i: int| 0 <= i < p.len() && #[trigger] p[i].0 == x;
            assert(i < s.len());
            assert(p[i] == s[i]);
            lemma_keyed_at(p, i);
            lemma_keyed_at(s, i);
        }
    }
    assert(keyed(p) =~= keyed(s).insert(k, t));
}

proof fn lemma_keyed_update<K, T>(s: Seq<(K, T)>, j: int, t: T)
    requires
        distinct_keys(s),
        0 <= j < s.len(),
    ensures
        distinct_keys(s.update(j, (s[j].0, t))),
        keyed(s.update(j, (s[j].0, t))) == keyed(s).insert(s[j].0, t),
{
    let k = s[j].0;
    let p = s.update(j, (k, t));
    assert forall|a: int, b: int| 0 <= a < b < p.len() implies (#[trigger] p[a]).0 != (#[trigger] p[b]).0 by {
        assert(p[a].0 == s[a].0 && p[b].0 == s[b].0);
        assert(s[a].0 != s[b].0);
    }
    assert forall|x: K| #[trigger] keyed(p).dom().contains(x) <==> keyed(s).insert(k, t).dom().contains(x) by {
        if keyed(s).dom().contains(x) {
            let i = choose|i: int| 0 <= i < s.len() && #[trigger] s[i].0 == x;
            assert(p[i].0 == x);
        }
        if keyed(p).dom().contains(x) {
            let i = choose|i: int| 0 <= i < p.len() && #[trigger] p[i].0 == x;
            assert(s[i].0 == x);
        }
        if x == k {
            assert(p[j].0 == k);
        }
    }
    assert forall|x: K| #[trigger] keyed(p).dom().contains(x) implies keyed(p)[x] == keyed(s).insert(k, t)[x] by {
        let i = choose|i: int| 0 <= i < p.len() && #[trigger] p[i].0 == x;
        lemma_keyed_at(p, i);
        if i != j {
            assert(p[i] == s[i]);
            lemma_keyed_at(s, i);
        }
    }
    assert(keyed(p) =~= keyed(s).insert(k, t));
}

proof fn lemma_keyed_remove<K, T>(s: Seq<(K, T)>, j: int)
    requires
        distinct_keys(s),
        0 <= j < s.len(),
    ensures
        distinct_keys(s.remove(j)),
        keyed(s.remove(j)) == keyed(s).remove(s[j].0),
{
    let k = s[j].0;
    let p = s.remove(j);
    assert forall|a: int, b: int| 0 <= a < b < p.len() implies (#[trigger] p[a]).0 != (#[trigger] p[b]).0 by {
        let a0 = if a < j { a } else { a + 1 };
        let b0 = if b < j { b } else { b + 1 };
        assert(p[a] == s[a0] && p[b] == s[b0]);
        assert(s[a0].0 != s[b0].0);
    }
    assert forall|x: K| #[trigger] keyed(p).dom().contains(x) <==> keyed(s).remove(k).dom().contains(x) by {
        if keyed(s).dom().contains(x) && x != k {
            let i = choose|i: int| 0 <= i < s.len() && #[trigger] s[i].0 == x;
            assert(i != j);
            let i1 = if i < j { i } else { i - 1 };
            assert(p[i1] == s[i]);
        }
        if keyed(p).dom().contains(x) {
            let i = choose|i: int| 0 <= i < p.len() && #[trigger] p[i].0 == x;
            let i0 = if i < j { i } else { i + 1 };
            assert(p[i] == s[i0]);
            assert(s[i0].0 == x);
            if x == k {
                if i0 < j {
                    assert(s[i0].0 != s[j].0);
                } else {
                    assert(s[j].0 != s[i0].0);
                }
            }
        }
    }
    assert forall|x: K| #[trigger] keyed(p).dom().contains(x) implies keyed(p)[x] == keyed(s).remove(k)[x] by {
        let i = choose|i: int| 0 <= i < p.len() && #[trigger] p[i].0 == x;
        let i0 = if i < j { i } else { i + 1 };
        assert(p[i] == s[i0]);
        lemma_keyed_at(p, i);
        lemma_keyed_at(s, i0);
    }
    assert(keyed(p) =~= keyed(s).remove(k));
}

/// Named per-vertex values of one kind: for each name, the values stored for vertices.
pub struct AttributeTable<T> {
    entries: Vec<(String, Vec<(VertexID, T)>)>,
}

/// The names of a table's entries, each with the pairs of vertex and value it holds.
pub open spec fn entry_views<T>(entries: Seq<(String, Vec<(VertexID, T)>)>) -> Seq<(Seq<char>, Seq<(VertexID, T)>)> {
    entries.map_values(|e: (String, Vec<(VertexID, T)>)| (e.0@, e.1@))
}

/// The position of the pair for a vertex in a list of pairs, if there is one.
fn find_vertex<T>(values: &Vec<(VertexID, T)>, vertex_id: &VertexID) -> (r: Option<usize>)
    ensures
        r is None <==> !keyed(values@).dom().contains(*vertex_id),
        r matches Some(j) ==> j < values@.len() && values@[j as int].0 == *vertex_id,
{
    let mut j: usize = 0;
    while j < values.len()
        invariant
            j <= values@.len(),
            forall|a: int| 0 <= a < j ==> (#[trigger] values@[a]).0 != *vertex_id,
        decreases values@.len() - j,
    {
        if values[j].0 == *vertex_id {
            return Some(j);
        }
        j = j + 1;
    }
    proof {
        if keyed(values@).dom().contains(*vertex_id) {
            let a = choose|a: int| 0 <= a < values@.len() && #[trigger] values@[a].0 == *vertex_id;
            assert(values@[a].0 != *vertex_id);
        }
    }
    None
}

impl<T: Copy> AttributeTable<T> {
    /// The names stored and, for each, its values by vertex.
    pub closed spec fn view(&self) -> Map<Seq<char>, Map<VertexID, T>> {
        keyed(entry_views(self.entries@)).map_values(|s: Seq<(VertexID, T)>| keyed(s))
    }

    /// Names occur once, and within a name each vertex once.
    pub closed spec fn wf(&self) -> bool {
        &&& distinct_keys(entry_views(self.entries@))
        &&& forall|i: int| 0 <= i < self.entries@.len() ==> distinct_keys(#[trigger] self.entries@[i].1@)
    }

    pub fn new() -> (r: Self)
        ensures
            r.wf(),
            r.view() == Map::<Seq<char>, Map<VertexID, T>>::empty(),
    {
        let r = AttributeTable { entries: Vec::new() };
        assert(r.view() =~= Map::<Seq<char>, Map<VertexID, T>>::empty());
        r
    }

    /// The position of the entry with the given name, if there is one.
    fn find_name(&self, name: &str) -> (r: Option<usize>)
        requires
            self.wf(),
        ensures
            r is None <==> !self.view().dom().contains(name@),
            r matches Some(i) ==> i < self.entries@.len() && self.entries@[i as int].0@ == name@,
    {
        let ghost ev = entry_views(self.entries@);
        let key = String::from_str(name);
        let mut i: usize = 0;
        while i < self.entries.len()
            invariant
                self.wf(),
                ev == entry_views(self.entries@),
                key@ == name@,
                i <= self.entries@.len(),
                forall|a: int| 0 <= a < i ==> (#[trigger] ev[a]).0 != name@,
            decreases self.entries@.len() - i,
        {
            if self.entries[i].0 == key {
                assert(ev[i as int].0 == name@);
                return Some(i);
            }
            assert(ev[i as int].0 != name@);
            i = i + 1;
        }
        proof {
            if keyed(ev).dom().contains(name@) {
                let a = choose|a: int| 0 <= a < ev.len() && #[trigger] ev[a].0 == name@;
                assert(ev[a].0 != name@);
            }
        }
        None
    }

    /// The message of a missing name.
    pub open spec fn missing_name_text(name: Seq<char>) -> Seq<char> {
        "Failed to find "@ + name + " attribute"@
    }

    /// The message of a name without a value for the vertex.
    pub open spec fn missing_entry_text(name: Seq<char>, vertex_id: VertexID) -> Seq<char> {
        "Failed to find entry for "@ + name + " attribute and "@ + id_text(vertex_id.index(), vertex_id.spec_is_null())
            + " vertex id"@
    }

    /// The value stored under a name for a vertex; an error names what is missing.
    pub fn get(&self, name: &str, vertex_id: &VertexID) -> (r: Result<&T, Error>)
        requires
            self.wf(),
        ensures
            r is Ok <==> self.view().dom().contains(name@) && self.view()[name@].dom().contains(*vertex_id),
            r matches Ok(v) ==> *v == self.view()[name@][*vertex_id],
            !self.view().dom().contains(name@) ==> (r matches Err(Error::FailedToFindCustomAttribute { message })
                && message@ == Self::missing_name_text(name@)),
            self.view().dom().contains(name@) && !self.view()[name@].dom().contains(*vertex_id) ==> (r matches Err(
                Error::FailedToFindEntryForVertexID { message },
            ) && message@ == Self::missing_entry_text(name@, *vertex_id)),
    {
        let ghost ev = entry_views(self.entries@);
        match self.find_name(name) {
            None => {
                proof {
                    reveal_strlit("Failed to find ");
                    reveal_strlit(" attribute");
                }
                let mut message = String::from_str("Failed to find ");
                message.append(name);
                message.append(" attribute");
                assert(message@ =~= Self::missing_name_text(name@));
                Err(Error::FailedToFindCustomAttribute { message })
            },
            Some(i) => {
                proof {
                    assert(ev[i as int] == (self.entries@[i as int].0@, self.entries@[i as int].1@));
                    lemma_keyed_at(ev, i as int);
                }
                let values = &self.entries[i].1;
                let ghost vs = values@;
                assert(distinct_keys(vs));
                assert(self.view()[name@] == keyed(vs));
                let mut j: usize = 0;
                while j < values.len()
                    invariant
                        vs == values@,
                        distinct_keys(vs),
                        self.view().dom().contains(name@),
                        self.view()[name@] == keyed(vs),
                        j <= vs.len(),
                        forall|a: int| 0 <= a < j ==> (#[trigger] vs[a]).0 != *vertex_id,
                    decreases vs.len() - j,
                {
                    if values[j].0 == *vertex_id {
                        proof {
                            lemma_keyed_at(vs, j as int);
                        }
                        return Ok(&values[j].1);
                    }
                    j = j + 1;
                }
                proof {
                    if keyed(vs).dom().contains(*vertex_id) {
                        let a = choose|a: int| 0 <= a < vs.len() && #[trigger] vs[a].0 == *vertex_id;
                        assert(vs[a].0 != *vertex_id);
                    }
                    reveal_strlit("Failed to find entry for ");
                    reveal_strlit(" attribute and ");
                    reveal_strlit(" vertex id");
                }
                let mut message = String::from_str("Failed to find entry for ");
                message.append(name);
                message.append(" attribute and ");
                let id = vertex_id.to_string();
                message.append(id.as_str());
                message.append(" vertex id");
                assert(message@ =~= Self::missing_entry_text(name@, *vertex_id));
                Err(Error::FailedToFindEntryForVertexID { message })
            },
        }
    }

    /// Stores a value under a name for a vertex, adding the name where it is new and
    /// replacing any value stored for the vertex.
    pub fn set(&mut self, name: &str, vertex_id: &VertexID, value: T)
        requires
            old(self).wf(),
        ensures
            final(self).wf(),
            final(self).view() == old(self).view().insert(
                name@,
                (if old(self).view().dom().contains(name@) {
                    old(self).view()[name@]
                } else {
                    Map::empty()
                }).insert(*vertex_id, value),
            ),
    {
        let ghost m0 = self.view();
        let i = match self.find_name(name) {
            Some(i) => i,
            None => {
                let ghost ev = entry_views(self.entries@);
                let key = String::from_str(name);
                let fresh: Vec<(VertexID, T)> = Vec::new();
                self.entries.push((key, fresh));
                proof {
                    assert(entry_views(self.entries@) =~= ev.push((name@, Seq::<(VertexID, T)>::empty())));
                    lemma_keyed_push(ev, name@, Seq::<(VertexID, T)>::empty());
                    assert(keyed(Seq::<(VertexID, T)>::empty()) =~= Map::<VertexID, T>::empty());
                    assert(self.view() =~= m0.insert(name@, Map::<VertexID, T>::empty()));
                    assert forall|a: int| 0 <= a < self.entries@.len() implies distinct_keys(#[trigger] self.entries@[a].1@) by {
                        if a < self.entries@.len() - 1 {
                            assert(self.entries@[a] == old(self).entries@[a]);
                        }
                    }
                }
                self.entries.len() - 1
            },
        };
        let ghost m1 = self.view();
        let ghost es = self.entries@;
        let ghost ev = entry_views(es);
        proof {
            assert(ev[i as int] == (es[i as int].0@, es[i as int].1@));
            lemma_keyed_at(ev, i as int);
            assert(m1.dom().contains(name@));
            assert(m1[name@] == keyed(es[i as int].1@));
            assert(m1[name@] == if m0.dom().contains(name@) { m0[name@] } else { Map::empty() });
        }
        let mut entry = self.entries.remove(i);
        let ghost vs = entry.1@;
        assert(distinct_keys(vs));
        match find_vertex(&entry.1, vertex_id) {
            Some(j) => {
                entry.1.remove(j);
                entry.1.insert(j, (*vertex_id, value));
                proof {
                    assert(entry.1@ =~= vs.update(j as int, (vs[j as int].0, value)));
                    lemma_keyed_update(vs, j as int, value);
                }
            },
            None => {
                entry.1.push((*vertex_id, value));
                proof {
                    lemma_keyed_push(vs, *vertex_id, value);
                }
            },
        }
        self.entries.insert(i, entry);
        proof {
            assert(self.entries@ =~= es.update(i as int, entry));
            let nv = entry.1@;
            assert(keyed(nv) == keyed(vs).insert(*vertex_id, value));
            assert(entry_views(self.entries@) =~= ev.update(i as int, (ev[i as int].0, nv)));
            lemma_keyed_update(ev, i as int, nv);
            assert forall|a: int| 0 <= a < self.entries@.len() implies distinct_keys(#[trigger] self.entries@[a].1@) by {
                if a != i {
                    assert(self.entries@[a] == es[a]);
                }
            }
            assert(self.view() =~= m1.insert(name@, keyed(nv)));
        }
    }

    /// Removes the values stored for a vertex under every name; the names stay.
    pub fn remove_vertex(&mut self, vertex_id: &VertexID)
        requires
            old(self).wf(),
        ensures
            final(self).wf(),
            final(self).view() == old(self).view().map_values(|m: Map<VertexID, T>| m.remove(*vertex_id)),
    {
        let ghost es = self.entries@;
        let ghost ev = entry_views(es);
        let n = self.entries.len();
        let mut i: usize = 0;
        while i < n
            invariant
                n == es.len(),
                self.entries@.len() == n,
                i <= n,
                distinct_keys(ev),
                ev == entry_views(es),
                forall|a: int| 0 <= a < n ==> distinct_keys(#[trigger] es[a].1@),
                forall|a: int| 0 <= a < n ==> (#[trigger] self.entries@[a]).0 == es[a].0,
                forall|a: int| 0 <= a < n ==> distinct_keys(#[trigger] self.entries@[a].1@),
                forall|a: int| 0 <= a < i ==> keyed(#[trigger] self.entries@[a].1@) == keyed(es[a].1@).remove(*vertex_id),
                forall|a: int| i <= a < n ==> #[trigger] self.entries@[a] == es[a],
            decreases n - i,
        {
            let ghost before = self.entries@;
            let mut entry = self.entries.remove(i);
            let ghost vs = entry.1@;
            match find_vertex(&entry.1, vertex_id) {
                Some(j) => {
                    entry.1.remove(j);
                    proof {
                        lemma_keyed_remove(vs, j as int);
                    }
                },
                None => {
                    proof {
                        assert(keyed(vs).remove(*vertex_id) =~= keyed(vs));
                    }
                },
            }
            self.entries.insert(i, entry);
            proof {
                assert(self.entries@ =~= before.update(i as int, entry));
            }
            i = i + 1;
        }
        proof {
            let ev2 = entry_views(self.entries@);
            assert forall|a: int| 0 <= a < n implies (#[trigger] ev2[a]).0 == ev[a].0 by {
                assert(ev2[a].0 == self.entries@[a].0@);
            }
            assert forall|a: int, b: int| 0 <= a < b < ev2.len() implies (#[trigger] ev2[a]).0 != (#[trigger] ev2[b]).0 by {
                assert(ev[a].0 != ev[b].0);
            }
            assert forall|x: Seq<char>| #[trigger] keyed(ev2).dom().contains(x) <==> keyed(ev).dom().contains(x) by {
                if keyed(ev).dom().contains(x) {
                    let a = choose|a: int| 0 <= a < ev.len() && #[trigger] ev[a].0 == x;
                    assert(ev2[a].0 == x);
                }
                if keyed(ev2).dom().contains(x) {
                    let a = choose|a: int| 0 <= a < ev2.len() && #[trigger] ev2[a].0 == x;
                    assert(ev[a].0 == x);
                }
            }
            assert forall|x: Seq<char>| #[trigger] keyed(ev2).dom().contains(x) implies self.view()[x] == old(self).view()[x].remove(*vertex_id) by {
                let a = choose|a: int| 0 <= a < ev2.len() && #[trigger] ev2[a].0 == x;
                lemma_keyed_at(ev2, a);
                lemma_keyed_at(ev, a);
                assert(ev2[a].1 == self.entries@[a].1@);
                assert(ev[a].1 == es[a].1@);
            }
            assert(self.view() =~= old(self).view().map_values(|m: Map<VertexID, T>| m.remove(*vertex_id)));
        }
    }
}

/// Named per-vertex values of two kinds, such as texture coordinates (`A`) and colours or
/// positions (`B`).
pub struct VertexAttributes<A, B> {
    vec2_attributes: AttributeTable<A>,
    vec3_attributes: AttributeTable<B>,
}

impl<A: Copy, B: Copy> VertexAttributes<A, B> {
    /// The values of the first kind, by name and vertex.
    pub closed spec fn vec2_view(&self) -> Map<Seq<char>, Map<VertexID, A>> {
        self.vec2_attributes.view()
    }

    /// The values of the second kind, by name and vertex.
    pub closed spec fn vec3_view(&self) -> Map<Seq<char>, Map<VertexID, B>> {
        self.vec3_attributes.view()
    }

    pub closed spec fn wf(&self) -> bool {
        self.vec2_attributes.wf() && self.vec3_attributes.wf()
    }

    pub fn new() -> (r: Self)
        ensures
            r.wf(),
            r.vec2_view() == Map::<Seq<char>, Map<VertexID, A>>::empty(),
            r.vec3_view() == Map::<Seq<char>, Map<VertexID, B>>::empty(),
    {
        VertexAttributes { vec2_attributes: AttributeTable::new(), vec3_attributes: AttributeTable::new() }
    }

    /// Removes the values of a vertex under every name of both kinds.
    pub fn remove_vertex(&mut self, vertex_id: &VertexID)
        requires
            old(self).wf(),
        ensures
            final(self).wf(),
            final(self).vec2_view() == old(self).vec2_view().map_values(|m: Map<VertexID, A>| m.remove(*vertex_id)),
            final(self).vec3_view() == old(self).vec3_view().map_values(|m: Map<VertexID, B>| m.remove(*vertex_id)),
    {
        self.vec2_attributes.remove_vertex(vertex_id);
        self.vec3_attributes.remove_vertex(vertex_id);
    }

    /// The value of the first kind stored under a name for a vertex.
    pub fn get_vec2_attribute_at(&self, name: &str, vertex_id: &VertexID) -> (r: Result<&A, Error>)
        requires
            self.wf(),
        ensures
            r is Ok <==> self.vec2_view().dom().contains(name@) && self.vec2_view()[name@].dom().contains(*vertex_id),
            r matches Ok(v) ==> *v == self.vec2_view()[name@][*vertex_id],
            !self.vec2_view().dom().contains(name@) ==> (r matches Err(Error::FailedToFindCustomAttribute { message })
                && message@ == AttributeTable::<A>::missing_name_text(name@)),
            self.vec2_view().dom().contains(name@) && !self.vec2_view()[name@].dom().contains(*vertex_id) ==> (r matches Err(
                Error::FailedToFindEntryForVertexID { message },
            ) && message@ == AttributeTable::<A>::missing_entry_text(name@, *vertex_id)),
    {
        self.vec2_attributes.get(name, vertex_id)
    }

    /// Stores a value of the first kind under a name for a vertex.
    pub fn set_vec2_attribute_at(&mut self, name: &str, vertex_id: &VertexID, value: &A)
        requires
            old(self).wf(),
        ensures
            final(self).wf(),
            final(self).vec3_view() == old(self).vec3_view(),
            final(self).vec2_view() == old(self).vec2_view().insert(
                name@,
                (if old(self).vec2_view().dom().contains(name@) {
                    old(self).vec2_view()[name@]
                } else {
                    Map::empty()
                }).insert(*vertex_id, *value),
            ),
    {
        self.vec2_attributes.set(name, vertex_id, *value);
    }

    /// The value of the second kind stored under a name for a vertex.
    pub fn get_vec3_attribute_at(&self, name: &str, vertex_id: &VertexID) -> (r: Result<&B, Error>)
        requires
            self.wf(),
        ensures
            r is Ok <==> self.vec3_view().dom().contains(name@) && self.vec3_view()[name@].dom().contains(*vertex_id),
            r matches Ok(v) ==> *v == self.vec3_view()[name@][*vertex_id],
            !self.vec3_view().dom().contains(name@) ==> (r matches Err(Error::FailedToFindCustomAttribute { message })
                && message@ == AttributeTable::<B>::missing_name_text(name@)),
            self.vec3_view().dom().contains(name@) && !self.vec3_view()[name@].dom().contains(*vertex_id) ==> (r matches Err(
                Error::FailedToFindEntryForVertexID { message },
            ) && message@ == AttributeTable::<B>::missing_entry_text(name@, *vertex_id)),
    {
        self.vec3_attributes.get(name, vertex_id)
    }

    /// Stores a value of the second kind under a name for a vertex.
    pub fn set_vec3_attribute_at(&mut self, name: &str, vertex_id: &VertexID, value: &B)
        requires
            old(self).wf(),
        ensures
            final(self).wf(),
            final(self).vec2_view() == old(self).vec2_view(),
            final(self).vec3_view() == old(self).vec3_view().insert(
                name@,
                (if old(self).vec3_view().dom().contains(name@) {
                    old(self).vec3_view()[name@]
                } else {
                    Map::empty()
                }).insert(*vertex_id, *value),
            ),
    {
        self.vec3_attributes.set(name, vertex_id, *value);
    }
}

} // verus!
