use vstd::prelude::*;
use crate::ids::{VertexID, FaceID, group_id_ext};
use crate::dynamic_mesh::dynamic_mesh::DynamicMesh;
use crate::dynamic_mesh::overlapping::corners;

verus! {

broadcast use group_id_ext;

/// The number of keys below `k`: where `k` comes among the keys in increasing order.
pub open spec fn rank(keys: Set<usize>, k: usize) -> nat {
    keys.filter(|x: usize| x < k).len()
}

/// In a strictly increasing sequence that lists a set of keys, the keys below the one at
/// place `j` are the `j` before it.
pub proof fn lemma_rank_of_sorted(s: Seq<usize>, keys: Set<usize>, j: int)
    requires
        forall|a: int, b: int| 0 <= a < b < s.len() ==> s[a] < s[b],
        forall|k: usize| keys.contains(k) <==> s.contains(k),
        0 <= j < s.len(),
    ensures
        rank(keys, s[j]) == j,
{
    let below = s.subrange(0, j);
    assert forall|a: int, b: int| 0 <= a < below.len() && 0 <= b < below.len() && a != b implies below[a] != below[b] by {
        if a < b {
            assert(s[a] < s[b]);
        } else {
            assert(s[b] < s[a]);
        }
    }
    assert(below.no_duplicates());
    below.unique_seq_to_set();
    assert forall|x: usize| keys.filter(|y: usize| y < s[j]).contains(x) <==> below.to_set().contains(x) by {
        if keys.contains(x) && x < s[j] {
            assert(s.contains(x));
            let a = choose|a: int| 0 <= a < s.len() && s[a] == x;
            if a >= j {
                if a > j {
                    assert(s[j] < s[a]);
                }
            }
            assert(below[a] == x);
            assert(below.contains(x));
        }
        if below.to_set().contains(x) {
            let a = choose|a: int| 0 <= a < below.len() && below[a] == x;
            assert(s[a] == x);
            assert(s.contains(x));
        }
    }
    assert(keys.filter(|y: usize| y < s[j]) =~= below.to_set());
}

/// Where vertex `v` is in `vertices`.
fn position_of(vertices: &Vec<VertexID>, v: &VertexID) -> (r: usize)
    requires
        vertices@.contains(*v),
    ensures
        r < vertices@.len(),
        vertices@[r as int] == *v,
{
    let mut i: usize = 0;
    while i < vertices.len()
        invariant
            i <= vertices@.len(),
            vertices@.contains(*v),
            forall|j: int| 0 <= j < i ==> vertices@[j] != *v,
        decreases vertices@.len() - i,
    {
        if vertices[i] == *v {
            return i;
        }
        i = i + 1;
    }
    assert(false);
    i
}

impl<P: Copy> DynamicMesh<P> {
    /// The corners of each face, faces in increasing index order, each corner given as the
    /// place of its vertex among the vertices in increasing index order.
    pub fn indices_buffer(&self) -> (r: Vec<u32>)
        requires
            self.wf(),
            self.connectivity().is_valid(),
            self.connectivity().vertex_map().dom().len() <= u32::MAX,
        ensures
            r@.len() == 3 * self.connectivity().face_map().dom().len(),
            forall|f: FaceID|
                #[trigger] self.connectivity().has_face(f) ==> {
                    let c = self.connectivity();
                    let k = rank(c.face_map().dom(), f.index()) as int;
                    let (a, b, d) = corners(c, f);
                    &&& r@[3 * k] == rank(c.vertex_map().dom(), a.index())
                    &&& r@[3 * k + 1] == rank(c.vertex_map().dom(), b.index())
                    &&& r@[3 * k + 2] == rank(c.vertex_map().dom(), d.index())
                },
    {
        let ghost c = self.connectivity();
        let ghost vdom = c.vertex_map().dom();
        let vertices = self.vertex_iterator();
        let faces = self.face_iterator();
        let ghost vkeys = vertices@.map_values(|v: VertexID| v.index());
        proof {
            assert forall|k: usize| vdom.contains(k) <==> vkeys.contains(k) by {
                if vdom.contains(k) {
                    assert(c.has_vertex(VertexID::spec_new(k)));
                    let a = choose|a: int| 0 <= a < vertices@.len() && vertices@[a] == VertexID::spec_new(k);
                    assert(vkeys[a] == k);
                }
                if vkeys.contains(k) {
                    let a = choose|a: int| 0 <= a < vkeys.len() && vkeys[a] == k;
                    assert(c.has_vertex(vertices@[a]));
                }
            }
        }
        let mut indices: Vec<u32> = Vec::new();
        let mut i: usize = 0;
        while i < faces.len()
            invariant
                self.wf(),
                c == self.connectivity(),
                c.is_valid(),
                vdom == c.vertex_map().dom(),
                vdom.len() <= u32::MAX,
                vertices@.len() == vdom.len(),
                vkeys == vertices@.map_values(|v: VertexID| v.index()),
                forall|a: int, b: int| 0 <= a < b < vkeys.len() ==> vkeys[a] < vkeys[b],
                forall|k: usize| vdom.contains(k) <==> vkeys.contains(k),
                forall|id: VertexID| #[trigger] c.has_vertex(id) ==> vertices@.contains(id),
                forall|a: int| 0 <= a < faces@.len() ==> #[trigger] c.has_face(faces@[a]),
                i <= faces@.len(),
                indices@.len() == 3 * i,
                forall|a: int|
                    0 <= a < i ==> {
                        let (x, y, z) = corners(c, #[trigger] faces@[a]);
                        &&& indices@[3 * a] == rank(vdom, x.index())
                        &&& indices@[3 * a + 1] == rank(vdom, y.index())
                        &&& indices@[3 * a + 2] == rank(vdom, z.index())
                    },
            decreases faces@.len() - i,
        {
            proof {
                assert(c.has_face(faces@[i as int]));
            }
            let (x, y, z) = self.face_vertices(&faces[i]);
            let px = position_of(&vertices, &x);
            let py = position_of(&vertices, &y);
            let pz = position_of(&vertices, &z);
            proof {
                assert(vkeys[px as int] == x.index());
                assert(vkeys[py as int] == y.index());
                assert(vkeys[pz as int] == z.index());
                lemma_rank_of_sorted(vkeys, vdom, px as int);
                lemma_rank_of_sorted(vkeys, vdom, py as int);
                lemma_rank_of_sorted(vkeys, vdom, pz as int);
                assert(corners(c, faces@[i as int]) == (x, y, z));
            }
            let ghost before = indices@;
            indices.push(px as u32);
            indices.push(py as u32);
            indices.push(pz as u32);
            proof {
                assert forall|a: int| 0 <= a < i + 1 implies {
                    let (x1, y1, z1) = corners(c, #[trigger] faces@[a]);
                    &&& indices@[3 * a] == rank(vdom, x1.index())
                    &&& indices@[3 * a + 1] == rank(vdom, y1.index())
                    &&& indices@[3 * a + 2] == rank(vdom, z1.index())
                } by {
                    if a < i {
                        assert(indices@[3 * a] == before[3 * a]);
                        assert(indices@[3 * a + 1] == before[3 * a + 1]);
                        assert(indices@[3 * a + 2] == before[3 * a + 2]);
                    }
                }
            }
            i = i + 1;
        }
        proof {
            let fdom = c.face_map().dom();
            let fkeys = faces@.map_values(|f: FaceID| f.index());
            assert forall|k: usize| fdom.contains(k) <==> fkeys.contains(k) by {
                if fdom.contains(k) {
                    assert(c.has_face(FaceID::spec_new(k)));
                    let a = choose|a: int| 0 <= a < faces@.len() && faces@[a] == FaceID::spec_new(k);
                    assert(fkeys[a] == k);
                }
                if fkeys.contains(k) {
                    let a = choose|a: int| 0 <= a < fkeys.len() && fkeys[a] == k;
                    assert(c.has_face(faces@[a]));
                }
            }
            assert forall|f: FaceID| #[trigger] c.has_face(f) implies {
                let k = rank(fdom, f.index()) as int;
                let (a, b, d) = corners(c, f);
                &&& indices@[3 * k] == rank(vdom, a.index())
                &&& indices@[3 * k + 1] == rank(vdom, b.index())
                &&& indices@[3 * k + 2] == rank(vdom, d.index())
            } by {
                assert(faces@.contains(f));
                let a = choose|a: int| 0 <= a < faces@.len() && faces@[a] == f;
                assert(fkeys[a] == f.index());
                lemma_rank_of_sorted(fkeys, fdom, a);
            }
        }
        indices
    }
}

} // verus!
