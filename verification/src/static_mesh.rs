use vstd::prelude::*;
use vstd::string::StringExecFns;

verus! {

/// Per-vertex data stored flat: `no_components` values for each vertex, one after another.
#[derive(Clone, Debug)]
pub struct Attribute<T> {
    pub name: String,
    pub no_components: usize,
    pub data: Vec<T>,
}

/// Why a static mesh could not be made.
#[derive(Debug)]
pub enum Error {
    NeedPositionAttributeToCreateMesh { message: String },
}

/// A mesh whose triangles and vertex data do not change: three vertex indices per triangle
/// and the vertex attributes, the first of them the positions.
pub struct StaticMesh<T> {
    indices: Vec<u32>,
    attributes: Vec<Attribute<T>>,
}

impl<T> StaticMesh<T> {
    /// The vertex indices, three per triangle.
    pub closed spec fn index_seq(&self) -> Seq<u32> {
        self.indices@
    }

    /// The vertex attributes.
    pub closed spec fn attribute_seq(&self) -> Seq<Attribute<T>> {
        self.attributes@
    }

    /// A mesh of the triangles and attributes; fails where there is no attribute to give the
    /// positions.
    pub fn create(indices: Vec<u32>, attributes: Vec<Attribute<T>>) -> (r: Result<StaticMesh<T>, Error>)
        ensures
            r is Err <==> attributes@.len() == 0,
            r matches Ok(m) ==> m.index_seq() == indices@ && m.attribute_seq() == attributes@,
            r matches Err(e) ==> e is NeedPositionAttributeToCreateMesh,
    {
        if attributes.len() == 0 {
            return Err(
                Error::NeedPositionAttributeToCreateMesh {
                    message: "Need at least the position attribute to create a mesh.".to_owned(),
                },
            );
        }
        Ok(StaticMesh { indices, attributes })
    }

    /// The number of vertices: the values of the first attribute over its number of
    /// components.
    pub fn no_vertices(&self) -> (r: usize)
        requires
            self.attribute_seq().len() > 0,
            self.attribute_seq()[0].no_components > 0,
        ensures
            r == self.attribute_seq()[0].data@.len() / (self.attribute_seq()[0].no_components as nat),
    {
        let att = &self.attributes[0];
        att.data.len() / att.no_components
    }

    /// The number of triangles.
    pub fn no_faces(&self) -> (r: usize)
        ensures
            r == self.index_seq().len() / 3,
    {
        self.indices.len() / 3
    }

    /// The first attribute with the given name, if there is one.
    pub fn get_attribute(&self, name: &str) -> (r: Option<&Attribute<T>>)
        ensures
            r is None <==> forall|i: int| 0 <= i < self.attribute_seq().len() ==> #[trigger] self.attribute_seq()[i].name@ != name@,
            r matches Some(a) ==> exists|i: int|
                0 <= i < self.attribute_seq().len() && *a == #[trigger] self.attribute_seq()[i] && a.name@ == name@ && forall|j: int|
                    0 <= j < i ==> self.attribute_seq()[j].name@ != name@,
    {
        let target = String::from_str(name);
        let mut i: usize = 0;
        while i < self.attributes.len()
            invariant
                i <= self.attributes@.len(),
                target@ == name@,
                forall|j: int| 0 <= j < i ==> self.attributes@[j].name@ != name@,
            decreases self.attributes@.len() - i,
        {
            let same = self.attributes[i].name.eq(&target);
            if same {
                proof {
                    assert(self.attribute_seq()[i as int].name@ == name@);
                }
                return Some(&self.attributes[i]);
            }
            i = i + 1;
        }
        None
    }

    /// The vertex indices, three per triangle.
    pub fn indices(&self) -> (r: Vec<u32>)
        ensures
            r@ == self.index_seq(),
    {
        let mut r: Vec<u32> = Vec::new();
        let mut i: usize = 0;
        while i < self.indices.len()
            invariant
                i <= self.indices@.len(),
                r@ == self.indices@.subrange(0, i as int),
            decreases self.indices@.len() - i,
        {
            r.push(self.indices[i]);
            i = i + 1;
        }
        proof {
            assert(r@ =~= self.indices@);
        }
        r
    }
}

} // verus!
