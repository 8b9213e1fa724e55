//! The flat dialect's side metadata: per object, an ordered list of
//! volumes, each spanning a contiguous triangle-index range of the
//! merged mesh and carrying mesh-repair statistics.

use vstd::prelude::*;

use crate::mesh::clone_opt_string;

verus! {

/// The whole side-metadata document.
#[derive(Debug)]
pub struct PSMetadata {
    pub object: Vec<Object>,
}

/// The metadata of one object.
#[derive(Debug)]
pub struct Object {
    pub id: usize,
    pub instances_count: usize,
    pub metadata: Vec<Metadata>,
    pub volume: Vec<Volume>,
}

/// A typed key/value property.
#[derive(Debug)]
pub struct Metadata {
    pub ty: String,
    pub key: Option<String>,
    pub value: Option<String>,
}

/// One volume: a contiguous triangle-index range `[firstid, lastid]`
/// of the merged mesh, its properties, and its repair statistics.
#[derive(Debug)]
pub struct Volume {
    pub firstid: usize,
    pub lastid: usize,
    pub metadata: Vec<Metadata>,
    pub mesh: Mesh,
}

/// The mesh-repair statistics of a volume.
#[derive(Debug, Clone, Copy, PartialEq, Eq, Structural)]
pub struct Mesh {
    pub edges_fixed: usize,
    pub degenerate_facets: usize,
    pub facets_removed: usize,
    pub facets_reversed: usize,
    pub backwards_edges: usize,
}

impl Clone for Metadata {
    fn clone(&self) -> (r: Self)
        ensures
            r == *self,
    {
        Metadata {
            ty: self.ty.clone(),
            key: clone_opt_string(&self.key),
            value: clone_opt_string(&self.value),
        }
    }
}

/// The first object entry with the given id, if any.
pub open spec fn find_object(objects: Seq<Object>, id: usize) -> Option<Object>
    decreases objects.len(),
{
    if objects.len() == 0 {
        Option::None
    } else if objects[0].id == id {
        Option::Some(objects[0])
    } else {
        find_object(objects.skip(1), id)
    }
}

/// The first metadata entry whose key is `name`, if any.
pub open spec fn find_name_entry(md: Seq<Metadata>) -> Option<Metadata>
    decreases md.len(),
{
    if md.len() == 0 {
        Option::None
    } else if md[0].key matches Some(k) && k@ == "name"@ {
        Option::Some(md[0])
    } else {
        find_name_entry(md.skip(1))
    }
}

impl PSMetadata {
    /// Finds the metadata entry of the object with the given id.
    pub fn get_object_by_id(&self, id: usize) -> (r: Option<&Object>)
        ensures
            (match find_object(self.object@, id) {
                Option::Some(ob) => r matches Some(rr) && *rr == ob,
                Option::None => r is None,
            }),
    {
        let n = self.object.len();
        let mut i: usize = 0;
        proof {
            assert(self.object@.skip(0) =~= self.object@);
        }
        while i < n
            invariant
                n == self.object@.len(),
                i <= n,
                find_object(self.object@, id) == find_object(self.object@.skip(i as int), id),
            decreases n - i,
        {
            let ghost tail = self.object@.skip(i as int);
            proof {
                assert(tail[0] == self.object@[i as int]);
                assert(tail.skip(1) =~= self.object@.skip(i + 1));
            }
            if self.object[i].id == id {
                return Option::Some(&self.object[i]);
            }
            i = i + 1;
        }
        proof {
            assert(self.object@.skip(n as int) =~= Seq::<Object>::empty());
        }
        Option::None
    }
}

impl Object {
    /// The object's name: the value of its first `name` property.
    pub fn get_name(&self) -> (r: Option<String>)
        ensures
            (match find_name_entry(self.metadata@) {
                Option::Some(m) => r == m.value,
                Option::None => r is None,
            }),
    {
        let n = self.metadata.len();
        let mut i: usize = 0;
        proof {
            assert(self.metadata@.skip(0) =~= self.metadata@);
        }
        while i < n
            invariant
                n == self.metadata@.len(),
                i <= n,
                find_name_entry(self.metadata@) == find_name_entry(
                    self.metadata@.skip(i as int),
                ),
            decreases n - i,
        {
            let ghost tail = self.metadata@.skip(i as int);
            proof {
                assert(tail[0] == self.metadata@[i as int]);
                assert(tail.skip(1) =~= self.metadata@.skip(i + 1));
            }
            let is_name = crate::utils::opt_str_is(&self.metadata[i].key, "name");
            if is_name {
                return clone_opt_string(&self.metadata[i].value);
            }
            i = i + 1;
        }
        proof {
            assert(self.metadata@.skip(n as int) =~= Seq::<Metadata>::empty());
        }
        Option::None
    }
}

} // verus!
