//! The hierarchical dialect's side metadata: per object, free-form
//! key/value properties and a list of parts keyed by sub-object id,
//! each with its own properties (notably the placement matrix) and
//! mesh-repair statistics.

use vstd::prelude::*;

use crate::mesh::clone_opt_string;
use crate::utils::opt_str_is;

verus! {

/// The whole side-metadata document.
#[derive(Debug)]
pub struct OrcaMetadata {
    pub object: Vec<Object>,
    pub assemble: Vec<Assemble>,
}

/// A key/value property.
#[derive(Debug)]
pub struct Metadata {
    pub key: Option<String>,
    pub value: Option<String>,
}

/// The metadata of one object: its properties and its parts.
#[derive(Debug)]
pub struct Object {
    pub id: usize,
    pub metadata: Vec<Metadata>,
    pub part: Vec<Part>,
}

/// The metadata of one part of an object.
#[derive(Debug)]
pub struct Part {
    pub id: usize,
    pub subtype: String,
    pub metadata: Vec<Metadata>,
    pub mesh_stat: MeshStat,
}

/// The mesh-repair statistics of a part.
#[derive(Debug, Clone, Copy, PartialEq, Eq, Structural)]
pub struct MeshStat {
    pub edges_fixed: usize,
    pub degenerate_facets: usize,
    pub facets_removed: usize,
    pub facets_reversed: usize,
    pub backwards_edges: usize,
}

/// An assembly record; carried through unchanged.
#[derive(Debug, Clone, Copy, PartialEq, Eq, Structural)]
pub struct Assemble {}

impl Clone for Metadata {
    fn clone(&self) -> (r: Self)
        ensures
            r == *self,
    {
        Metadata { key: clone_opt_string(&self.key), value: clone_opt_string(&self.value) }
    }
}

/// The first object entry with the given id, if any.
pub open spec fn find_object(objects: Seq<Object>, id: usize) -> Option<Object>
    decreases objects.len(),
{
    if objects.len() == 0 {
        Option::None
    } else if objects[0].id == id {
        Option::Some(objects[0])
    } else {
        find_object(objects.skip(1), id)
    }
}

/// The first part entry with the given id, if any.
pub open spec fn find_part(parts: Seq<Part>, id: usize) -> Option<Part>
    decreases parts.len(),
{
    if parts.len() == 0 {
        Option::None
    } else if parts[0].id == id {
        Option::Some(parts[0])
    } else {
        find_part(parts.skip(1), id)
    }
}

/// The first property with the given key, if any.
pub open spec fn find_keyed(md: Seq<Metadata>, key: Seq<char>) -> Option<Metadata>
    decreases md.len(),
{
    if md.len() == 0 {
        Option::None
    } else if md[0].key matches Some(k) && k@ == key {
        Option::Some(md[0])
    } else {
        find_keyed(md.skip(1), key)
    }
}

impl OrcaMetadata {
    /// Finds the metadata entry of the object with the given id.
    pub fn get_object_by_id(&self, id: usize) -> (r: Option<&Object>)
        ensures
            (match find_object(self.object@, id) {
                Option::Some(ob) => r matches Some(rr) && *rr == ob,
                Option::None => r is None,
            }),
    {
        let n = self.object.len();
        let mut i: usize = 0;
        proof {
            assert(self.object@.skip(0) =~= self.object@);
        }
        while i < n
            invariant
                n == self.object@.len(),
                i <= n,
                find_object(self.object@, id) == find_object(self.object@.skip(i as int), id),
            decreases n - i,
        {
            let ghost tail = self.object@.skip(i as int);
            proof {
                assert(tail[0] == self.object@[i as int]);
                assert(tail.skip(1) =~= self.object@.skip(i + 1));
            }
            if self.object[i].id == id {
                return Option::Some(&self.object[i]);
            }
            i = i + 1;
        }
        proof {
            assert(self.object@.skip(n as int) =~= Seq::<Object>::empty());
        }
        Option::None
    }
}

impl Object {
    /// Finds the part entry with the given sub-object id.
    pub fn get_part_by_id(&self, id: usize) -> (r: Option<&Part>)
        ensures
            (match find_part(self.part@, id) {
                Option::Some(p) => r matches Some(rr) && *rr == p,
                Option::None => r is None,
            }),
    {
        let n = self.part.len();
        let mut i: usize = 0;
        proof {
            assert(self.part@.skip(0) =~= self.part@);
        }
        while i < n
            invariant
                n == self.part@.len(),
                i <= n,
                find_part(self.part@, id) == find_part(self.part@.skip(i as int), id),
            decreases n - i,
        {
            let ghost tail = self.part@.skip(i as int);
            proof {
                assert(tail[0] == self.part@[i as int]);
                assert(tail.skip(1) =~= self.part@.skip(i + 1));
            }
            if self.part[i].id == id {
                return Option::Some(&self.part[i]);
            }
            i = i + 1;
        }
        proof {
            assert(self.part@.skip(n as int) =~= Seq::<Part>::empty());
        }
        Option::None
    }
}

/// Finds the first property with the given key and returns a copy of
/// its value.
pub fn get_keyed_value(md: &Vec<Metadata>, key: &str) -> (r: Option<Option<String>>)
    ensures
        (match find_keyed(md@, key@) {
            Option::Some(m) => r matches Some(v) && v == m.value,
            Option::None => r is None,
        }),
{
    let n = md.len();
    let mut i: usize = 0;
    proof {
        assert(md@.skip(0) =~= md@);
    }
    while i < n
        invariant
            n == md@.len(),
            i <= n,
            find_keyed(md@, key@) == find_keyed(md@.skip(i as int), key@),
        decreases n - i,
    {
        let ghost tail = md@.skip(i as int);
        proof {
            assert(tail[0] == md@[i as int]);
            assert(tail.skip(1) =~= md@.skip(i + 1));
        }
        if opt_str_is(&md[i].key, key) {
            return Option::Some(clone_opt_string(&md[i].value));
        }
        i = i + 1;
    }
    proof {
        assert(md@.skip(n as int) =~= Seq::<Metadata>::empty());
    }
    Option::None
}

} // verus!
