//! The 3MF document tree: resources, objects, components and build
//! items, shaped as the documents store them.
//!
//! Transform attributes are carried as twelve opaque 64-bit scalar
//! codes (a row-major 3x4 affine matrix); composing and applying them
//! is the surrounding application's floating-point work.

use vstd::prelude::*;

use crate::Error;
use crate::mesh::Mesh;
use crate::mesh::clone_opt_string;

verus! {

/// A model document.
#[derive(Debug)]
pub struct Model {
    pub xmlns: String,
    pub bambustudio: String,
    pub p: String,
    pub requiredextensions: String,
    pub metadata: Vec<Metadata>,
    pub resources: Resources,
    pub build: Build,
    pub unit: Unit,
}

/// The measurement unit of a model document.
#[derive(Debug, Clone, Copy, PartialEq, Eq, Structural)]
pub enum Unit {
    Micron,
    Millimeter,
    Centimeter,
    Inch,
    Foot,
    Meter,
}

/// A named metadata entry of a document.
#[derive(Debug)]
pub struct Metadata {
    pub name: String,
    pub value: Option<String>,
}

/// The resource list of a document.
#[derive(Debug)]
pub struct Resources {
    pub object: Vec<Object>,
}

/// One object resource: identification plus its data, which is either
/// a self-contained mesh or a list of components.
#[derive(Debug)]
pub struct Object {
    pub id: usize,
    pub partnumber: Option<String>,
    pub name: Option<String>,
    pub uuid: Option<String>,
    pub pid: Option<usize>,
    pub ty: Option<String>,
    pub object: ObjectData,
}

/// The data of an object.
#[derive(Debug)]
pub enum ObjectData {
    Mesh(Mesh),
    Components { component: Vec<Component> },
}

/// A reference from an object to an externally stored sub-document:
/// the target object id, an optional local placement transform, and
/// the path of the sub-document.
#[derive(Debug)]
pub struct Component {
    pub objectid: usize,
    pub transform: Option<[u64; 12]>,
    pub uuid: Option<String>,
    pub path: Option<String>,
}

/// The build section: which objects are placed, and where.
#[derive(Debug)]
pub struct Build {
    pub item: Vec<Item>,
}

/// One placed object of the build section.
#[derive(Debug)]
pub struct Item {
    pub objectid: usize,
    pub transform: Option<[u64; 12]>,
    pub partnumber: Option<String>,
}

impl Clone for Metadata {
    fn clone(&self) -> (r: Self)
        ensures
            r == *self,
    {
        Metadata { name: self.name.clone(), value: clone_opt_string(&self.value) }
    }
}

impl Clone for Component {
    fn clone(&self) -> (r: Self)
        ensures
            r == *self,
    {
        Component {
            objectid: self.objectid,
            transform: self.transform,
            uuid: clone_opt_string(&self.uuid),
            path: clone_opt_string(&self.path),
        }
    }
}

impl Clone for Item {
    fn clone(&self) -> (r: Self)
        ensures
            r == *self,
    {
        Item {
            objectid: self.objectid,
            transform: self.transform,
            partnumber: clone_opt_string(&self.partnumber),
        }
    }
}

/// Copies a metadata list element for element.
pub fn clone_metadata_vec(v: &Vec<Metadata>) -> (r: Vec<Metadata>)
    ensures
        r@ == v@,
{
    let mut r: Vec<Metadata> = Vec::new();
    let mut i: usize = 0;
    while i < v.len()
        invariant
            i <= v@.len(),
            r@ =~= v@.subrange(0, i as int),
        decreases v@.len() - i,
    {
        r.push(v[i].clone());
        i = i + 1;
    }
    proof {
        assert(r@ =~= v@);
    }
    r
}

/// Copies a component list element for element.
pub fn clone_component_vec(v: &Vec<Component>) -> (r: Vec<Component>)
    ensures
        r@ == v@,
{
    let mut r: Vec<Component> = Vec::new();
    let mut i: usize = 0;
    while i < v.len()
        invariant
            i <= v@.len(),
            r@ =~= v@.subrange(0, i as int),
        decreases v@.len() - i,
    {
        r.push(v[i].clone());
        i = i + 1;
    }
    proof {
        assert(r@ =~= v@);
    }
    r
}

/// Copies a build item list element for element.
pub fn clone_item_vec(v: &Vec<Item>) -> (r: Vec<Item>)
    ensures
        r@ == v@,
{
    let mut r: Vec<Item> = Vec::new();
    let mut i: usize = 0;
    while i < v.len()
        invariant
            i <= v@.len(),
            r@ =~= v@.subrange(0, i as int),
        decreases v@.len() - i,
    {
        r.push(v[i].clone());
        i = i + 1;
    }
    proof {
        assert(r@ =~= v@);
    }
    r
}

impl ObjectData {
    /// The mesh of this object, if it is the mesh variant.
    pub fn get_mesh(&self) -> (r: Option<&Mesh>)
        ensures
            (match *self {
                ObjectData::Mesh(..) => r matches Some(m) && *m == self->Mesh_0,
                ObjectData::Components { .. } => r is None,
            }),
    {
        match self {
            ObjectData::Mesh(mesh) => Option::Some(mesh),
            _ => Option::None,
        }
    }

    /// The mesh of this object, for mutation, if it is the mesh
    /// variant; what the caller writes through the reference is what
    /// the object data ends up holding.
    pub fn get_mesh_mut(&mut self) -> (r: Option<&mut Mesh>)
        ensures
            (match *old(self) {
                ObjectData::Mesh(..) => r matches Some(m) && *m == old(self)->Mesh_0
                    && final(self)->Mesh_0 == *final(m)
                    && (*final(self)) matches ObjectData::Mesh(..),
                ObjectData::Components { .. } => r is None && *final(self) == *old(self),
            }),
    {
        match self {
            ObjectData::Mesh(mesh) => Option::Some(mesh),
            _ => Option::None,
        }
    }

    /// The component list of this object, for mutation, if it is the
    /// component variant.
    pub fn get_components_mut(&mut self) -> (r: Option<&mut Vec<Component>>)
        ensures
            (match *old(self) {
                ObjectData::Components { .. } => r matches Some(c) && (*c)@ == old(
                    self,
                )->Components_component@ && final(self)->Components_component@ == (*final(c))@
                    && (*final(self)) matches ObjectData::Components { .. },
                ObjectData::Mesh(..) => r is None && *final(self) == *old(self),
            }),
    {
        match self {
            ObjectData::Components { component } => Option::Some(component),
            _ => Option::None,
        }
    }

    /// The component list of this object, if it is the component
    /// variant.
    pub fn get_components(&self) -> (r: Option<&Vec<Component>>)
        ensures
            (match *self {
                ObjectData::Components { .. } => r matches Some(c) && c@
                    == self->Components_component@,
                ObjectData::Mesh(..) => r is None,
            }),
    {
        match self {
            ObjectData::Components { component } => Option::Some(component),
            _ => Option::None,
        }
    }
}

/// The first object resource with the given id, if any.
pub open spec fn find_object(objects: Seq<Object>, id: usize) -> Option<Object>
    decreases objects.len(),
{
    if objects.len() == 0 {
        Option::None
    } else if objects[0].id == id {
        Option::Some(objects[0])
    } else {
        find_object(objects.skip(1), id)
    }
}

/// The first build item whose object id matches, if any.
pub open spec fn find_item(items: Seq<Item>, id: usize) -> Option<Item>
    decreases items.len(),
{
    if items.len() == 0 {
        Option::None
    } else if items[0].objectid == id {
        Option::Some(items[0])
    } else {
        find_item(items.skip(1), id)
    }
}

impl Build {
    /// Finds the build item that places the object with the given id.
    pub fn get_item_by_id(&self, id: usize) -> (r: Option<&Item>)
        ensures
            (match find_item(self.item@, id) {
                Option::Some(it) => r matches Some(rr) && *rr == it,
                Option::None => r is None,
            }),
    {
        let n = self.item.len();
        let mut i: usize = 0;
        proof {
            assert(self.item@.skip(0) =~= self.item@);
        }
        while i < n
            invariant
                n == self.item@.len(),
                i <= n,
                find_item(self.item@, id) == find_item(self.item@.skip(i as int), id),
            decreases n - i,
        {
            let ghost tail = self.item@.skip(i as int);
            proof {
                assert(tail[0] == self.item@[i as int]);
                assert(tail.skip(1) =~= self.item@.skip(i + 1));
            }
            if self.item[i].objectid == id {
                return Option::Some(&self.item[i]);
            }
            i = i + 1;
        }
        proof {
            assert(self.item@.skip(n as int) =~= Seq::<Item>::empty());
        }
        Option::None
    }
}

impl Item {
    /// The translation row of the item's transform: the last three
    /// of its twelve scalar codes.
    pub fn get_xyz(&self) -> (r: Option<[u64; 3]>)
        ensures
            (match self.transform {
                Option::Some(t) => r matches Some(v) && v@ == seq![t@[9], t@[10], t@[11]],
                Option::None => r is None,
            }),
    {
        match &self.transform {
            Option::Some(t) => {
                let r = [t[9], t[10], t[11]];
                proof {
                    assert(r@ =~= seq![self.transform->0@[9], self.transform->0@[10], self.transform->0@[11]]);
                }
                Option::Some(r)
            },
            Option::None => Option::None,
        }
    }
}

impl Model {
    /// Moves every object's hierarchical-dialect paint into the
    /// flat-dialect attribute, ahead of a flat-dialect save. A
    /// document still holding component lists is rejected untouched.
    pub fn to_ps(&mut self) -> (r: Result<(), Error>)
        ensures
            (if forall|i: int|
                0 <= i < old(self).resources.object@.len() ==> (
                #[trigger] old(self).resources.object@[i].object) matches ObjectData::Mesh(..) {
                &&& r is Ok
                &&& final(self).xmlns == old(self).xmlns
                &&& final(self).bambustudio == old(self).bambustudio
                &&& final(self).p == old(self).p
                &&& final(self).requiredextensions == old(self).requiredextensions
                &&& final(self).metadata == old(self).metadata
                &&& final(self).build == old(self).build
                &&& final(self).unit == old(self).unit
                &&& final(self).resources.object@.len() == old(self).resources.object@.len()
                &&& forall|i: int|
                    0 <= i < old(self).resources.object@.len() ==> {
                        let b0 = old(self).resources.object@[i];
                        let b1 = #[trigger] final(self).resources.object@[i];
                        &&& b1.id == b0.id
                        &&& b1.partnumber == b0.partnumber
                        &&& b1.name == b0.name
                        &&& b1.uuid == b0.uuid
                        &&& b1.pid == b0.pid
                        &&& b1.ty == b0.ty
                        &&& b1.object matches ObjectData::Mesh(..)
                        &&& b1.object->Mesh_0.vertices == b0.object->Mesh_0.vertices
                        &&& b1.object->Mesh_0.tris().len() == b0.object->Mesh_0.tris().len()
                        &&& forall|k: int|
                            0 <= k < b0.object->Mesh_0.tris().len() ==> {
                                let t = #[trigger] b1.object->Mesh_0.tris()[k];
                                let s = b0.object->Mesh_0.tris()[k];
                                &&& t.v1 == s.v1
                                &&& t.v2 == s.v2
                                &&& t.v3 == s.v3
                                &&& t.mmu_orca is None
                                &&& t.mmu_ps == (if s.mmu_orca is Some {
                                    s.mmu_orca
                                } else {
                                    s.mmu_ps
                                })
                            }
                    }
            } else {
                r == Result::<(), Error>::Err(Error::UnsupportedShape) && *final(self) == *old(
                    self,
                )
            }),
    {
        let n = self.resources.object.len();
        let mut i: usize = 0;
        while i < n
            invariant
                *self == *old(self),
                n == self.resources.object@.len(),
                i <= n,
                forall|x: int|
                    0 <= x < i ==> (#[trigger] self.resources.object@[x].object) matches
                        ObjectData::Mesh(..),
            decreases n - i,
        {
            match &self.resources.object[i].object {
                ObjectData::Mesh(..) => {},
                ObjectData::Components { .. } => {
                    return Result::Err(Error::UnsupportedShape);
                },
            }
            i = i + 1;
        }
        let mut i: usize = 0;
        while i < n
            invariant
                n == self.resources.object@.len(),
                n == old(self).resources.object@.len(),
                i <= n,
                self.xmlns == old(self).xmlns,
                self.bambustudio == old(self).bambustudio,
                self.p == old(self).p,
                self.requiredextensions == old(self).requiredextensions,
                self.metadata == old(self).metadata,
                self.build == old(self).build,
                self.unit == old(self).unit,
                forall|x: int|
                    0 <= x < n ==> (#[trigger] old(self).resources.object@[x].object) matches
                        ObjectData::Mesh(..),
                forall|x: int|
                    i <= x < n ==> #[trigger] self.resources.object@[x] == old(
                        self,
                    ).resources.object@[x],
                forall|x: int|
                    0 <= x < i ==> {
                        let b0 = old(self).resources.object@[x];
                        let b1 = #[trigger] self.resources.object@[x];
                        &&& b1.id == b0.id
                        &&& b1.partnumber == b0.partnumber
                        &&& b1.name == b0.name
                        &&& b1.uuid == b0.uuid
                        &&& b1.pid == b0.pid
                        &&& b1.ty == b0.ty
                        &&& b1.object matches ObjectData::Mesh(..)
                        &&& b1.object->Mesh_0.vertices == b0.object->Mesh_0.vertices
                        &&& b1.object->Mesh_0.tris().len() == b0.object->Mesh_0.tris().len()
                        &&& forall|k: int|
                            0 <= k < b0.object->Mesh_0.tris().len() ==> {
                                let t = #[trigger] b1.object->Mesh_0.tris()[k];
                                let s = b0.object->Mesh_0.tris()[k];
                                &&& t.v1 == s.v1
                                &&& t.v2 == s.v2
                                &&& t.v3 == s.v3
                                &&& t.mmu_orca is None
                                &&& t.mmu_ps == (if s.mmu_orca is Some {
                                    s.mmu_orca
                                } else {
                                    s.mmu_ps
                                })
                            }
                    },
            decreases n - i,
        {
            match &mut self.resources.object[i].object {
                ObjectData::Mesh(m) => {
                    m.to_ps();
                },
                ObjectData::Components { .. } => {},
            }
            i = i + 1;
        }
        Result::Ok(())
    }
}

impl Default for Model {
    /// An empty document with the standard namespace.
    fn default() -> (r: Self)
        ensures
            r.xmlns@ == "http://schemas.microsoft.com/3dmanufacturing/core/2015/02"@,
            r.bambustudio@.len() == 0,
            r.p@.len() == 0,
            r.requiredextensions@.len() == 0,
            r.metadata@.len() == 0,
            r.resources.object@.len() == 0,
            r.build.item@.len() == 0,
            r.unit == Unit::Millimeter,
    {
        Model {
            xmlns: String::from_str(
                "http://schemas.microsoft.com/3dmanufacturing/core/2015/02",
            ),
            bambustudio: String::new(),
            p: String::new(),
            requiredextensions: String::new(),
            metadata: Vec::new(),
            resources: Resources { object: Vec::new() },
            build: Build { item: Vec::new() },
            unit: Unit::Millimeter,
        }
    }
}

impl Default for Unit {
    fn default() -> (r: Self)
        ensures
            r == Unit::Millimeter,
    {
        Unit::Millimeter
    }
}

} // verus!
