//! Paint transfer between two meshes of the same physical geometry
//! whose triangles no longer line up by index: triangles are matched
//! through a vertex correspondence and their canonicalized vertex
//! triples, and the matched paint is applied only after every match
//! is computed.
//!
//! The vertex correspondence itself (nearest-neighbor over the
//! target's vertex positions) is floating-point work done by the
//! caller; it arrives here as one target index per source vertex.

use vstd::prelude::*;

use crate::Error;
use crate::mesh::{Vertex, clone_opt_string};
use crate::model::{Object, ObjectData};

verus! {

/// A triangle of the splitting workflow: indices and the
/// flat-dialect paint attribute.
#[derive(Debug)]
pub struct Triangle {
    pub v1: usize,
    pub v2: usize,
    pub v3: usize,
    pub mmu_ps: Option<String>,
}

/// A mesh reduced to what paint matching needs: vertices and painted
/// triangles.
#[derive(Debug)]
pub struct SplitModel {
    pub vertices: Vec<Vertex>,
    pub triangles: Vec<Triangle>,
}

impl SplitModel {
    /// Every triangle's indices lie within the vertex list.
    pub open spec fn wf(&self) -> bool {
        forall|i: int|
            0 <= i < self.triangles@.len() ==> {
                let t = #[trigger] self.triangles@[i];
                t.v1 < self.vertices@.len() && t.v2 < self.vertices@.len() && t.v3
                    < self.vertices@.len()
            }
    }

    /// Extracts the matching view of a mesh-variant object.
    pub fn from_object(object: &Object) -> (r: Result<SplitModel, Error>)
        ensures
            (match object.object {
                ObjectData::Mesh(..) => {
                    let m = object.object->Mesh_0;
                    &&& r matches Ok(s)
                    &&& s.vertices@ == m.verts()
                    &&& s.triangles@.len() == m.tris().len()
                    &&& forall|i: int|
                        0 <= i < m.tris().len() ==> {
                            let t = #[trigger] s.triangles@[i];
                            let u = m.tris()[i];
                            t.v1 == u.v1 && t.v2 == u.v2 && t.v3 == u.v3 && t.mmu_ps == u.mmu_ps
                        }
                },
                ObjectData::Components { .. } => r == Result::<SplitModel, Error>::Err(
                    Error::UnsupportedShape,
                ),
            }),
    {
        let mesh: &crate::mesh::Mesh;
        match &object.object {
            ObjectData::Mesh(m) => {
                mesh = m;
            },
            ObjectData::Components { .. } => {
                return Result::Err(Error::UnsupportedShape);
            },
        }
        let vertices = crate::mesh::clone_vertex_vec(&mesh.vertices.vertex);
        let n = mesh.triangles.triangle.len();
        let mut triangles: Vec<Triangle> = Vec::new();
        let mut i: usize = 0;
        while i < n
            invariant
                n == mesh.tris().len(),
                i <= n,
                triangles@.len() == i,
                forall|k: int|
                    0 <= k < i ==> {
                        let t = #[trigger] triangles@[k];
                        let u = mesh.tris()[k];
                        t.v1 == u.v1 && t.v2 == u.v2 && t.v3 == u.v3 && t.mmu_ps == u.mmu_ps
                    },
            decreases n - i,
        {
            let u = &mesh.triangles.triangle[i];
            triangles.push(
                Triangle { v1: u.v1, v2: u.v2, v3: u.v3, mmu_ps: clone_opt_string(&u.mmu_ps) },
            );
            i = i + 1;
        }
        Result::Ok(SplitModel { vertices, triangles })
    }

    /// Writes the matched triangles back onto a mesh-variant object,
    /// replacing its triangle list; the hierarchical-dialect paint of
    /// the written triangles is empty.
    pub fn update_object(&self, object: &mut Object) -> (r: Result<(), Error>)
        ensures
            (match old(object).object {
                ObjectData::Mesh(..) => {
                    let m1 = final(object).object->Mesh_0;
                    &&& r is Ok
                    &&& final(object).object matches ObjectData::Mesh(..)
                    &&& final(object).id == old(object).id
                    &&& final(object).partnumber == old(object).partnumber
                    &&& final(object).name == old(object).name
                    &&& final(object).uuid == old(object).uuid
                    &&& final(object).pid == old(object).pid
                    &&& final(object).ty == old(object).ty
                    &&& m1.vertices == old(object).object->Mesh_0.vertices
                    &&& m1.tris().len() == self.triangles@.len()
                    &&& forall|i: int|
                        0 <= i < self.triangles@.len() ==> {
                            let t = #[trigger] m1.tris()[i];
                            let u = self.triangles@[i];
                            t.v1 == u.v1 && t.v2 == u.v2 && t.v3 == u.v3 && t.mmu_ps == u.mmu_ps
                                && t.mmu_orca is None
                        }
                },
                ObjectData::Components { .. } => r == Result::<(), Error>::Err(
                    Error::UnsupportedShape,
                ) && *final(object) == *old(object),
            }),
    {
        let mesh: &mut crate::mesh::Mesh;
        match &mut object.object {
            ObjectData::Mesh(m) => {
                mesh = m;
            },
            ObjectData::Components { .. } => {
                return Result::Err(Error::UnsupportedShape);
            },
        }
        mesh.triangles.triangle.clear();
        let n = self.triangles.len();
        let mut i: usize = 0;
        while i < n
            invariant
                n == self.triangles@.len(),
                i <= n,
                mesh.tris().len() == i,
                mesh.vertices == old(object).object->Mesh_0.vertices,
                forall|k: int|
                    0 <= k < i ==> {
                        let t = #[trigger] mesh.tris()[k];
                        let u = self.triangles@[k];
                        t.v1 == u.v1 && t.v2 == u.v2 && t.v3 == u.v3 && t.mmu_ps == u.mmu_ps
                            && t.mmu_orca is None
                    },
            decreases n - i,
        {
            let u = &self.triangles[i];
            mesh.triangles.triangle.push(
                crate::mesh::Triangle {
                    v1: u.v1,
                    v2: u.v2,
                    v3: u.v3,
                    mmu_ps: clone_opt_string(&u.mmu_ps),
                    mmu_orca: Option::None,
                },
            );
            i = i + 1;
        }
        Result::Ok(())
    }

    /// Whether any triangle carries paint.
    pub fn is_painted(&self) -> (r: bool)
        ensures
            r == exists|i: int|
                0 <= i < self.triangles@.len() && (#[trigger] self.triangles@[i]).mmu_ps is Some,
    {
        let n = self.triangles.len();
        let mut i: usize = 0;
        while i < n
            invariant
                n == self.triangles@.len(),
                i <= n,
                forall|k: int| 0 <= k < i ==> (#[trigger] self.triangles@[k]).mmu_ps is None,
            decreases n - i,
        {
            if self.triangles[i].mmu_ps.is_some() {
                return true;
            }
            i = i + 1;
        }
        false
    }
}

/// Three indices in ascending order.
pub open spec fn sorted3(a: usize, b: usize, c: usize) -> (usize, usize, usize) {
    let x = if a <= b {
        a
    } else {
        b
    };
    let y = if a <= b {
        b
    } else {
        a
    };
    if c <= x {
        (c, x, y)
    } else if c <= y {
        (x, c, y)
    } else {
        (x, y, c)
    }
}

/// Sorts three indices.
fn sort3(a: usize, b: usize, c: usize) -> (r: (usize, usize, usize))
    ensures
        r == sorted3(a, b, c),
{
    let (x, y) = if a <= b {
        (a, b)
    } else {
        (b, a)
    };
    if c <= x {
        (c, x, y)
    } else if c <= y {
        (x, c, y)
    } else {
        (x, y, c)
    }
}

/// The canonicalized identity of a triangle: its vertex indices in
/// ascending order, independent of rotation and winding.
pub open spec fn tri_key(t: Triangle) -> (usize, usize, usize) {
    sorted3(t.v1, t.v2, t.v3)
}

/// The canonicalized identity a painted triangle maps to: its three
/// vertices taken through the vertex correspondence, sorted.
pub open spec fn mapped_key(t: Triangle, nearest: Seq<usize>) -> (usize, usize, usize) {
    sorted3(nearest[t.v1 as int], nearest[t.v2 as int], nearest[t.v3 as int])
}

/// The triangle a canonical key resolves to: the highest index whose
/// key matches, as a lookup table filled in index order would have
/// it.
pub open spec fn last_key_match(stris: Seq<Triangle>, key: (usize, usize, usize)) -> Option<int>
    decreases stris.len(),
{
    if stris.len() == 0 {
        Option::None
    } else if tri_key(stris.last()) == key {
        Option::Some(stris.len() - 1)
    } else {
        last_key_match(stris.drop_last(), key)
    }
}

/// The matched updates, in source order: for every painted source
/// triangle whose mapped key resolves to a target triangle, the
/// target position and the paint string; an unmatched triangle is
/// dropped.
pub open spec fn updates_of(
    ptris: Seq<Triangle>,
    nearest: Seq<usize>,
    stris: Seq<Triangle>,
) -> Seq<(usize, String)>
    decreases ptris.len(),
{
    if ptris.len() == 0 {
        Seq::empty()
    } else {
        let rest = updates_of(ptris.drop_last(), nearest, stris);
        let t = ptris.last();
        if t.mmu_ps is Some {
            match last_key_match(stris, mapped_key(t, nearest)) {
                Option::Some(k) => rest.push((k as usize, t.mmu_ps->0)),
                Option::None => rest,
            }
        } else {
            rest
        }
    }
}

/// The update that lands last on a target triangle, if any.
pub open spec fn last_update_for(updates: Seq<(usize, String)>, k: int) -> Option<int>
    decreases updates.len(),
{
    if updates.len() == 0 {
        Option::None
    } else if updates.last().0 == k {
        Option::Some(updates.len() - 1)
    } else {
        last_update_for(updates.drop_last(), k)
    }
}

/// A resolved key lies within the target's triangle list.
proof fn lemma_last_key_match_range(stris: Seq<Triangle>, key: (usize, usize, usize))
    ensures
        (match last_key_match(stris, key) {
            Option::Some(k) => 0 <= k < stris.len(),
            Option::None => true,
        }),
    decreases stris.len(),
{
    if stris.len() > 0 && tri_key(stris.last()) != key {
        lemma_last_key_match_range(stris.drop_last(), key);
    }
}

/// Every recorded update targets a triangle of the target list.
proof fn lemma_updates_bounded(ptris: Seq<Triangle>, nearest: Seq<usize>, stris: Seq<Triangle>)
    ensures
        forall|x: int|
            0 <= x < updates_of(ptris, nearest, stris).len() ==> (#[trigger] updates_of(
                ptris,
                nearest,
                stris,
            )[x]).0 < stris.len(),
    decreases ptris.len(),
{
    if ptris.len() > 0 {
        lemma_updates_bounded(ptris.drop_last(), nearest, stris);
        lemma_last_key_match_range(stris, mapped_key(ptris.last(), nearest));
        let rest = updates_of(ptris.drop_last(), nearest, stris);
        let t = ptris.last();
        let whole = updates_of(ptris, nearest, stris);
        assert forall|x: int| 0 <= x < whole.len() implies (#[trigger] whole[x]).0
            < stris.len() by {
            if t.mmu_ps is Some && last_key_match(stris, mapped_key(t, nearest)) is Some {
                if x < rest.len() {
                    assert(whole[x] == rest[x]);
                } else {
                    assert(whole[x].0 == last_key_match(stris, mapped_key(t, nearest))->0
                        as usize);
                }
            } else {
                assert(whole == rest);
                assert(whole[x] == rest[x]);
            }
        }
    }
}

/// Transfers paint from a painted mesh onto a re-triangulated mesh of
/// the same geometry: every painted source triangle's vertices are
/// taken through the vertex correspondence, the sorted triple is
/// looked up among the target's canonicalized triangles, and all the
/// matched paint strings are applied only after the whole matching
/// phase; a source triangle without a counterpart is dropped.
pub fn convert_paint(painted: &SplitModel, split: &mut SplitModel, nearest: &Vec<usize>) -> (r:
    Result<(), Error>)
    requires
        nearest@.len() == painted.vertices@.len(),
        painted.wf(),
        forall|j: int| 0 <= j < nearest@.len() ==> (#[trigger] nearest@[j]) < old(
            split,
        ).vertices@.len(),
    ensures
        r is Ok,
        final(split).vertices@ == old(split).vertices@,
        final(split).triangles@.len() == old(split).triangles@.len(),
        forall|k: int|
            0 <= k < old(split).triangles@.len() ==> {
                let t = #[trigger] final(split).triangles@[k];
                let s = old(split).triangles@[k];
                &&& t.v1 == s.v1
                &&& t.v2 == s.v2
                &&& t.v3 == s.v3
                &&& t.mmu_ps == (match last_update_for(
                    updates_of(painted.triangles@, nearest@, old(split).triangles@),
                    k,
                ) {
                    Option::Some(u) => Option::Some(
                        updates_of(painted.triangles@, nearest@, old(split).triangles@)[u].1,
                    ),
                    Option::None => s.mmu_ps,
                })
            },
{
    let ghost ptris = painted.triangles@;
    let ghost stris0 = split.triangles@;
    let np = painted.triangles.len();
    let ns = split.triangles.len();
    let mut updates: Vec<(usize, String)> = Vec::new();
    let mut j: usize = 0;
    proof {
        assert(ptris.take(0) =~= Seq::<Triangle>::empty());
    }
    while j < np
        invariant
            *split == *old(split),
            np == ptris.len(),
            ns == stris0.len(),
            ptris == painted.triangles@,
            stris0 == split.triangles@,
            nearest@.len() == painted.vertices@.len(),
            painted.wf(),
            j <= np,
            updates@ == updates_of(ptris.take(j as int), nearest@, stris0),
        decreases np - j,
    {
        let t = &painted.triangles[j];
        let ghost pre_updates = updates@;
        if t.mmu_ps.is_some() {
            let key = sort3(nearest[t.v1], nearest[t.v2], nearest[t.v3]);
            // Scan for the highest target triangle with this key, as
            // an index-ordered lookup table would resolve it.
            let mut found: Option<usize> = Option::None;
            let mut k: usize = 0;
            proof {
                assert(stris0.take(0) =~= Seq::<Triangle>::empty());
            }
            while k < ns
                invariant
                    ns == stris0.len(),
                    stris0 == split.triangles@,
                    k <= ns,
                    found == (match last_key_match(stris0.take(k as int), key) {
                        Option::Some(x) => Option::Some(x as usize),
                        Option::None => Option::<usize>::None,
                    }),
                decreases ns - k,
            {
                let s = &split.triangles[k];
                let sk = sort3(s.v1, s.v2, s.v3);
                proof {
                    assert(stris0.take(k + 1).drop_last() =~= stris0.take(k as int));
                    assert(stris0.take(k + 1).last() == stris0[k as int]);
                }
                if sk.0 == key.0 && sk.1 == key.1 && sk.2 == key.2 {
                    found = Option::Some(k);
                }
                k = k + 1;
            }
            proof {
                assert(stris0.take(ns as int) =~= stris0);
            }
            match found {
                Option::Some(kk) => {
                    let paint = clone_opt_string(&t.mmu_ps);
                    match paint {
                        Option::Some(p) => {
                            updates.push((kk, p));
                        },
                        Option::None => {},
                    }
                },
                Option::None => {},
            }
        }
        proof {
            assert(ptris.take(j + 1).drop_last() =~= ptris.take(j as int));
            assert(ptris.take(j + 1).last() == ptris[j as int]);
        }
        j = j + 1;
    }
    proof {
        assert(ptris.take(np as int) =~= ptris);
    }
    let ghost ups = updates_of(ptris, nearest@, stris0);
    proof {
        lemma_updates_bounded(ptris, nearest@, stris0);
    }
    // Apply the recorded updates in order: a later match on the same
    // target wins.
    let nu = updates.len();
    let mut u: usize = 0;
    proof {
        assert(ups.take(0) =~= Seq::<(usize, String)>::empty());
    }
    while u < nu
        invariant
            nu == ups.len(),
            updates@ == ups,
            u <= nu,
            split.vertices@ == old(split).vertices@,
            split.triangles@.len() == old(split).triangles@.len(),
            forall|x: int| 0 <= x < ups.len() ==> (#[trigger] ups[x]).0 < old(
                split,
            ).triangles@.len(),
            forall|k: int|
                0 <= k < old(split).triangles@.len() ==> {
                    let t = #[trigger] split.triangles@[k];
                    let s = old(split).triangles@[k];
                    &&& t.v1 == s.v1
                    &&& t.v2 == s.v2
                    &&& t.v3 == s.v3
                    &&& t.mmu_ps == (match last_update_for(ups.take(u as int), k) {
                        Option::Some(x) => Option::Some(ups[x].1),
                        Option::None => s.mmu_ps,
                    })
                },
        decreases nu - u,
    {
        let k = updates[u].0;
        let p = clone_update_paint(&updates, u);
        split.triangles[k].mmu_ps = Option::Some(p);
        proof {
            assert(ups.take(u + 1).drop_last() =~= ups.take(u as int));
            assert(ups.take(u + 1).last() == ups[u as int]);
        }
        u = u + 1;
    }
    proof {
        assert(ups.take(nu as int) =~= ups);
    }
    Result::Ok(())
}

/// Copies the paint string of one recorded update.
fn clone_update_paint(updates: &Vec<(usize, String)>, u: usize) -> (r: String)
    requires
        u < updates@.len(),
    ensures
        r == updates@[u as int].1,
{
    updates[u].1.clone()
}

} // verus!
