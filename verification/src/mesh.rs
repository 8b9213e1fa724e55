//! The triangle mesh of the data model: an ordered vertex list and an
//! ordered triangle list whose entries index into it.
//!
//! Vertex coordinates are opaque 64-bit scalar codes. The library
//! concatenates and copies them but never interprets them as numbers;
//! placement arithmetic belongs to the surrounding application.

use vstd::prelude::*;

verus! {

/// A vertex position, each coordinate an opaque 64-bit scalar code.
#[derive(Debug, Clone, Copy, PartialEq, Eq, Structural)]
pub struct Vertex {
    pub x: u64,
    pub y: u64,
    pub z: u64,
}

/// A triangle: three indices into the owning mesh's vertex list, plus
/// the two mutually exclusive dialect-specific paint attributes.
#[derive(Debug)]
pub struct Triangle {
    pub v1: usize,
    pub v2: usize,
    pub v3: usize,
    /// Flat-dialect paint attribute.
    pub mmu_ps: Option<String>,
    /// Hierarchical-dialect paint attribute.
    pub mmu_orca: Option<String>,
}

impl Triangle {
    /// All three vertex indices lie below the given vertex count.
    pub open spec fn indices_ok(&self, n: nat) -> bool {
        self.v1 < n && self.v2 < n && self.v3 < n
    }

    /// A triangle never carries both dialects' paint at once.
    pub open spec fn paint_exclusive(&self) -> bool {
        !(self.mmu_ps is Some && self.mmu_orca is Some)
    }
}

/// The vertex list, wrapped to mirror the document structure.
#[derive(Debug)]
pub struct Vertices {
    pub vertex: Vec<Vertex>,
}

/// The triangle list, wrapped to mirror the document structure.
#[derive(Debug)]
pub struct Triangles {
    pub triangle: Vec<Triangle>,
}

/// A triangle mesh.
#[derive(Debug)]
pub struct Mesh {
    pub vertices: Vertices,
    pub triangles: Triangles,
}

/// Copies an optional paint string, preserving its value exactly.
pub fn clone_opt_string(o: &Option<String>) -> (r: Option<String>)
    ensures
        r == *o,
{
    match o {
        Option::Some(s) => Option::Some(s.clone()),
        Option::None => Option::None,
    }
}

impl Clone for Triangle {
    fn clone(&self) -> (r: Self)
        ensures
            r == *self,
    {
        Triangle {
            v1: self.v1,
            v2: self.v2,
            v3: self.v3,
            mmu_ps: clone_opt_string(&self.mmu_ps),
            mmu_orca: clone_opt_string(&self.mmu_orca),
        }
    }
}

/// Copies a vertex list element for element.
pub fn clone_vertex_vec(v: &Vec<Vertex>) -> (r: Vec<Vertex>)
    ensures
        r@ == v@,
{
    let mut r: Vec<Vertex> = Vec::new();
    let mut i: usize = 0;
    while i < v.len()
        invariant
            i <= v@.len(),
            r@ =~= v@.subrange(0, i as int),
        decreases v@.len() - i,
    {
        r.push(v[i]);
        i = i + 1;
    }
    proof {
        assert(r@ =~= v@);
    }
    r
}

/// Copies a triangle list element for element.
pub fn clone_triangle_vec(v: &Vec<Triangle>) -> (r: Vec<Triangle>)
    ensures
        r@ == v@,
{
    let mut r: Vec<Triangle> = Vec::new();
    let mut i: usize = 0;
    while i < v.len()
        invariant
            i <= v@.len(),
            r@ =~= v@.subrange(0, i as int),
        decreases v@.len() - i,
    {
        r.push(v[i].clone());
        i = i + 1;
    }
    proof {
        assert(r@ =~= v@);
    }
    r
}

impl Clone for Vertices {
    fn clone(&self) -> (r: Self)
        ensures
            r.vertex@ == self.vertex@,
    {
        Vertices { vertex: clone_vertex_vec(&self.vertex) }
    }
}

impl Clone for Triangles {
    fn clone(&self) -> (r: Self)
        ensures
            r.triangle@ == self.triangle@,
    {
        Triangles { triangle: clone_triangle_vec(&self.triangle) }
    }
}

impl Clone for Mesh {
    fn clone(&self) -> (r: Self)
        ensures
            r.verts() == self.verts(),
            r.tris() == self.tris(),
    {
        Mesh { vertices: self.vertices.clone(), triangles: self.triangles.clone() }
    }
}

impl Mesh {
    /// The vertex sequence of the mesh.
    pub open spec fn verts(&self) -> Seq<Vertex> {
        self.vertices.vertex@
    }

    /// The triangle sequence of the mesh.
    pub open spec fn tris(&self) -> Seq<Triangle> {
        self.triangles.triangle@
    }

    /// Every triangle's indices lie within the vertex list.
    pub open spec fn wf(&self) -> bool {
        forall|i: int|
            0 <= i < self.tris().len() ==> (#[trigger] self.tris()[i]).indices_ok(
                self.verts().len(),
            )
    }

    /// Every triangle carries at most one dialect's paint.
    pub open spec fn paint_exclusive(&self) -> bool {
        forall|i: int|
            0 <= i < self.tris().len() ==> (#[trigger] self.tris()[i]).paint_exclusive()
    }

    /// Appends `other` to this mesh: vertex lists are concatenated and
    /// the appended triangles' indices are rebased by this mesh's
    /// previous vertex count. Returns that rebasing offset.
    pub fn merge(&mut self, other: &Mesh) -> (offset: usize)
        requires
            old(self).verts().len() + other.verts().len() <= usize::MAX,
            other.wf(),
        ensures
            offset == old(self).verts().len(),
            final(self).verts() == old(self).verts() + other.verts(),
            final(self).tris().len() == old(self).tris().len() + other.tris().len(),
            forall|i: int|
                0 <= i < old(self).tris().len() ==> #[trigger] final(self).tris()[i] == old(
                    self,
                ).tris()[i],
            forall|i: int|
                0 <= i < other.tris().len() ==> {
                    let t = #[trigger] final(self).tris()[old(self).tris().len() + i];
                    let s = other.tris()[i];
                    t.v1 == s.v1 + offset && t.v2 == s.v2 + offset && t.v3 == s.v3 + offset
                        && t.mmu_ps == s.mmu_ps && t.mmu_orca == s.mmu_orca
                },
            old(self).wf() ==> final(self).wf(),
    {
        let offset = self.vertices.vertex.len();
        let ghost old_verts = self.verts();
        let ghost old_tris = self.tris();
        let mut i: usize = 0;
        while i < other.vertices.vertex.len()
            invariant
                i <= other.verts().len(),
                self.verts() =~= old_verts + other.verts().subrange(0, i as int),
                self.triangles == old(self).triangles,
            decreases other.verts().len() - i,
        {
            self.vertices.vertex.push(other.vertices.vertex[i]);
            i = i + 1;
        }
        proof {
            assert(self.verts() =~= old_verts + other.verts());
        }
        let mut j: usize = 0;
        while j < other.triangles.triangle.len()
            invariant
                j <= other.tris().len(),
                offset == old_verts.len(),
                old_verts.len() + other.verts().len() <= usize::MAX,
                self.verts() == old_verts + other.verts(),
                other.wf(),
                self.tris().len() == old_tris.len() + j,
                forall|i: int|
                    0 <= i < old_tris.len() ==> #[trigger] self.tris()[i] == old_tris[i],
                forall|i: int|
                    0 <= i < j ==> {
                        let t = #[trigger] self.tris()[old_tris.len() + i];
                        let s = other.tris()[i];
                        t.v1 == s.v1 + offset && t.v2 == s.v2 + offset && t.v3 == s.v3 + offset
                            && t.mmu_ps == s.mmu_ps && t.mmu_orca == s.mmu_orca
                    },
            decreases other.tris().len() - j,
        {
            let t = &other.triangles.triangle[j];
            proof {
                assert(other.tris()[j as int].indices_ok(other.verts().len()));
            }
            self.triangles.triangle.push(
                Triangle {
                    v1: t.v1 + offset,
                    v2: t.v2 + offset,
                    v3: t.v3 + offset,
                    mmu_ps: clone_opt_string(&t.mmu_ps),
                    mmu_orca: clone_opt_string(&t.mmu_orca),
                },
            );
            j = j + 1;
        }
        proof {
            if old(self).wf() {
                assert forall|i: int| 0 <= i < self.tris().len() implies (
                #[trigger] self.tris()[i]).indices_ok(self.verts().len()) by {
                    if i < old_tris.len() {
                        assert(self.tris()[i] == old_tris[i]);
                        assert(old(self).tris()[i].indices_ok(old_verts.len()));
                    } else {
                        let k = i - old_tris.len();
                        let t = self.tris()[old_tris.len() + k];
                        assert(other.tris()[k].indices_ok(other.verts().len()));
                        assert(t.v1 == other.tris()[k].v1 + offset);
                    }
                }
            }
        }
        offset
    }

    /// Moves every triangle's hierarchical-dialect paint into the
    /// flat-dialect attribute; a present value replaces whatever the
    /// flat-dialect attribute held.
    pub fn to_ps(&mut self)
        ensures
            final(self).vertices == old(self).vertices,
            final(self).tris().len() == old(self).tris().len(),
            forall|i: int|
                0 <= i < old(self).tris().len() ==> {
                    let t = #[trigger] final(self).tris()[i];
                    let s = old(self).tris()[i];
                    t.v1 == s.v1 && t.v2 == s.v2 && t.v3 == s.v3 && t.mmu_orca is None
                        && t.mmu_ps == (if s.mmu_orca is Some {
                        s.mmu_orca
                    } else {
                        s.mmu_ps
                    })
                },
            final(self).paint_exclusive(),
            old(self).wf() ==> final(self).wf(),
    {
        let n = self.triangles.triangle.len();
        let mut i: usize = 0;
        while i < n
            invariant
                n == self.tris().len(),
                i <= n,
                self.vertices == old(self).vertices,
                self.tris().len() == old(self).tris().len(),
                forall|k: int| i <= k < n ==> #[trigger] self.tris()[k] == old(self).tris()[k],
                forall|k: int|
                    0 <= k < i ==> {
                        let t = #[trigger] self.tris()[k];
                        let s = old(self).tris()[k];
                        t.v1 == s.v1 && t.v2 == s.v2 && t.v3 == s.v3 && t.mmu_orca is None
                            && t.mmu_ps == (if s.mmu_orca is Some {
                            s.mmu_orca
                        } else {
                            s.mmu_ps
                        })
                    },
            decreases n - i,
        {
            let has_orca = self.triangles.triangle[i].mmu_orca.is_some();
            if has_orca {
                let taken = self.triangles.triangle[i].mmu_orca.take();
                self.triangles.triangle[i].mmu_ps = taken;
            }
            i = i + 1;
        }
    }

    /// Takes the vertex list out of the mesh, leaving it empty.
    pub fn remove_verts(&mut self) -> (out: Vec<Vertex>)
        ensures
            out@ == old(self).verts(),
            final(self).verts().len() == 0,
            final(self).triangles == old(self).triangles,
    {
        let mut out: Vec<Vertex> = Vec::new();
        core::mem::swap(&mut out, &mut self.vertices.vertex);
        out
    }

    /// Replaces the vertex list with the given vertices.
    pub fn apply_verts(&mut self, verts: &Vec<Vertex>)
        ensures
            final(self).verts() == verts@,
            final(self).triangles == old(self).triangles,
    {
        self.vertices.vertex = clone_vertex_vec(verts);
    }
}

} // verus!
