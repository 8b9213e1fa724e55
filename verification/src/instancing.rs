//! Paint transfer between meshes and objects of provably identical
//! topology: triangle N's paint string is copied to triangle N.

use vstd::prelude::*;

use crate::Error;
use crate::mesh::{Mesh, clone_opt_string};
use crate::model::{Component, Object, ObjectData, clone_component_vec};
use crate::model_orca::{OrcaModel, SubModel, SubModelCache};
use crate::utils::{strip_lead, strip_lead_sep};

verus! {

/// The per-triangle outcome of an identical-topology copy: indices
/// and the dialect not being copied keep the target's values, and the
/// copied dialect takes the source's.
pub open spec fn copied_tris(
    from: Seq<crate::mesh::Triangle>,
    to0: Seq<crate::mesh::Triangle>,
    to1: Seq<crate::mesh::Triangle>,
    orca: bool,
) -> bool {
    &&& to1.len() == to0.len()
    &&& forall|i: int|
        0 <= i < to0.len() ==> {
            let t = #[trigger] to1[i];
            let s = to0[i];
            let f = from[i];
            &&& t.v1 == s.v1
            &&& t.v2 == s.v2
            &&& t.v3 == s.v3
            &&& (orca ==> t.mmu_orca == f.mmu_orca && t.mmu_ps == s.mmu_ps)
            &&& (!orca ==> t.mmu_ps == f.mmu_ps && t.mmu_orca == s.mmu_orca)
        }
}

/// Copies per-triangle paint between two meshes of equal vertex and
/// triangle counts, in the chosen dialect; a count mismatch fails
/// with `TopologyMismatch` before any mutation.
///
/// The dialect not being copied must be empty on every source
/// triangle: a source carrying both dialects at once would be a
/// defect of the producing document.
pub fn _copy_paint_mesh(from: &Mesh, to: &mut Mesh, orca: bool) -> (r: Result<(), Error>)
    requires
        orca ==> forall|i: int|
            0 <= i < from.tris().len() ==> (#[trigger] from.tris()[i]).mmu_ps is None,
        !orca ==> forall|i: int|
            0 <= i < from.tris().len() ==> (#[trigger] from.tris()[i]).mmu_orca is None,
    ensures
        (if from.verts().len() == old(to).verts().len() && from.tris().len() == old(
            to,
        ).tris().len() {
            &&& r is Ok
            &&& final(to).vertices == old(to).vertices
            &&& copied_tris(from.tris(), old(to).tris(), final(to).tris(), orca)
        } else {
            &&& r == Result::<(), Error>::Err(Error::TopologyMismatch)
            &&& *final(to) == *old(to)
        }),
{
    if from.vertices.vertex.len() != to.vertices.vertex.len() {
        return Result::Err(Error::TopologyMismatch);
    }
    if from.triangles.triangle.len() != to.triangles.triangle.len() {
        return Result::Err(Error::TopologyMismatch);
    }
    let n = to.triangles.triangle.len();
    let mut i: usize = 0;
    while i < n
        invariant
            n == to.tris().len(),
            n == from.tris().len(),
            i <= n,
            to.vertices == old(to).vertices,
            to.tris().len() == old(to).tris().len(),
            forall|k: int| i <= k < n ==> #[trigger] to.tris()[k] == old(to).tris()[k],
            forall|k: int|
                0 <= k < i ==> {
                    let t = #[trigger] to.tris()[k];
                    let s = old(to).tris()[k];
                    let f = from.tris()[k];
                    &&& t.v1 == s.v1
                    &&& t.v2 == s.v2
                    &&& t.v3 == s.v3
                    &&& (orca ==> t.mmu_orca == f.mmu_orca && t.mmu_ps == s.mmu_ps)
                    &&& (!orca ==> t.mmu_ps == f.mmu_ps && t.mmu_orca == s.mmu_orca)
                },
        decreases n - i,
    {
        let p = clone_opt_string(
            if orca {
                &from.triangles.triangle[i].mmu_orca
            } else {
                &from.triangles.triangle[i].mmu_ps
            },
        );
        if orca {
            to.triangles.triangle[i].mmu_orca = p;
        } else {
            to.triangles.triangle[i].mmu_ps = p;
        }
        i = i + 1;
    }
    Result::Ok(())
}

/// Copies hierarchical-dialect paint between two meshes of identical
/// topology.
pub fn copy_paint_mesh(from: &Mesh, to: &mut Mesh) -> (r: Result<(), Error>)
    requires
        forall|i: int|
            0 <= i < from.tris().len() ==> (#[trigger] from.tris()[i]).mmu_ps is None,
    ensures
        (if from.verts().len() == old(to).verts().len() && from.tris().len() == old(
            to,
        ).tris().len() {
            &&& r is Ok
            &&& final(to).vertices == old(to).vertices
            &&& copied_tris(from.tris(), old(to).tris(), final(to).tris(), true)
        } else {
            &&& r == Result::<(), Error>::Err(Error::TopologyMismatch)
            &&& *final(to) == *old(to)
        }),
{
    _copy_paint_mesh(from, to, true)
}

/// Reads one mesh's hierarchical-dialect paint attributes.
fn extract_orca(m: &Mesh) -> (r: Vec<Option<String>>)
    ensures
        r@.len() == m.tris().len(),
        forall|k: int| 0 <= k < m.tris().len() ==> #[trigger] r@[k] == m.tris()[k].mmu_orca,
{
    let n = m.triangles.triangle.len();
    let mut r: Vec<Option<String>> = Vec::new();
    let mut i: usize = 0;
    while i < n
        invariant
            n == m.tris().len(),
            i <= n,
            r@.len() == i,
            forall|k: int| 0 <= k < i ==> #[trigger] r@[k] == m.tris()[k].mmu_orca,
        decreases n - i,
    {
        r.push(clone_opt_string(&m.triangles.triangle[i].mmu_orca));
        i = i + 1;
    }
    r
}

/// Writes hierarchical-dialect paint attributes onto a mesh, one per
/// triangle.
fn apply_orca(m: &mut Mesh, paints: &Vec<Option<String>>)
    requires
        paints@.len() == old(m).tris().len(),
    ensures
        final(m).vertices == old(m).vertices,
        final(m).tris().len() == old(m).tris().len(),
        forall|k: int|
            0 <= k < old(m).tris().len() ==> {
                let t = #[trigger] final(m).tris()[k];
                let s = old(m).tris()[k];
                &&& t.v1 == s.v1
                &&& t.v2 == s.v2
                &&& t.v3 == s.v3
                &&& t.mmu_ps == s.mmu_ps
                &&& t.mmu_orca == paints@[k]
            },
{
    let n = m.triangles.triangle.len();
    let mut i: usize = 0;
    while i < n
        invariant
            n == m.tris().len(),
            paints@.len() == n,
            i <= n,
            m.vertices == old(m).vertices,
            m.tris().len() == old(m).tris().len(),
            forall|k: int| i <= k < n ==> #[trigger] m.tris()[k] == old(m).tris()[k],
            forall|k: int|
                0 <= k < i ==> {
                    let t = #[trigger] m.tris()[k];
                    let s = old(m).tris()[k];
                    &&& t.v1 == s.v1
                    &&& t.v2 == s.v2
                    &&& t.v3 == s.v3
                    &&& t.mmu_ps == s.mmu_ps
                    &&& t.mmu_orca == paints@[k]
                },
        decreases n - i,
    {
        let p = clone_opt_string(&paints[i]);
        m.triangles.triangle[i].mmu_orca = p;
        i = i + 1;
    }
}

/// An identical-topology copy onto a target whose paint already
/// matches the source is a no-op: the target's vertex and triangle
/// sequences come out unchanged.
pub proof fn lemma_copy_converged_noop(
    from: Seq<crate::mesh::Triangle>,
    to0: Seq<crate::mesh::Triangle>,
    to1: Seq<crate::mesh::Triangle>,
    orca: bool,
)
    requires
        from.len() == to0.len(),
        copied_tris(from, to0, to1, orca),
        forall|i: int|
            0 <= i < to0.len() ==> (orca ==> (#[trigger] to0[i]).mmu_orca == from[i].mmu_orca)
                && (!orca ==> (#[trigger] to0[i]).mmu_ps == from[i].mmu_ps),
    ensures
        to1 == to0,
{
    assert forall|i: int| 0 <= i < to0.len() implies #[trigger] to1[i] == to0[i] by {
        assert(to1[i].v1 == to0[i].v1);
    }
    assert(to1 =~= to0);
}

/// The cache index of the entry carrying this path.
pub open spec fn index_of_path(cache: SubModelCache, p: Seq<char>) -> int {
    choose|i: int| 0 <= i < cache.paths@.len() && (#[trigger] cache.paths@[i]@) == p
}

/// The error a single component pair produces, if any: an absent path
/// or sub-model is a dangling reference, and the paired objects must
/// be meshes of matching topology.
pub open spec fn pair_error(cache: SubModelCache, fc: Component, tc: Component) -> Option<Error> {
    if fc.path is None || tc.path is None {
        Option::Some(Error::DanglingReference)
    } else if !cache.contains_path(strip_lead(fc.path->0@)) {
        Option::Some(Error::DanglingReference)
    } else if !cache.contains_path(strip_lead(tc.path->0@)) {
        Option::Some(Error::DanglingReference)
    } else {
        let fsub = cache.models@[index_of_path(cache, strip_lead(fc.path->0@))];
        let tsub = cache.models@[index_of_path(cache, strip_lead(tc.path->0@))];
        objects_error(fsub.model.resources.object@, tsub.model.resources.object@)
    }
}

/// The first error among index-paired objects of two sub-documents:
/// the object counts must agree, the paired objects must be meshes,
/// and each pair of meshes must agree in vertex and triangle counts.
pub open spec fn objects_error(fobjs: Seq<Object>, tobjs: Seq<Object>) -> Option<Error>
    decreases fobjs.len(),
{
    if fobjs.len() != tobjs.len() {
        Option::Some(Error::TopologyMismatch)
    } else if fobjs.len() == 0 {
        Option::None
    } else {
        match (fobjs[0].object, tobjs[0].object) {
            (ObjectData::Mesh(fm), ObjectData::Mesh(tm)) => {
                if fm.verts().len() != tm.verts().len() || fm.tris().len() != tm.tris().len() {
                    Option::Some(Error::TopologyMismatch)
                } else {
                    objects_error(fobjs.skip(1), tobjs.skip(1))
                }
            },
            _ => Option::Some(Error::UnsupportedNesting),
        }
    }
}

/// Under a clean pairing, every index pairs two meshes of equal
/// vertex and triangle counts.
proof fn lemma_objects_clean(fobjs: Seq<Object>, tobjs: Seq<Object>, oi: int)
    requires
        objects_error(fobjs, tobjs) is None,
        0 <= oi < fobjs.len(),
    ensures
        fobjs.len() == tobjs.len(),
        fobjs[oi].object matches ObjectData::Mesh(..),
        tobjs[oi].object matches ObjectData::Mesh(..),
        fobjs[oi].object->Mesh_0.verts().len() == tobjs[oi].object->Mesh_0.verts().len(),
        fobjs[oi].object->Mesh_0.tris().len() == tobjs[oi].object->Mesh_0.tris().len(),
    decreases oi,
{
    if oi == 0 {
    } else {
        assert(fobjs.skip(1)[oi - 1] == fobjs[oi]);
        assert(tobjs.skip(1)[oi - 1] == tobjs[oi]);
        lemma_objects_clean(fobjs.skip(1), tobjs.skip(1), oi - 1);
    }
}

/// Under a clean copy, every component pair is clean.
proof fn lemma_all_pairs_clean(
    cache: SubModelCache,
    fcs: Seq<Component>,
    tcs: Seq<Component>,
    j: int,
)
    requires
        first_pair_error(cache, fcs, tcs) is None,
        fcs.len() == tcs.len(),
        0 <= j < fcs.len(),
    ensures
        pair_error(cache, fcs[j], tcs[j]) is None,
    decreases j,
{
    if j == 0 {
    } else {
        assert(fcs.skip(1)[j - 1] == fcs[j]);
        assert(tcs.skip(1)[j - 1] == tcs[j]);
        lemma_all_pairs_clean(cache, fcs.skip(1), tcs.skip(1), j - 1);
    }
}

/// The first error among the component pairs, in order.
pub open spec fn first_pair_error(
    cache: SubModelCache,
    fcs: Seq<Component>,
    tcs: Seq<Component>,
) -> Option<Error>
    decreases fcs.len(),
{
    if fcs.len() == 0 {
        Option::None
    } else {
        match pair_error(cache, fcs[0], tcs[0]) {
            Option::Some(e) => Option::Some(e),
            Option::None => first_pair_error(cache, fcs.skip(1), tcs.skip(1)),
        }
    }
}

/// The error an object-level paint copy produces, if any.
pub open spec fn copy_paint_error(m: OrcaModel, from: usize, to: usize) -> Option<Error> {
    let objs = m.model.resources.object@;
    if !(objs[from as int].object matches ObjectData::Components { .. }) {
        Option::Some(Error::UnsupportedShape)
    } else if !(objs[to as int].object matches ObjectData::Components { .. }) {
        Option::Some(Error::UnsupportedShape)
    } else if objs[from as int].object->Components_component@.len() != objs[
        to as int
    ].object->Components_component@.len() {
        Option::Some(Error::ComponentCountMismatch)
    } else {
        first_pair_error(
            m.sub_models,
            objs[from as int].object->Components_component@,
            objs[to as int].object->Components_component@,
        )
    }
}

/// The pair whose copy lands last on the entry with this path: the
/// highest pair index whose target component names it.
pub open spec fn last_pair_for(tcs: Seq<Component>, key: Seq<char>) -> Option<int>
    decreases tcs.len(),
{
    if tcs.len() == 0 {
        Option::None
    } else if tcs.last().path matches Some(p) && strip_lead(p@) == key {
        Option::Some(tcs.len() - 1)
    } else {
        last_pair_for(tcs.drop_last(), key)
    }
}

/// Every mesh of the sub-document is free of flat-dialect paint: the
/// precondition of a hierarchical-dialect copy out of it.
pub open spec fn sub_ps_free(sub: SubModel) -> bool {
    forall|oi: int|
        0 <= oi < sub.model.resources.object@.len() ==> ((#[trigger] sub.model.resources.object@[
            oi
        ].object) matches ObjectData::Mesh(m) ==> forall|t: int|
            0 <= t < m.tris().len() ==> (#[trigger] m.tris()[t]).mmu_ps is None)
}

/// The copy's source sub-models carry no flat-dialect paint.
pub open spec fn from_paint_ok(cache: SubModelCache, fcs: Seq<Component>) -> bool {
    forall|i: int|
        0 <= i < fcs.len() ==> ((#[trigger] fcs[i]).path matches Some(p) ==> (
        cache.contains_path(strip_lead(p@)) ==> sub_ps_free(
            cache.models@[index_of_path(cache, strip_lead(p@))],
        )))
}

/// How one target sub-document comes out of the copy: object for
/// object, paired by position, the mesh keeps everything but its
/// hierarchical-dialect paint, which it takes from the source
/// sub-document; objects beyond the source's count are untouched.
pub open spec fn sub_copied(fsub: SubModel, t0: SubModel, t1: SubModel) -> bool {
    let fobjs = fsub.model.resources.object@;
    let o0 = t0.model.resources.object@;
    let o1 = t1.model.resources.object@;
    &&& t1.id == t0.id
    &&& t1.model.xmlns == t0.model.xmlns
    &&& t1.model.bambustudio == t0.model.bambustudio
    &&& t1.model.p == t0.model.p
    &&& t1.model.requiredextensions == t0.model.requiredextensions
    &&& t1.model.metadata == t0.model.metadata
    &&& t1.model.build == t0.model.build
    &&& t1.model.unit == t0.model.unit
    &&& fobjs.len() == o0.len()
    &&& o1.len() == o0.len()
    &&& forall|oi: int|
        0 <= oi < o0.len() ==> {
            let b0 = o0[oi];
            let b1 = #[trigger] o1[oi];
            &&& b1.id == b0.id
            &&& b1.partnumber == b0.partnumber
            &&& b1.name == b0.name
            &&& b1.uuid == b0.uuid
            &&& b1.pid == b0.pid
            &&& b1.ty == b0.ty
            &&& b0.object matches ObjectData::Mesh(..)
            &&& fobjs[oi].object matches ObjectData::Mesh(..)
            &&& b1.object matches ObjectData::Mesh(..)
            &&& b1.object->Mesh_0.vertices == b0.object->Mesh_0.vertices
            &&& copied_tris(
                fobjs[oi].object->Mesh_0.tris(),
                b0.object->Mesh_0.tris(),
                b1.object->Mesh_0.tris(),
                true,
            )
        }
}

/// Carries one failing pair's error out to the whole copy: if the
/// pairs before it are clean and this pair fails, the copy fails with
/// this pair's error.
proof fn lemma_pair_error_chain(
    m: OrcaModel,
    from: usize,
    to: usize,
    fcs: Seq<Component>,
    tcs: Seq<Component>,
    i: int,
    e: Error,
)
    requires
        comps_ctx(m, from, to, fcs, tcs),
        0 <= i < fcs.len(),
        first_pair_error(m.sub_models, fcs, tcs) == first_pair_error(
            m.sub_models,
            fcs.skip(i),
            tcs.skip(i),
        ),
        pair_error(m.sub_models, fcs[i], tcs[i]) == Option::Some(e),
    ensures
        copy_paint_error(m, from, to) == Option::Some(e),
{
    assert(fcs.skip(i)[0] == fcs[i]);
    assert(tcs.skip(i)[0] == tcs[i]);
    assert(first_pair_error(m.sub_models, fcs.skip(i), tcs.skip(i)) == Option::Some(e));
}

/// The shape facts of an object-level copy: both root objects are
/// component lists and the component counts agree.
pub open spec fn comps_ctx(
    m: OrcaModel,
    from: usize,
    to: usize,
    fcs: Seq<Component>,
    tcs: Seq<Component>,
) -> bool {
    &&& from < m.model.resources.object@.len()
    &&& to < m.model.resources.object@.len()
    &&& m.model.resources.object@[from as int].object matches ObjectData::Components { .. }
    &&& m.model.resources.object@[to as int].object matches ObjectData::Components { .. }
    &&& fcs == m.model.resources.object@[from as int].object->Components_component@
    &&& tcs == m.model.resources.object@[to as int].object->Components_component@
    &&& fcs.len() == tcs.len()
}

/// Everything an object-level paint copy promises: a failing copy
/// returns the error its inputs deserve and leaves the model
/// untouched; a successful copy changes nothing but the targeted
/// entries, each of which takes the source paint of the last pair
/// naming it.
pub open spec fn copy_paint_post(
    m0: OrcaModel,
    m1: OrcaModel,
    from: usize,
    to: usize,
    r: Result<(), Error>,
) -> bool {
    match copy_paint_error(m0, from, to) {
        Option::Some(e) => r == Result::<(), Error>::Err(e) && m1 == m0,
        Option::None => {
            let fcs = m0.model.resources.object@[from as int].object->Components_component@;
            let tcs = m0.model.resources.object@[to as int].object->Components_component@;
            &&& r is Ok
            &&& m1.model == m0.model
            &&& m1.slice_cfg == m0.slice_cfg
            &&& m1.md == m0.md
            &&& m1.sub_model_ids == m0.sub_model_ids
            &&& m1.empty_models == m0.empty_models
            &&& m1.sub_objects == m0.sub_objects
            &&& m1.painted == m0.painted
            &&& m1.rels == m0.rels
            &&& m1.sub_models.paths@ == m0.sub_models.paths@
            &&& m1.sub_models.loads == m0.sub_models.loads
            &&& m1.sub_models.models@.len() == m0.sub_models.models@.len()
            &&& m1.wf()
            &&& forall|k: int|
                0 <= k < m0.sub_models.models@.len() ==> (match last_pair_for(
                    tcs,
                    #[trigger] m0.sub_models.paths@[k]@,
                ) {
                    Option::Some(i) => sub_copied(
                        m0.sub_models.models@[index_of_path(
                            m0.sub_models,
                            strip_lead(fcs[i].path->0@),
                        )],
                        m0.sub_models.models@[k],
                        m1.sub_models.models@[k],
                    ),
                    Option::None => m1.sub_models.models@[k] == m0.sub_models.models@[k],
                })
        },
    }
}

impl OrcaModel {
    /// Copies per-triangle hierarchical-dialect paint from the
    /// components of one root object to the index-paired components
    /// of another: the paired sub-documents' objects are matched by
    /// position and their meshes must agree in vertex and triangle
    /// counts. A component-count mismatch, and every other failure,
    /// leaves the model untouched.
    pub fn copy_paint(&mut self, from: usize, to: usize) -> (r: Result<(), Error>)
        requires
            old(self).wf(),
            from < old(self).model.resources.object@.len(),
            to < old(self).model.resources.object@.len(),
            (old(self).model.resources.object@[from as int].object matches
                ObjectData::Components { component } ==> from_paint_ok(
                old(self).sub_models,
                component@,
            )),
        ensures
            copy_paint_post(*old(self), *final(self), from, to, r),
    {
        let from_comps: Vec<Component>;
        match &self.model.resources.object[from].object {
            ObjectData::Components { component } => {
                from_comps = clone_component_vec(component);
            },
            ObjectData::Mesh(..) => {
                return Result::Err(Error::UnsupportedShape);
            },
        }
        let to_comps: Vec<Component>;
        match &self.model.resources.object[to].object {
            ObjectData::Components { component } => {
                to_comps = clone_component_vec(component);
            },
            ObjectData::Mesh(..) => {
                return Result::Err(Error::UnsupportedShape);
            },
        }
        let n = from_comps.len();
        if n != to_comps.len() {
            return Result::Err(Error::ComponentCountMismatch);
        }
        let ghost fcs = from_comps@;
        let ghost tcs = to_comps@;

        // Validate every pair and snapshot the source paint before
        // any mutation.
        let mut targets: Vec<usize> = Vec::new();
        let mut snapshots: Vec<Vec<Vec<Option<String>>>> = Vec::new();
        let mut i: usize = 0;
        proof {
            assert(fcs.skip(0) =~= fcs);
            assert(tcs.skip(0) =~= tcs);
        }
        while i < n
            invariant
                *self == *old(self),
                self.wf(),
                comps_ctx(*old(self), from, to, fcs, tcs),
                fcs == from_comps@,
                tcs == to_comps@,
                n == fcs.len(),
                n == tcs.len(),
                i <= n,
                targets@.len() == i,
                snapshots@.len() == i,
                first_pair_error(self.sub_models, fcs, tcs) == first_pair_error(
                    self.sub_models,
                    fcs.skip(i as int),
                    tcs.skip(i as int),
                ),
                forall|j: int| 0 <= j < i ==> (#[trigger] fcs[j]).path is Some,
                forall|j: int| 0 <= j < i ==> (#[trigger] tcs[j]).path is Some,
                forall|j: int|
                    0 <= j < i ==> self.sub_models.contains_path(
                        strip_lead((#[trigger] fcs[j]).path->0@),
                    ),
                forall|j: int|
                    0 <= j < i ==> (#[trigger] targets@[j]) < self.sub_models.models@.len(),
                forall|j: int|
                    0 <= j < i ==> self.sub_models.paths@[(#[trigger] targets@[j]) as int]@
                        == strip_lead(tcs[j].path->0@),
                forall|j: int|
                    0 <= j < i ==> pair_error(self.sub_models, #[trigger] fcs[j], tcs[j])
                        is None,
                forall|j: int|
                    0 <= j < i ==> snapshot_of(
                        #[trigger] snapshots@[j],
                        self.sub_models.models@[index_of_path(
                            self.sub_models,
                            strip_lead(fcs[j].path->0@),
                        )],
                    ),
            decreases n - i,
        {
            let ghost ftail = fcs.skip(i as int);
            let ghost ttail = tcs.skip(i as int);
            proof {
                assert(ftail[0] == fcs[i as int]);
                assert(ttail[0] == tcs[i as int]);
                assert(ftail.skip(1) =~= fcs.skip(i + 1));
                assert(ttail.skip(1) =~= tcs.skip(i + 1));
            }
            let fp: &str;
            match &from_comps[i].path {
                Option::Some(p) => {
                    fp = strip_lead_sep(p.as_str());
                },
                Option::None => {
                    proof {
                        lemma_pair_error_chain(
                            *old(self),
                            from,
                            to,
                            fcs,
                            tcs,
                            i as int,
                            Error::DanglingReference,
                        );
                    }
                    return Result::Err(Error::DanglingReference);
                },
            }
            let tp: &str;
            match &to_comps[i].path {
                Option::Some(p) => {
                    tp = strip_lead_sep(p.as_str());
                },
                Option::None => {
                    proof {
                        lemma_pair_error_chain(
                            *old(self),
                            from,
                            to,
                            fcs,
                            tcs,
                            i as int,
                            Error::DanglingReference,
                        );
                    }
                    return Result::Err(Error::DanglingReference);
                },
            }
            let fidx: usize;
            match self.sub_models.find(fp) {
                Option::Some(k) => {
                    fidx = k;
                },
                Option::None => {
                    proof {
                        lemma_pair_error_chain(
                            *old(self),
                            from,
                            to,
                            fcs,
                            tcs,
                            i as int,
                            Error::DanglingReference,
                        );
                    }
                    return Result::Err(Error::DanglingReference);
                },
            }
            let tidx: usize;
            match self.sub_models.find(tp) {
                Option::Some(k) => {
                    tidx = k;
                },
                Option::None => {
                    proof {
                        lemma_pair_error_chain(
                            *old(self),
                            from,
                            to,
                            fcs,
                            tcs,
                            i as int,
                            Error::DanglingReference,
                        );
                    }
                    return Result::Err(Error::DanglingReference);
                },
            }
            proof {
                self.sub_models.lemma_lookup_unique(
                    fidx as int,
                    index_of_path(self.sub_models, strip_lead(fcs[i as int].path->0@)),
                );
                self.sub_models.lemma_lookup_unique(
                    tidx as int,
                    index_of_path(self.sub_models, strip_lead(tcs[i as int].path->0@)),
                );
            }
            let ghost fobjs = self.sub_models.models@[fidx as int].model.resources.object@;
            let ghost tobjs = self.sub_models.models@[tidx as int].model.resources.object@;
            proof {
                assert(pair_error(self.sub_models, fcs[i as int], tcs[i as int])
                    == objects_error(fobjs, tobjs));
            }
            let fsub_objs_len = self.sub_models.models[fidx].model.resources.object.len();
            let tsub_objs_len = self.sub_models.models[tidx].model.resources.object.len();
            if fsub_objs_len != tsub_objs_len {
                proof {
                    assert(objects_error(fobjs, tobjs) == Option::Some(Error::TopologyMismatch));
                    lemma_pair_error_chain(
                        *old(self),
                        from,
                        to,
                        fcs,
                        tcs,
                        i as int,
                        Error::TopologyMismatch,
                    );
                }
                return Result::Err(Error::TopologyMismatch);
            }
            let mut paints: Vec<Vec<Option<String>>> = Vec::new();
            let mut oi: usize = 0;
            proof {
                assert(fobjs.skip(0) =~= fobjs);
                assert(tobjs.skip(0) =~= tobjs);
            }
            while oi < fsub_objs_len
                invariant
                    *self == *old(self),
                    self.wf(),
                    comps_ctx(*old(self), from, to, fcs, tcs),
                    n == fcs.len(),
                    n == tcs.len(),
                    0 <= i < n,
                    first_pair_error(self.sub_models, fcs, tcs) == first_pair_error(
                        self.sub_models,
                        fcs.skip(i as int),
                        tcs.skip(i as int),
                    ),
                    pair_error(self.sub_models, fcs[i as int], tcs[i as int]) == objects_error(
                        fobjs,
                        tobjs,
                    ),
                    fidx < self.sub_models.models@.len(),
                    tidx < self.sub_models.models@.len(),
                    fobjs == self.sub_models.models@[fidx as int].model.resources.object@,
                    tobjs == self.sub_models.models@[tidx as int].model.resources.object@,
                    fsub_objs_len == fobjs.len(),
                    tsub_objs_len == tobjs.len(),
                    fsub_objs_len == tsub_objs_len,
                    oi <= fsub_objs_len,
                    paints@.len() == oi,
                    objects_error(fobjs, tobjs) == objects_error(
                        fobjs.skip(oi as int),
                        tobjs.skip(oi as int),
                    ),
                    forall|k: int|
                        0 <= k < oi ==> {
                            let b = #[trigger] fobjs[k].object;
                            &&& b matches ObjectData::Mesh(..)
                            &&& tobjs[k].object matches ObjectData::Mesh(..)
                            &&& paints@[k]@.len() == b->Mesh_0.tris().len()
                            &&& forall|t: int|
                                0 <= t < b->Mesh_0.tris().len() ==> #[trigger] paints@[k]@[t]
                                    == b->Mesh_0.tris()[t].mmu_orca
                        },
                decreases fsub_objs_len - oi,
            {
                let ghost fot = fobjs.skip(oi as int);
                let ghost tot = tobjs.skip(oi as int);
                proof {
                    assert(fot[0] == fobjs[oi as int]);
                    assert(fot.skip(1) =~= fobjs.skip(oi + 1));
                    assert(tot[0] == tobjs[oi as int]);
                    assert(tot.skip(1) =~= tobjs.skip(oi + 1));
                }
                let fm: &Mesh;
                match &self.sub_models.models[fidx].model.resources.object[oi].object {
                    ObjectData::Mesh(m) => {
                        fm = m;
                    },
                    ObjectData::Components { .. } => {
                        proof {
                            assert(objects_error(fobjs, tobjs) == Option::Some(
                                Error::UnsupportedNesting,
                            ));
                            lemma_pair_error_chain(
                                *old(self),
                                from,
                                to,
                                fcs,
                                tcs,
                                i as int,
                                Error::UnsupportedNesting,
                            );
                        }
                        return Result::Err(Error::UnsupportedNesting);
                    },
                }
                match &self.sub_models.models[tidx].model.resources.object[oi].object {
                    ObjectData::Mesh(tm) => {
                        if fm.vertices.vertex.len() != tm.vertices.vertex.len()
                            || fm.triangles.triangle.len() != tm.triangles.triangle.len() {
                            proof {
                                assert(objects_error(fobjs, tobjs) == Option::Some(
                                    Error::TopologyMismatch,
                                ));
                                lemma_pair_error_chain(
                                    *old(self),
                                    from,
                                    to,
                                    fcs,
                                    tcs,
                                    i as int,
                                    Error::TopologyMismatch,
                                );
                            }
                            return Result::Err(Error::TopologyMismatch);
                        }
                    },
                    ObjectData::Components { .. } => {
                        proof {
                            assert(objects_error(fobjs, tobjs) == Option::Some(
                                Error::UnsupportedNesting,
                            ));
                            lemma_pair_error_chain(
                                *old(self),
                                from,
                                to,
                                fcs,
                                tcs,
                                i as int,
                                Error::UnsupportedNesting,
                            );
                        }
                        return Result::Err(Error::UnsupportedNesting);
                    },
                }
                paints.push(extract_orca(fm));
                oi = oi + 1;
            }
            proof {
                assert(fobjs.skip(fsub_objs_len as int) =~= Seq::<Object>::empty());
                assert(tobjs.skip(fsub_objs_len as int) =~= Seq::<Object>::empty());
                assert(objects_error(fobjs, tobjs) is None);
                assert(pair_error(self.sub_models, fcs[i as int], tcs[i as int]) is None);
                assert forall|k: int| 0 <= k < fsub_objs_len implies {
                    let b = (#[trigger] fobjs[k]).object;
                    &&& b matches ObjectData::Mesh(..)
                    &&& paints@[k]@.len() == b->Mesh_0.tris().len()
                    &&& forall|t: int|
                        0 <= t < b->Mesh_0.tris().len() ==> #[trigger] paints@[k]@[t]
                            == b->Mesh_0.tris()[t].mmu_orca
                } by {
                    assert(fobjs[k].object matches ObjectData::Mesh(..));
                    assert(paints@[k]@.len() == fobjs[k].object->Mesh_0.tris().len());
                }
                assert(snapshot_of(paints, self.sub_models.models@[fidx as int]));
                assert(fidx as int == index_of_path(
                    self.sub_models,
                    strip_lead(fcs[i as int].path->0@),
                ));
            }
            targets.push(tidx);
            snapshots.push(paints);
            i = i + 1;
        }
        proof {
            assert(fcs.skip(n as int) =~= Seq::<Component>::empty());
            assert(first_pair_error(self.sub_models, fcs, tcs) is None);
            assert(copy_paint_error(*old(self), from, to) is None);
            assert(self.sub_models == old(self).sub_models);
        }

        // Apply the snapshots in pair order: a later pair naming the
        // same target overwrites an earlier one.
        let mut i: usize = 0;
        while i < n
            invariant
                old(self).sub_models.wf(),
                n == fcs.len(),
                n == tcs.len(),
                i <= n,
                targets@.len() == n,
                snapshots@.len() == n,
                self.model == old(self).model,
                self.slice_cfg == old(self).slice_cfg,
                self.md == old(self).md,
                self.sub_model_ids == old(self).sub_model_ids,
                self.empty_models == old(self).empty_models,
                self.sub_objects == old(self).sub_objects,
                self.painted == old(self).painted,
                self.rels == old(self).rels,
                self.sub_models.paths@ == old(self).sub_models.paths@,
                self.sub_models.loads == old(self).sub_models.loads,
                self.sub_models.models@.len() == old(self).sub_models.models@.len(),
                self.wf(),
                forall|j: int| 0 <= j < n ==> (#[trigger] fcs[j]).path is Some,
                forall|j: int| 0 <= j < n ==> (#[trigger] tcs[j]).path is Some,
                forall|j: int|
                    0 <= j < n ==> old(self).sub_models.contains_path(
                        strip_lead((#[trigger] fcs[j]).path->0@),
                    ),
                forall|j: int|
                    0 <= j < n ==> (#[trigger] targets@[j]) < old(
                        self,
                    ).sub_models.models@.len(),
                forall|j: int|
                    0 <= j < n ==> old(self).sub_models.paths@[(
                    #[trigger] targets@[j]) as int]@ == strip_lead(tcs[j].path->0@),
                forall|j: int|
                    0 <= j < n ==> pair_error(old(self).sub_models, #[trigger] fcs[j], tcs[j])
                        is None,
                forall|j: int|
                    0 <= j < n ==> snapshot_of(
                        #[trigger] snapshots@[j],
                        old(self).sub_models.models@[index_of_path(
                            old(self).sub_models,
                            strip_lead(fcs[j].path->0@),
                        )],
                    ),
                forall|k: int|
                    0 <= k < old(self).sub_models.models@.len() ==> (match last_pair_for(
                        tcs.take(i as int),
                        #[trigger] old(self).sub_models.paths@[k]@,
                    ) {
                        Option::Some(j) => sub_copied(
                            old(self).sub_models.models@[index_of_path(
                                old(self).sub_models,
                                strip_lead(fcs[j].path->0@),
                            )],
                            old(self).sub_models.models@[k],
                            self.sub_models.models@[k],
                        ),
                        Option::None => self.sub_models.models@[k] == old(
                            self,
                        ).sub_models.models@[k],
                    }),
            decreases n - i,
        {
            let tidx = targets[i];
            let ghost key = old(self).sub_models.paths@[tidx as int]@;
            let ghost fsub = old(self).sub_models.models@[index_of_path(
                old(self).sub_models,
                strip_lead(fcs[i as int].path->0@),
            )];
            let ghost t_old = old(self).sub_models.models@[tidx as int];
            let ghost pre_models = self.sub_models.models@;
            let ghost t_pre = pre_models[tidx as int];
            proof {
                // The pair is clean, so the source and the old target
                // agree object for object.
                assert(pair_error(old(self).sub_models, fcs[i as int], tcs[i as int]) is None);
                old(self).sub_models.lemma_lookup_unique(
                    tidx as int,
                    index_of_path(old(self).sub_models, strip_lead(tcs[i as int].path->0@)),
                );
                assert(objects_error(
                    fsub.model.resources.object@,
                    t_old.model.resources.object@,
                ) is None);
                // Earlier pairs left the target's topology and
                // flat-dialect paint as they were.
                match last_pair_for(tcs.take(i as int), key) {
                    Option::Some(j) => {
                        assert(sub_copied(
                            old(self).sub_models.models@[index_of_path(
                                old(self).sub_models,
                                strip_lead(fcs[j].path->0@),
                            )],
                            t_old,
                            t_pre,
                        ));
                        lemma_copied_intact(
                            old(self).sub_models.models@[index_of_path(
                                old(self).sub_models,
                                strip_lead(fcs[j].path->0@),
                            )],
                            t_old,
                            t_pre,
                        );
                    },
                    Option::None => {
                        assert(t_pre == t_old);
                    },
                }
                assert(pre_target_intact(t_old, t_pre));
            }
            let m = snapshots[i].len();
            proof {
                assert(snapshot_of(snapshots@[i as int], fsub));
                assert forall|k: int| 0 <= k < fsub.model.resources.object@.len() implies (
                #[trigger] fsub.model.resources.object@[k].object) matches ObjectData::Mesh(
                    ..,
                ) by {
                    lemma_objects_clean(
                        fsub.model.resources.object@,
                        t_old.model.resources.object@,
                        k,
                    );
                }
                assert forall|k: int| 0 <= k < fsub.model.resources.object@.len() implies (
                #[trigger] t_old.model.resources.object@[k].object) matches ObjectData::Mesh(
                    ..,
                ) by {
                    lemma_objects_clean(
                        fsub.model.resources.object@,
                        t_old.model.resources.object@,
                        k,
                    );
                }
                assert forall|k: int| 0 <= k < fsub.model.resources.object@.len() implies (
                #[trigger] fsub.model.resources.object@[k].object)->Mesh_0.tris().len()
                    == t_old.model.resources.object@[k].object->Mesh_0.tris().len() by {
                    lemma_objects_clean(
                        fsub.model.resources.object@,
                        t_old.model.resources.object@,
                        k,
                    );
                }
                assert(fsub.model.resources.object@.len()
                    == t_old.model.resources.object@.len());
            }
            let mut oi: usize = 0;
            while oi < m
                invariant
                    i < n,
                    n == snapshots@.len(),
                    tidx < self.sub_models.models@.len(),
                    m == snapshots@[i as int]@.len(),
                    oi <= m,
                    snapshot_of(snapshots@[i as int], fsub),
                    m == fsub.model.resources.object@.len(),
                    m == t_old.model.resources.object@.len(),
                    forall|k: int|
                        0 <= k < m ==> (#[trigger] fsub.model.resources.object@[k].object)
                            matches ObjectData::Mesh(..),
                    forall|k: int|
                        0 <= k < m ==> (#[trigger] t_old.model.resources.object@[k].object)
                            matches ObjectData::Mesh(..),
                    forall|k: int|
                        0 <= k < m ==> (#[trigger] fsub.model.resources.object@[
                        k
                        ].object)->Mesh_0.tris().len() == t_old.model.resources.object@[
                        k
                        ].object->Mesh_0.tris().len(),
                    t_pre == pre_models[tidx as int],
                    pre_target_intact(t_old, t_pre),
                    self.model == old(self).model,
                    self.slice_cfg == old(self).slice_cfg,
                    self.md == old(self).md,
                    self.sub_model_ids == old(self).sub_model_ids,
                    self.empty_models == old(self).empty_models,
                    self.sub_objects == old(self).sub_objects,
                    self.painted == old(self).painted,
                    self.rels == old(self).rels,
                    self.sub_models.paths@ == old(self).sub_models.paths@,
                    self.sub_models.loads == old(self).sub_models.loads,
                    self.sub_models.models@.len() == pre_models.len(),
                    forall|k: int|
                        0 <= k < pre_models.len() && k != tidx
                            ==> #[trigger] self.sub_models.models@[k] == pre_models[k],
                    partially_applied(
                        snapshots@[i as int]@,
                        t_pre,
                        self.sub_models.models@[tidx as int],
                        oi as int,
                    ),
                decreases m - oi,
            {
                proof {
                    assert(snapshots@[i as int]@[oi as int]@.len() == fsub.model.resources.object@[
                        oi as int
                    ].object->Mesh_0.tris().len());
                }
                match &mut self.sub_models.models[tidx].model.resources.object[oi].object {
                    ObjectData::Mesh(tm) => {
                        apply_orca(tm, &snapshots[i][oi]);
                    },
                    ObjectData::Components { .. } => {},
                }
                oi = oi + 1;
            }
            proof {
                // The whole snapshot is applied: this pair's copy is
                // complete, and it is the one that lands last on this
                // entry among the pairs processed so far.
                let t_cur = self.sub_models.models@[tidx as int];
                assert(partially_applied(snapshots@[i as int]@, t_pre, t_cur, m as int));
                lemma_compose_apply(fsub, t_old, t_pre, t_cur, snapshots@[i as int]);
                assert(sub_copied(fsub, t_old, t_cur));
                assert(strip_lead(tcs[i as int].path->0@) == key);
                assert(tcs.take(i + 1).drop_last() =~= tcs.take(i as int));
                assert(tcs.take(i + 1).last() == tcs[i as int]);
                assert forall|k: int|
                    0 <= k < old(self).sub_models.models@.len() implies (match last_pair_for(
                        tcs.take(i + 1),
                        #[trigger] old(self).sub_models.paths@[k]@,
                    ) {
                        Option::Some(j) => sub_copied(
                            old(self).sub_models.models@[index_of_path(
                                old(self).sub_models,
                                strip_lead(fcs[j].path->0@),
                            )],
                            old(self).sub_models.models@[k],
                            self.sub_models.models@[k],
                        ),
                        Option::None => self.sub_models.models@[k] == old(
                            self,
                        ).sub_models.models@[k],
                    }) by {
                    if k == tidx as int {
                        assert(last_pair_for(tcs.take(i + 1), key) == Option::Some(i as int));
                    } else {
                        if old(self).sub_models.paths@[k]@ == key {
                            old(self).sub_models.lemma_lookup_unique(k, tidx as int);
                        }
                        assert(old(self).sub_models.paths@[k]@ != key);
                        assert(last_pair_for(
                            tcs.take(i + 1),
                            old(self).sub_models.paths@[k]@,
                        ) == last_pair_for(tcs.take(i as int), old(self).sub_models.paths@[k]@));
                        assert(self.sub_models.models@[k] == pre_models[k]);
                    }
                }
            }
            i = i + 1;
        }
        proof {
            assert(tcs.take(n as int) =~= tcs);
        }
        Result::Ok(())
    }
}

/// A completed copy leaves the target's topology, identification and
/// flat-dialect paint intact.
proof fn lemma_copied_intact(fsub: SubModel, t0: SubModel, t1: SubModel)
    requires
        sub_copied(fsub, t0, t1),
    ensures
        pre_target_intact(t0, t1),
{
    let o0 = t0.model.resources.object@;
    let o1 = t1.model.resources.object@;
    assert forall|oi: int| 0 <= oi < o0.len() implies {
        let b0 = o0[oi];
        let b1 = #[trigger] o1[oi];
        &&& b1.id == b0.id
        &&& b1.partnumber == b0.partnumber
        &&& b1.name == b0.name
        &&& b1.uuid == b0.uuid
        &&& b1.pid == b0.pid
        &&& b1.ty == b0.ty
        &&& (b0.object matches ObjectData::Mesh(..) ==> {
            &&& b1.object matches ObjectData::Mesh(..)
            &&& b1.object->Mesh_0.vertices == b0.object->Mesh_0.vertices
            &&& b1.object->Mesh_0.tris().len() == b0.object->Mesh_0.tris().len()
            &&& forall|t: int|
                0 <= t < b0.object->Mesh_0.tris().len() ==> {
                    let x = #[trigger] b1.object->Mesh_0.tris()[t];
                    let y = b0.object->Mesh_0.tris()[t];
                    &&& x.v1 == y.v1
                    &&& x.v2 == y.v2
                    &&& x.v3 == y.v3
                    &&& x.mmu_ps == y.mmu_ps
                }
        })
        &&& (!(b0.object matches ObjectData::Mesh(..)) ==> b1.object == b0.object)
    } by {
        assert(o1[oi].id == o0[oi].id);
    }
}

/// Applying a full snapshot of a clean source on top of an intact
/// target completes the copy with respect to the original target.
proof fn lemma_compose_apply(
    fsub: SubModel,
    t_old: SubModel,
    t_pre: SubModel,
    t_cur: SubModel,
    snap: Vec<Vec<Option<String>>>,
)
    requires
        objects_error(fsub.model.resources.object@, t_old.model.resources.object@) is None,
        snapshot_of(snap, fsub),
        pre_target_intact(t_old, t_pre),
        partially_applied(snap@, t_pre, t_cur, snap@.len() as int),
    ensures
        sub_copied(fsub, t_old, t_cur),
{
    let fobjs = fsub.model.resources.object@;
    let o_old = t_old.model.resources.object@;
    let o_pre = t_pre.model.resources.object@;
    let o_cur = t_cur.model.resources.object@;
    assert(fobjs.len() == o_old.len());
    assert forall|oi: int| 0 <= oi < o_old.len() implies {
        let b0 = o_old[oi];
        let b1 = #[trigger] o_cur[oi];
        &&& b1.id == b0.id
        &&& b1.partnumber == b0.partnumber
        &&& b1.name == b0.name
        &&& b1.uuid == b0.uuid
        &&& b1.pid == b0.pid
        &&& b1.ty == b0.ty
        &&& b0.object matches ObjectData::Mesh(..)
        &&& fobjs[oi].object matches ObjectData::Mesh(..)
        &&& b1.object matches ObjectData::Mesh(..)
        &&& b1.object->Mesh_0.vertices == b0.object->Mesh_0.vertices
        &&& copied_tris(
            fobjs[oi].object->Mesh_0.tris(),
            b0.object->Mesh_0.tris(),
            b1.object->Mesh_0.tris(),
            true,
        )
    } by {
        lemma_objects_clean(fobjs, o_old, oi);
        assert(o_pre[oi].id == o_old[oi].id);
        assert(o_cur[oi].id == o_pre[oi].id);
        let ftris = fobjs[oi].object->Mesh_0.tris();
        let tris_old = o_old[oi].object->Mesh_0.tris();
        let tris_pre = o_pre[oi].object->Mesh_0.tris();
        let tris_cur = o_cur[oi].object->Mesh_0.tris();
        assert(snap@[oi]@.len() == ftris.len());
        assert forall|t: int| 0 <= t < tris_old.len() implies {
            let x = #[trigger] tris_cur[t];
            let s = tris_old[t];
            let f = ftris[t];
            &&& x.v1 == s.v1
            &&& x.v2 == s.v2
            &&& x.v3 == s.v3
            &&& x.mmu_orca == f.mmu_orca
            &&& x.mmu_ps == s.mmu_ps
        } by {
            assert(tris_pre[t].v1 == tris_old[t].v1);
            assert(tris_cur[t].v1 == tris_pre[t].v1);
            assert(snap@[oi]@[t] == ftris[t].mmu_orca);
        }
    }
}

/// What earlier copy pairs may have done to a target entry: its
/// topology, identification and flat-dialect paint are those of the
/// original entry; only hierarchical-dialect paint may differ.
pub open spec fn pre_target_intact(t0: SubModel, t1: SubModel) -> bool {
    let o0 = t0.model.resources.object@;
    let o1 = t1.model.resources.object@;
    &&& t1.id == t0.id
    &&& t1.model.xmlns == t0.model.xmlns
    &&& t1.model.bambustudio == t0.model.bambustudio
    &&& t1.model.p == t0.model.p
    &&& t1.model.requiredextensions == t0.model.requiredextensions
    &&& t1.model.metadata == t0.model.metadata
    &&& t1.model.build == t0.model.build
    &&& t1.model.unit == t0.model.unit
    &&& o1.len() == o0.len()
    &&& forall|oi: int|
        0 <= oi < o0.len() ==> {
            let b0 = o0[oi];
            let b1 = #[trigger] o1[oi];
            &&& b1.id == b0.id
            &&& b1.partnumber == b0.partnumber
            &&& b1.name == b0.name
            &&& b1.uuid == b0.uuid
            &&& b1.pid == b0.pid
            &&& b1.ty == b0.ty
            &&& (b0.object matches ObjectData::Mesh(..) ==> {
                &&& b1.object matches ObjectData::Mesh(..)
                &&& b1.object->Mesh_0.vertices == b0.object->Mesh_0.vertices
                &&& b1.object->Mesh_0.tris().len() == b0.object->Mesh_0.tris().len()
                &&& forall|t: int|
                    0 <= t < b0.object->Mesh_0.tris().len() ==> {
                        let x = #[trigger] b1.object->Mesh_0.tris()[t];
                        let y = b0.object->Mesh_0.tris()[t];
                        &&& x.v1 == y.v1
                        &&& x.v2 == y.v2
                        &&& x.v3 == y.v3
                        &&& x.mmu_ps == y.mmu_ps
                    }
            })
            &&& (!(b0.object matches ObjectData::Mesh(..)) ==> b1.object == b0.object)
        }
}

/// The snapshot of a source sub-document: per object, the
/// hierarchical-dialect paint of its mesh.
pub open spec fn snapshot_of(snap: Vec<Vec<Option<String>>>, fsub: SubModel) -> bool {
    let fobjs = fsub.model.resources.object@;
    &&& snap@.len() == fobjs.len()
    &&& forall|k: int|
        0 <= k < fobjs.len() ==> {
            let b = (#[trigger] fobjs[k]).object;
            &&& b matches ObjectData::Mesh(..)
            &&& snap@[k]@.len() == b->Mesh_0.tris().len()
            &&& forall|t: int|
                0 <= t < b->Mesh_0.tris().len() ==> #[trigger] snap@[k]@[t]
                    == b->Mesh_0.tris()[t].mmu_orca
        }
}

/// The target sub-document with the snapshot applied to its first
/// `upto` objects.
pub open spec fn partially_applied(
    snap: Seq<Vec<Option<String>>>,
    t0: SubModel,
    t1: SubModel,
    upto: int,
) -> bool {
    let o0 = t0.model.resources.object@;
    let o1 = t1.model.resources.object@;
    &&& t1.id == t0.id
    &&& t1.model.xmlns == t0.model.xmlns
    &&& t1.model.bambustudio == t0.model.bambustudio
    &&& t1.model.p == t0.model.p
    &&& t1.model.requiredextensions == t0.model.requiredextensions
    &&& t1.model.metadata == t0.model.metadata
    &&& t1.model.build == t0.model.build
    &&& t1.model.unit == t0.model.unit
    &&& o1.len() == o0.len()
    &&& forall|oi: int|
        0 <= oi < o0.len() ==> {
            let b0 = o0[oi];
            let b1 = #[trigger] o1[oi];
            &&& b1.id == b0.id
            &&& b1.partnumber == b0.partnumber
            &&& b1.name == b0.name
            &&& b1.uuid == b0.uuid
            &&& b1.pid == b0.pid
            &&& b1.ty == b0.ty
            &&& (if oi < upto && oi < snap.len() {
                &&& b0.object matches ObjectData::Mesh(..)
                &&& b1.object matches ObjectData::Mesh(..)
                &&& b1.object->Mesh_0.vertices == b0.object->Mesh_0.vertices
                &&& b1.object->Mesh_0.tris().len() == b0.object->Mesh_0.tris().len()
                &&& snap[oi]@.len() == b0.object->Mesh_0.tris().len()
                &&& forall|t: int|
                    0 <= t < b0.object->Mesh_0.tris().len() ==> {
                        let x = #[trigger] b1.object->Mesh_0.tris()[t];
                        let y = b0.object->Mesh_0.tris()[t];
                        &&& x.v1 == y.v1
                        &&& x.v2 == y.v2
                        &&& x.v3 == y.v3
                        &&& x.mmu_ps == y.mmu_ps
                        &&& x.mmu_orca == snap[oi]@[t]
                    }
            } else {
                b1.object == b0.object
            })
        }
}

} // verus!
