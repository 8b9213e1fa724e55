//! The hierarchical-dialect model as loaded for conversion: the root
//! document, its side metadata, and the cache of path-referenced
//! sub-documents.
//!
//! The cache is the resolution session's single owned map from
//! normalized path to loaded sub-document. Its invariant is the
//! at-most-one-load-per-path guarantee: paths are pairwise distinct
//! and the load counter equals the number of cached paths.

use vstd::prelude::*;

use crate::Error;
use crate::metadata::orca_metadata::OrcaMetadata;
use crate::model::{Component, Model, ObjectData, clone_component_vec};
use crate::utils::str_eq;

verus! {

/// One loaded sub-document: the id of the root object that first
/// referenced it, and the document itself.
#[derive(Debug)]
pub struct SubModel {
    pub id: usize,
    pub model: Model,
}

/// The resolution cache: normalized paths and the sub-documents they
/// name, in insertion order, with the count of load-routine calls.
#[derive(Debug)]
pub struct SubModelCache {
    pub paths: Vec<String>,
    pub models: Vec<SubModel>,
    pub loads: usize,
}

impl SubModelCache {
    /// The cached path views, in insertion order.
    pub open spec fn path_views(&self) -> Seq<Seq<char>> {
        self.paths@.map_values(|p: String| p@)
    }

    /// The cache invariant: parallel lists, pairwise distinct paths,
    /// and exactly one recorded load per cached path.
    pub open spec fn wf(&self) -> bool {
        &&& self.paths@.len() == self.models@.len()
        &&& self.loads == self.paths@.len()
        &&& forall|i: int, j: int|
            0 <= i < j < self.paths@.len() ==> (#[trigger] self.paths@[i]@) != (
            #[trigger] self.paths@[j]@)
    }

    /// Some cached entry carries this path.
    pub open spec fn contains_path(&self, path: Seq<char>) -> bool {
        exists|i: int| 0 <= i < self.paths@.len() && (#[trigger] self.paths@[i]@) == path
    }

    /// An empty cache with no loads recorded.
    pub fn new() -> (r: Self)
        ensures
            r.paths@.len() == 0,
            r.models@.len() == 0,
            r.loads == 0,
            r.wf(),
    {
        SubModelCache { paths: Vec::new(), models: Vec::new(), loads: 0 }
    }

    /// Finds the index of the entry carrying this path.
    pub fn find(&self, path: &str) -> (r: Option<usize>)
        ensures
            (match r {
                Option::Some(i) => i < self.paths@.len() && self.paths@[i as int]@ == path@,
                Option::None => !self.contains_path(path@),
            }),
    {
        let n = self.paths.len();
        let mut i: usize = 0;
        while i < n
            invariant
                n == self.paths@.len(),
                i <= n,
                forall|k: int| 0 <= k < i ==> (#[trigger] self.paths@[k]@) != path@,
            decreases n - i,
        {
            if str_eq(self.paths[i].as_str(), path) {
                return Option::Some(i);
            }
            i = i + 1;
        }
        Option::None
    }

    /// Looks a path up, returning the cached sub-document.
    pub fn get(&self, path: &str) -> (r: Option<&SubModel>)
        requires
            self.paths@.len() == self.models@.len(),
        ensures
            (match r {
                Option::Some(sub) => exists|i: int|
                    0 <= i < self.models@.len() && (#[trigger] self.paths@[i]@) == path@ && *sub
                        == self.models@[i],
                Option::None => !self.contains_path(path@),
            }),
    {
        match self.find(path) {
            Option::Some(i) => Option::Some(&self.models[i]),
            Option::None => Option::None,
        }
    }

    /// Records one load: inserts a sub-document under a path that is
    /// not cached yet and counts the load-routine call that produced
    /// it.
    pub fn insert(&mut self, path: String, sub: SubModel)
        requires
            old(self).wf(),
            !old(self).contains_path(path@),
            old(self).loads < usize::MAX,
        ensures
            final(self).paths@ == old(self).paths@.push(path),
            final(self).models@ == old(self).models@.push(sub),
            final(self).loads == old(self).loads + 1,
            final(self).wf(),
    {
        self.paths.push(path);
        self.models.push(sub);
        self.loads = self.loads + 1;
        proof {
            assert forall|i: int, j: int|
                0 <= i < j < self.paths@.len() implies (#[trigger] self.paths@[i]@) != (
            #[trigger] self.paths@[j]@) by {
                if j == self.paths@.len() - 1 {
                    assert(!old(self).contains_path(self.paths@[j]@));
                }
            }
        }
    }

    /// Two cache entries with the same path are the same entry: a
    /// lookup always yields the one cached instance of a path.
    pub proof fn lemma_lookup_unique(&self, i: int, j: int)
        requires
            self.wf(),
            0 <= i < self.paths@.len(),
            0 <= j < self.paths@.len(),
            self.paths@[i]@ == self.paths@[j]@,
        ensures
            i == j,
    {
    }

    /// The load routine ran exactly once per distinct cached path:
    /// the load counter equals the cardinality of the set of paths.
    pub proof fn lemma_loads_once(&self)
        requires
            self.wf(),
        ensures
            self.loads == self.path_views().to_set().len(),
    {
        assert(self.path_views().no_duplicates()) by {
            assert forall|i: int, j: int|
                0 <= i < self.path_views().len() && 0 <= j < self.path_views().len() && i != j
                    implies self.path_views()[i] != self.path_views()[j] by {
                if i < j {
                    assert(self.paths@[i]@ != self.paths@[j]@);
                } else {
                    assert(self.paths@[j]@ != self.paths@[i]@);
                }
            }
        }
        self.path_views().unique_seq_to_set();
    }
}

/// A hierarchical-dialect package held in memory: the root document,
/// the raw project settings and package relationships it travels
/// with, its side metadata, and the resolution cache.
#[derive(Debug)]
pub struct OrcaModel {
    pub model: Model,
    pub slice_cfg: String,
    pub md: OrcaMetadata,
    pub sub_models: SubModelCache,
    pub sub_model_ids: Vec<String>,
    pub empty_models: Vec<String>,
    pub sub_objects: Vec<(usize, Vec<Component>)>,
    pub painted: Vec<(usize, bool)>,
    pub rels: String,
}

impl OrcaModel {
    /// The model's structural invariant: the cache is well formed.
    pub open spec fn wf(&self) -> bool {
        self.sub_models.wf()
    }

    /// Assembles the parts into one value.
    pub fn new(
        model: Model,
        slice_cfg: String,
        md: OrcaMetadata,
        sub_models: SubModelCache,
        sub_model_ids: Vec<String>,
        empty_models: Vec<String>,
        sub_objects: Vec<(usize, Vec<Component>)>,
        painted: Vec<(usize, bool)>,
        rels: String,
    ) -> (r: Self)
        ensures
            r.model == model,
            r.slice_cfg == slice_cfg,
            r.md == md,
            r.sub_models == sub_models,
            r.sub_model_ids == sub_model_ids,
            r.empty_models == empty_models,
            r.sub_objects == sub_objects,
            r.painted == painted,
            r.rels == rels,
    {
        OrcaModel {
            model,
            slice_cfg,
            md,
            sub_models,
            sub_model_ids,
            empty_models,
            sub_objects,
            painted,
            rels,
        }
    }

    /// The root document's objects.
    pub fn get_objects(&self) -> (r: &Vec<crate::model::Object>)
        ensures
            r@ == self.model.resources.object@,
    {
        &self.model.resources.object
    }

    /// The resolution cache.
    pub fn sub_models(&self) -> (r: &SubModelCache)
        ensures
            *r == self.sub_models,
    {
        &self.sub_models
    }

    /// The resolution cache, for mutation.
    pub fn sub_models_mut(&mut self) -> (r: &mut SubModelCache)
        ensures
            *r == old(self).sub_models,
            final(self).sub_models == *final(r),
            final(self).model == old(self).model,
            final(self).slice_cfg == old(self).slice_cfg,
            final(self).md == old(self).md,
            final(self).sub_model_ids == old(self).sub_model_ids,
            final(self).empty_models == old(self).empty_models,
            final(self).sub_objects == old(self).sub_objects,
            final(self).painted == old(self).painted,
            final(self).rels == old(self).rels,
    {
        &mut self.sub_models
    }

    /// The component lists of the root objects, in document order;
    /// mesh-variant objects contribute nothing.
    pub fn components(&self) -> (r: Vec<Vec<Component>>)
        ensures
            comp_vec_views(r@) == components_of(self.model.resources.object@),
    {
        let mut out: Vec<Vec<Component>> = Vec::new();
        let n = self.model.resources.object.len();
        let mut i: usize = 0;
        proof {
            assert(self.model.resources.object@.skip(0) =~= self.model.resources.object@);
            assert(comp_vec_views(out@) =~= components_of(self.model.resources.object@.take(0)));
        }
        while i < n
            invariant
                n == self.model.resources.object@.len(),
                i <= n,
                comp_vec_views(out@) == components_of(self.model.resources.object@.take(i as int)),
            decreases n - i,
        {
            let ghost pre = self.model.resources.object@.take(i as int);
            match &self.model.resources.object[i].object {
                ObjectData::Components { component } => {
                    out.push(clone_component_vec(component));
                },
                ObjectData::Mesh(..) => {},
            }
            proof {
                let cur = self.model.resources.object@.take(i + 1);
                assert(cur.drop_last() =~= pre);
                assert(cur.last() == self.model.resources.object@[i as int]);
                lemma_components_of_snoc(cur);
                assert(comp_vec_views(out@) =~= components_of(cur));
            }
            i = i + 1;
        }
        proof {
            assert(self.model.resources.object@.take(n as int) =~= self.model.resources.object@);
        }
        out
    }
}

/// The views of a list of component lists.
pub open spec fn comp_vec_views(v: Seq<Vec<Component>>) -> Seq<Seq<Component>> {
    v.map_values(|x: Vec<Component>| x@)
}

/// A mesh with at least one painted triangle, in either dialect.
pub open spec fn mesh_painted(m: crate::mesh::Mesh) -> bool {
    exists|t: int|
        0 <= t < m.tris().len() && ((#[trigger] m.tris()[t]).mmu_ps is Some || m.tris()[
            t
        ].mmu_orca is Some)
}

/// The objects of the sub-document a component's path names.
pub open spec fn sub_objects_of(cache: SubModelCache, c: Component) -> Seq<crate::model::Object> {
    cache.models@[crate::instancing::index_of_path(
        cache,
        crate::utils::strip_lead(c.path->0@),
    )].model.resources.object@
}

/// A component whose resolved sub-mesh carries paint: its path is
/// cached and some object of the sub-document with the component's
/// target id is a mesh with a painted triangle.
pub open spec fn comp_painted(c: Component, cache: SubModelCache) -> bool {
    &&& c.path is Some
    &&& cache.contains_path(crate::utils::strip_lead(c.path->0@))
    &&& exists|oi: int|
        {
            &&& 0 <= oi < sub_objects_of(cache, c).len()
            &&& (#[trigger] sub_objects_of(cache, c)[oi]).id == c.objectid
            &&& sub_objects_of(cache, c)[oi].object matches ObjectData::Mesh(m) && mesh_painted(m)
        }
}

/// An object whose resolved sub-meshes carry any paint.
pub open spec fn object_painted(object: crate::model::Object, cache: SubModelCache) -> bool {
    exists|j: int|
        0 <= j < object.object->Components_component@.len() && comp_painted(
            #[trigger] object.object->Components_component@[j],
            cache,
        )
}

/// The first failure the paint scan of one component meets, if any.
pub open spec fn scan_error(objs: Seq<crate::model::Object>, cid: usize) -> Option<Error>
    decreases objs.len(),
{
    if objs.len() == 0 {
        Option::None
    } else if objs[0].id == cid && objs[0].object matches ObjectData::Components { .. } {
        Option::Some(Error::UnsupportedNesting)
    } else {
        scan_error(objs.skip(1), cid)
    }
}

/// The first failure the paint scan of one component meets.
pub open spec fn comp_paint_error(c: Component, cache: SubModelCache) -> Option<Error> {
    if c.path is None {
        Option::Some(Error::DanglingReference)
    } else if !cache.contains_path(crate::utils::strip_lead(c.path->0@)) {
        Option::Some(Error::DanglingReference)
    } else {
        scan_error(
            cache.models@[crate::instancing::index_of_path(
                cache,
                crate::utils::strip_lead(c.path->0@),
            )].model.resources.object@,
            c.objectid,
        )
    }
}

/// The first failing component of an object's paint scan.
pub open spec fn first_comp_paint_error(comps: Seq<Component>, cache: SubModelCache) -> Option<
    Error,
>
    decreases comps.len(),
{
    if comps.len() == 0 {
        Option::None
    } else {
        match comp_paint_error(comps[0], cache) {
            Option::Some(e) => Option::Some(e),
            Option::None => first_comp_paint_error(comps.skip(1), cache),
        }
    }
}

/// The first failure of the whole paint scan: every root object must
/// be a component list and every component must scan cleanly.
pub open spec fn painted_error(objects: Seq<crate::model::Object>, cache: SubModelCache)
    -> Option<Error>
    decreases objects.len(),
{
    if objects.len() == 0 {
        Option::None
    } else if !(objects[0].object matches ObjectData::Components { .. }) {
        Option::Some(Error::UnsupportedShape)
    } else {
        match first_comp_paint_error(objects[0].object->Components_component@, cache) {
            Option::Some(e) => Option::Some(e),
            Option::None => painted_error(objects.skip(1), cache),
        }
    }
}

/// Computes the "is painted" flag of every root object: whether any
/// of its resolved sub-meshes carries a non-empty paint attribute in
/// either dialect. Used by selection logic downstream, not by the
/// conversion itself.
pub fn compute_painted(model: &Model, cache: &SubModelCache) -> (r: Result<
    Vec<(usize, bool)>,
    Error,
>)
    requires
        cache.wf(),
    ensures
        (match painted_error(model.resources.object@, *cache) {
            Option::Some(e) => r matches Err(e2) && e2 == e,
            Option::None => {
                let objs = model.resources.object@;
                &&& r matches Ok(v)
                &&& v@.len() == objs.len()
                &&& forall|i: int|
                    0 <= i < objs.len() ==> (#[trigger] v@[i]).0 == objs[i].id && v@[i].1
                        == object_painted(objs[i], *cache)
            },
        }),
{
    let ghost objs = model.resources.object@;
    let n = model.resources.object.len();
    let mut out: Vec<(usize, bool)> = Vec::new();
    let mut i: usize = 0;
    proof {
        assert(objs.skip(0) =~= objs);
    }
    while i < n
        invariant
            cache.wf(),
            n == objs.len(),
            objs == model.resources.object@,
            i <= n,
            out@.len() == i,
            painted_error(objs, *cache) == painted_error(objs.skip(i as int), *cache),
            forall|x: int|
                0 <= x < i ==> (#[trigger] out@[x]).0 == objs[x].id && out@[x].1
                    == object_painted(objs[x], *cache),
        decreases n - i,
    {
        let ghost tail = objs.skip(i as int);
        proof {
            assert(tail[0] == objs[i as int]);
            assert(tail.skip(1) =~= objs.skip(i + 1));
        }
        let comps: &Vec<Component>;
        match &model.resources.object[i].object {
            ObjectData::Components { component } => {
                comps = component;
            },
            ObjectData::Mesh(..) => {
                return Result::Err(Error::UnsupportedShape);
            },
        }
        let ghost cseq = comps@;
        let nc = comps.len();
        let mut painted: bool = false;
        let mut j: usize = 0;
        proof {
            assert(cseq.skip(0) =~= cseq);
        }
        while j < nc
            invariant
                cache.wf(),
                nc == cseq.len(),
                cseq == comps@,
                i < objs.len(),
                objs == model.resources.object@,
                objs[i as int].object matches ObjectData::Components { .. },
                cseq == objs[i as int].object->Components_component@,
                painted_error(objs, *cache) == painted_error(objs.skip(i as int), *cache),
                objs.skip(i as int)[0] == objs[i as int],
                objs.skip(i as int).skip(1) == objs.skip(i + 1),
                j <= nc,
                first_comp_paint_error(cseq, *cache) == first_comp_paint_error(
                    cseq.skip(j as int),
                    *cache,
                ),
                painted == exists|x: int|
                    0 <= x < j && comp_painted(#[trigger] cseq[x], *cache),
            decreases nc - j,
        {
            let ghost ctail = cseq.skip(j as int);
            proof {
                assert(ctail[0] == cseq[j as int]);
                assert(ctail.skip(1) =~= cseq.skip(j + 1));
            }
            match scan_component(&comps[j], cache) {
                Result::Ok(p) => {
                    if p {
                        painted = true;
                    }
                },
                Result::Err(e) => {
                    proof {
                        assert(first_comp_paint_error(ctail, *cache) == Option::Some(e));
                        assert(first_comp_paint_error(cseq, *cache) == Option::Some(e));
                        assert(painted_error(objs.skip(i as int), *cache) == Option::Some(e));
                        assert(painted_error(objs, *cache) == Option::Some(e));
                    }
                    return Result::Err(e);
                },
            }
            j = j + 1;
        }
        proof {
            assert(cseq.skip(nc as int) =~= Seq::<Component>::empty());
            assert(first_comp_paint_error(cseq, *cache) is None);
            if painted {
                assert(object_painted(objs[i as int], *cache));
            } else {
                assert(!object_painted(objs[i as int], *cache));
            }
        }
        out.push((model.resources.object[i].id, painted));
        i = i + 1;
    }
    proof {
        assert(objs.skip(n as int) =~= Seq::<crate::model::Object>::empty());
    }
    Result::Ok(out)
}

/// Scans one component's resolved sub-document for paint.
fn scan_component(c: &Component, cache: &SubModelCache) -> (r: Result<bool, Error>)
    requires
        cache.wf(),
    ensures
        (match comp_paint_error(*c, *cache) {
            Option::Some(e) => r matches Err(e2) && e2 == e,
            Option::None => r matches Ok(p) && p == comp_painted(*c, *cache),
        }),
{
    let path: &str;
    match &c.path {
        Option::Some(p) => {
            path = crate::utils::strip_lead_sep(p.as_str());
        },
        Option::None => {
            return Result::Err(Error::DanglingReference);
        },
    }
    let sidx: usize;
    match cache.find(path) {
        Option::Some(k) => {
            sidx = k;
        },
        Option::None => {
            return Result::Err(Error::DanglingReference);
        },
    }
    proof {
        cache.lemma_lookup_unique(
            sidx as int,
            crate::instancing::index_of_path(*cache, crate::utils::strip_lead(c.path->0@)),
        );
    }
    let ghost sobjs = cache.models@[sidx as int].model.resources.object@;
    let no = cache.models[sidx].model.resources.object.len();
    let mut painted: bool = false;
    let mut oi: usize = 0;
    proof {
        assert(sobjs.skip(0) =~= sobjs);
    }
    while oi < no
        invariant
            cache.wf(),
            c.path is Some,
            cache.contains_path(crate::utils::strip_lead(c.path->0@)),
            sidx < cache.models@.len(),
            sidx as int == crate::instancing::index_of_path(
                *cache,
                crate::utils::strip_lead(c.path->0@),
            ),
            no == sobjs.len(),
            sobjs == cache.models@[sidx as int].model.resources.object@,
            oi <= no,
            scan_error(sobjs, c.objectid) == scan_error(sobjs.skip(oi as int), c.objectid),
            painted == exists|x: int|
                {
                    &&& 0 <= x < oi
                    &&& (#[trigger] sobjs[x]).id == c.objectid
                    &&& sobjs[x].object matches ObjectData::Mesh(m) && mesh_painted(m)
                },
        decreases no - oi,
    {
        let ghost otail = sobjs.skip(oi as int);
        proof {
            assert(otail[0] == sobjs[oi as int]);
            assert(otail.skip(1) =~= sobjs.skip(oi + 1));
        }
        if cache.models[sidx].model.resources.object[oi].id == c.objectid {
            match &cache.models[sidx].model.resources.object[oi].object {
                ObjectData::Mesh(m) => {
                    if mesh_has_paint(m) {
                        painted = true;
                    }
                },
                ObjectData::Components { .. } => {
                    proof {
                        assert(scan_error(sobjs.skip(oi as int), c.objectid) == Option::Some(
                            Error::UnsupportedNesting,
                        ));
                        assert(comp_paint_error(*c, *cache) == Option::Some(
                            Error::UnsupportedNesting,
                        ));
                    }
                    return Result::Err(Error::UnsupportedNesting);
                },
            }
        }
        oi = oi + 1;
    }
    proof {
        assert(sobjs.skip(no as int) =~= Seq::<crate::model::Object>::empty());
        assert(scan_error(sobjs, c.objectid) is None);
        assert(sobjs == sub_objects_of(*cache, *c));
    }
    Result::Ok(painted)
}

/// Whether any triangle of the mesh carries paint in either dialect.
fn mesh_has_paint(m: &crate::mesh::Mesh) -> (r: bool)
    ensures
        r == mesh_painted(*m),
{
    let n = m.triangles.triangle.len();
    let mut i: usize = 0;
    while i < n
        invariant
            n == m.tris().len(),
            i <= n,
            forall|k: int|
                0 <= k < i ==> (#[trigger] m.tris()[k]).mmu_ps is None && m.tris()[k].mmu_orca
                    is None,
        decreases n - i,
    {
        if m.triangles.triangle[i].mmu_ps.is_some() || m.triangles.triangle[i].mmu_orca.is_some() {
            return true;
        }
        i = i + 1;
    }
    false
}

/// The paths of a list that the cache does not hold, in order: the
/// package entries that stay empty sub-documents.
pub open spec fn uncached(cache: SubModelCache, paths: Seq<String>) -> Seq<String>
    decreases paths.len(),
{
    if paths.len() == 0 {
        Seq::empty()
    } else {
        let rest = uncached(cache, paths.drop_last());
        if cache.contains_path(paths.last()@) {
            rest
        } else {
            rest.push(paths.last())
        }
    }
}

/// Filters a path list down to those the cache does not hold.
pub fn paths_not_cached(cache: &SubModelCache, all: &Vec<String>) -> (r: Vec<String>)
    ensures
        r@ == uncached(*cache, all@),
{
    let n = all.len();
    let mut r: Vec<String> = Vec::new();
    let mut i: usize = 0;
    proof {
        assert(all@.take(0) =~= Seq::<String>::empty());
    }
    while i < n
        invariant
            n == all@.len(),
            i <= n,
            r@ == uncached(*cache, all@.take(i as int)),
        decreases n - i,
    {
        let hit = cache.find(all[i].as_str());
        proof {
            assert(all@.take(i + 1).drop_last() =~= all@.take(i as int));
            assert(all@.take(i + 1).last() == all@[i as int]);
        }
        if hit.is_none() {
            r.push(all[i].clone());
        }
        i = i + 1;
    }
    proof {
        assert(all@.take(n as int) =~= all@);
    }
    r
}

/// The component lists of a sequence of objects, in order, skipping
/// mesh-variant objects.
pub open spec fn components_of(objects: Seq<crate::model::Object>) -> Seq<Seq<Component>>
    decreases objects.len(),
{
    if objects.len() == 0 {
        Seq::empty()
    } else {
        let rest = components_of(objects.drop_last());
        match objects.last().object {
            ObjectData::Components { component } => rest.push(component@),
            ObjectData::Mesh(..) => rest,
        }
    }
}

/// Unfolds `components_of` at the last object.
proof fn lemma_components_of_snoc(objects: Seq<crate::model::Object>)
    requires
        objects.len() > 0,
    ensures
        components_of(objects) == (match objects.last().object {
            ObjectData::Components { component } => components_of(objects.drop_last()).push(
                component@,
            ),
            ObjectData::Mesh(..) => components_of(objects.drop_last()),
        }),
{
}

} // verus!
