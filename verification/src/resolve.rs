//! The component-graph resolver and the mesh merger: a root object's
//! components are resolved against the sub-document cache and the
//! side metadata, and the resolved (and externally transformed)
//! meshes are concatenated into one flat-dialect mesh with its
//! per-volume metadata.

use vstd::prelude::*;

use crate::Error;
use crate::mesh::{Mesh, Triangles, Vertices};
use crate::metadata::orca_metadata as orca;
use crate::metadata::ps_metadata as ps;
use crate::model::{Component, Object, ObjectData};
use crate::model_orca::SubModelCache;
use crate::utils::strip_lead;

verus! {

/// One resolved component: the sub-document object it named, a copy
/// of that object's mesh, the side-metadata placement matrix, the
/// component's own local transform, and the part's statistics.
#[derive(Debug)]
pub struct ResolvedComponent {
    pub objectid: usize,
    pub path: String,
    pub mesh: Mesh,
    pub matrix: String,
    pub transform: [u64; 12],
    pub stats: orca::MeshStat,
    pub name: Option<String>,
}

/// The flattened view of one root object: its ordered resolved
/// components and the object's name from the side metadata.
#[derive(Debug)]
pub struct ResolvedObject {
    pub object_id: usize,
    pub components: Vec<ResolvedComponent>,
    pub name: Option<String>,
}

/// The error one component's resolution produces, if any, in the
/// order the checks run: path and cache lookup, the target object in
/// the sub-document, the part entry, the placement matrix, and the
/// component's local transform.
pub open spec fn resolve_component_error(
    c: Component,
    cache: SubModelCache,
    mdo: orca::Object,
) -> Option<Error> {
    if c.path is None {
        Option::Some(Error::DanglingReference)
    } else if !cache.contains_path(strip_lead(c.path->0@)) {
        Option::Some(Error::DanglingReference)
    } else {
        let sub = cache.models@[crate::instancing::index_of_path(
            cache,
            strip_lead(c.path->0@),
        )];
        match crate::model::find_object(sub.model.resources.object@, c.objectid) {
            Option::None => Option::Some(Error::DanglingReference),
            Option::Some(ob) => {
                if !(ob.object matches ObjectData::Mesh(..)) {
                    Option::Some(Error::UnsupportedNesting)
                } else {
                    match orca::find_part(mdo.part@, c.objectid) {
                        Option::None => Option::Some(Error::DanglingReference),
                        Option::Some(part) => {
                            match orca::find_keyed(part.metadata@, "matrix"@) {
                                Option::None => Option::Some(Error::MissingTransform),
                                Option::Some(m) => {
                                    if m.value is None {
                                        Option::Some(Error::MissingTransform)
                                    } else if c.transform is None {
                                        Option::Some(Error::MissingTransform)
                                    } else {
                                        Option::None
                                    }
                                },
                            }
                        },
                    }
                }
            },
        }
    }
}

/// The first component whose resolution fails, front to back.
pub open spec fn first_component_error(
    comps: Seq<Component>,
    cache: SubModelCache,
    mdo: orca::Object,
) -> Option<Error>
    decreases comps.len(),
{
    if comps.len() == 0 {
        Option::None
    } else {
        match resolve_component_error(comps[0], cache, mdo) {
            Option::Some(e) => Option::Some(e),
            Option::None => first_component_error(comps.skip(1), cache, mdo),
        }
    }
}

/// The error resolving a whole root object produces, if any: its
/// side-metadata entry must exist, it must be a component list, and
/// every component must resolve.
pub open spec fn resolve_object_error(
    object: Object,
    cache: SubModelCache,
    md: orca::OrcaMetadata,
) -> Option<Error> {
    match orca::find_object(md.object@, object.id) {
        Option::None => Option::Some(Error::DanglingReference),
        Option::Some(mdo) => {
            if !(object.object matches ObjectData::Components { .. }) {
                Option::Some(Error::UnsupportedShape)
            } else {
                first_component_error(object.object->Components_component@, cache, mdo)
            }
        },
    }
}

/// What one resolved component must hold, read off the inputs.
pub open spec fn resolved_component_ok(
    rc: ResolvedComponent,
    c: Component,
    cache: SubModelCache,
    mdo: orca::Object,
) -> bool {
    let sub = cache.models@[crate::instancing::index_of_path(cache, strip_lead(c.path->0@))];
    let ob = crate::model::find_object(sub.model.resources.object@, c.objectid)->0;
    let part = orca::find_part(mdo.part@, c.objectid)->0;
    &&& rc.objectid == c.objectid
    &&& rc.path@ == strip_lead(c.path->0@)
    &&& rc.mesh.verts() == ob.object->Mesh_0.verts()
    &&& rc.mesh.tris() == ob.object->Mesh_0.tris()
    &&& rc.matrix@ == orca::find_keyed(part.metadata@, "matrix"@)->0.value->0@
    &&& rc.transform@ == c.transform->0@
    &&& rc.stats == part.mesh_stat
    &&& rc.name == (match orca::find_keyed(part.metadata@, "name"@) {
        Option::Some(m) => m.value,
        Option::None => Option::<String>::None,
    })
}

/// Resolves one root object: looks every component's path up in the
/// cache, locates the target object in the resolved sub-document and
/// the matching part entry in the side metadata, and hands back the
/// ordered list of resolved components. The cache is read, never
/// grown: the caller loads what the resolver has not seen.
pub fn resolve_object(object: &Object, cache: &SubModelCache, md: &orca::OrcaMetadata) -> (r:
    Result<ResolvedObject, Error>)
    requires
        cache.wf(),
    ensures
        (match resolve_object_error(*object, *cache, *md) {
            Option::Some(e) => r matches Err(e2) && e2 == e,
            Option::None => {
                let mdo = orca::find_object(md.object@, object.id)->0;
                let comps = object.object->Components_component@;
                &&& r matches Ok(ro)
                &&& ro.object_id == object.id
                &&& ro.name == (match orca::find_keyed(mdo.metadata@, "name"@) {
                    Option::Some(m) => m.value,
                    Option::None => Option::<String>::None,
                })
                &&& ro.components@.len() == comps.len()
                &&& forall|i: int|
                    0 <= i < comps.len() ==> resolved_component_ok(
                        #[trigger] ro.components@[i],
                        comps[i],
                        *cache,
                        mdo,
                    )
            },
        }),
{
    let mdo: &orca::Object;
    match md.get_object_by_id(object.id) {
        Option::Some(o) => {
            mdo = o;
        },
        Option::None => {
            return Result::Err(Error::DanglingReference);
        },
    }
    let comps: &Vec<Component>;
    match &object.object {
        ObjectData::Components { component } => {
            comps = component;
        },
        ObjectData::Mesh(..) => {
            return Result::Err(Error::UnsupportedShape);
        },
    }
    let ghost cs = comps@;
    let name = orca_object_name(mdo);
    let n = comps.len();
    let mut out: Vec<ResolvedComponent> = Vec::new();
    let mut i: usize = 0;
    proof {
        assert(cs.skip(0) =~= cs);
    }
    while i < n
        invariant
            cache.wf(),
            n == cs.len(),
            cs == comps@,
            cs == object.object->Components_component@,
            object.object matches ObjectData::Components { .. },
            orca::find_object(md.object@, object.id) == Option::Some(*mdo),
            i <= n,
            out@.len() == i,
            first_component_error(cs, *cache, *mdo) == first_component_error(
                cs.skip(i as int),
                *cache,
                *mdo,
            ),
            forall|j: int|
                0 <= j < i ==> resolved_component_ok(#[trigger] out@[j], cs[j], *cache, *mdo),
        decreases n - i,
    {
        let ghost tail = cs.skip(i as int);
        proof {
            assert(tail[0] == cs[i as int]);
            assert(tail.skip(1) =~= cs.skip(i + 1));
        }
        match resolve_component(&comps[i], cache, mdo) {
            Result::Ok(rc) => {
                out.push(rc);
            },
            Result::Err(e) => {
                proof {
                    assert(resolve_component_error(cs[i as int], *cache, *mdo)
                        == Option::Some(e));
                    assert(first_component_error(tail, *cache, *mdo) == Option::Some(e));
                    assert(resolve_object_error(*object, *cache, *md) == Option::Some(e));
                }
                return Result::Err(e);
            },
        }
        i = i + 1;
    }
    proof {
        assert(cs.skip(n as int) =~= Seq::<Component>::empty());
    }
    Result::Ok(ResolvedObject { object_id: object.id, components: out, name })
}

/// The object's name from its side-metadata properties.
fn orca_object_name(mdo: &orca::Object) -> (r: Option<String>)
    ensures
        r == (match orca::find_keyed(mdo.metadata@, "name"@) {
            Option::Some(m) => m.value,
            Option::None => Option::<String>::None,
        }),
{
    match orca::get_keyed_value(&mdo.metadata, "name") {
        Option::Some(v) => v,
        Option::None => Option::None,
    }
}

/// Resolves a single component against the cache and its object's
/// side metadata.
fn resolve_component(c: &Component, cache: &SubModelCache, mdo: &orca::Object) -> (r: Result<
    ResolvedComponent,
    Error,
>)
    requires
        cache.wf(),
    ensures
        (match resolve_component_error(*c, *cache, *mdo) {
            Option::Some(e) => r matches Err(e2) && e2 == e,
            Option::None => r matches Ok(rc) && resolved_component_ok(rc, *c, *cache, *mdo),
        }),
{
    let path: &str;
    match &c.path {
        Option::Some(p) => {
            path = crate::utils::strip_lead_sep(p.as_str());
        },
        Option::None => {
            return Result::Err(Error::DanglingReference);
        },
    }
    let sub: &crate::model_orca::SubModel;
    let sidx: usize;
    match cache.find(path) {
        Option::Some(k) => {
            sidx = k;
        },
        Option::None => {
            return Result::Err(Error::DanglingReference);
        },
    }
    proof {
        cache.lemma_lookup_unique(
            sidx as int,
            crate::instancing::index_of_path(*cache, strip_lead(c.path->0@)),
        );
    }
    sub = &cache.models[sidx];
    let ob: &Object;
    match find_object_ref(&sub.model.resources.object, c.objectid) {
        Option::Some(o) => {
            ob = o;
        },
        Option::None => {
            return Result::Err(Error::DanglingReference);
        },
    }
    let mesh: &Mesh;
    match &ob.object {
        ObjectData::Mesh(m) => {
            mesh = m;
        },
        ObjectData::Components { .. } => {
            return Result::Err(Error::UnsupportedNesting);
        },
    }
    let part: &orca::Part;
    match find_part_ref(&mdo.part, c.objectid) {
        Option::Some(p) => {
            part = p;
        },
        Option::None => {
            return Result::Err(Error::DanglingReference);
        },
    }
    let matrix: String;
    match orca::get_keyed_value(&part.metadata, "matrix") {
        Option::Some(v) => {
            match v {
                Option::Some(mv) => {
                    matrix = mv;
                },
                Option::None => {
                    return Result::Err(Error::MissingTransform);
                },
            }
        },
        Option::None => {
            return Result::Err(Error::MissingTransform);
        },
    }
    let transform: [u64; 12];
    match c.transform {
        Option::Some(t) => {
            transform = t;
        },
        Option::None => {
            return Result::Err(Error::MissingTransform);
        },
    }
    let name: Option<String>;
    match orca::get_keyed_value(&part.metadata, "name") {
        Option::Some(v) => {
            name = v;
        },
        Option::None => {
            name = Option::None;
        },
    }
    let path_string = string_of_str(path);
    Result::Ok(
        ResolvedComponent {
            objectid: c.objectid,
            path: path_string,
            mesh: mesh.clone(),
            matrix,
            transform,
            stats: part.mesh_stat,
            name,
        },
    )
}

/// The total vertex count of the first `i` resolved components.
pub open spec fn vert_sum_upto(cs: Seq<ResolvedComponent>, i: int) -> int
    decreases i,
{
    if i <= 0 {
        0
    } else {
        vert_sum_upto(cs, i - 1) + cs[i - 1].mesh.verts().len()
    }
}

/// The total triangle count of the first `i` resolved components.
pub open spec fn tri_sum_upto(cs: Seq<ResolvedComponent>, i: int) -> int
    decreases i,
{
    if i <= 0 {
        0
    } else {
        tri_sum_upto(cs, i - 1) + cs[i - 1].mesh.tris().len()
    }
}

/// Component counts accumulate: the prefix sums never decrease.
pub proof fn lemma_sums_mono(cs: Seq<ResolvedComponent>, i: int, j: int)
    requires
        0 <= i <= j,
    ensures
        vert_sum_upto(cs, i) <= vert_sum_upto(cs, j),
        tri_sum_upto(cs, i) <= tri_sum_upto(cs, j),
        0 <= vert_sum_upto(cs, i),
        0 <= tri_sum_upto(cs, i),
    decreases j,
{
    if j > i {
        lemma_sums_mono(cs, i, j - 1);
    } else if i > 0 {
        lemma_sums_mono(cs, i - 1, i - 1);
    }
}

/// Merges the (already placed) meshes of a resolved object's
/// components into one flat-dialect mesh, in component order, and
/// produces the flat-dialect side metadata: one volume per component
/// spanning its contiguous triangle range and carrying its repair
/// statistics. After the merge every triangle's hierarchical-dialect
/// paint is moved into the flat-dialect attribute.
///
/// The merged triangle count is the sum of the component triangle
/// counts, and every merged triangle's vertex indices lie within the
/// merged vertex count.
pub fn merge_components(ro: &ResolvedObject) -> (r: (Mesh, ps::Object))
    requires
        vert_sum_upto(ro.components@, ro.components@.len() as int) <= usize::MAX,
        forall|i: int| 0 <= i < ro.components@.len() ==> (#[trigger] ro.components@[i]).mesh.wf(),
        forall|i: int|
            0 <= i < ro.components@.len() ==> (
            #[trigger] ro.components@[i]).mesh.paint_exclusive(),
        ro.components@.len() > 0 ==> ro.components@[0].mesh.tris().len() >= 1,
    ensures
        ({
            let cs = ro.components@;
            let mesh = r.0;
            let md = r.1;
            &&& mesh.verts().len() == vert_sum_upto(cs, cs.len() as int)
            &&& mesh.tris().len() == tri_sum_upto(cs, cs.len() as int)
            &&& mesh.wf()
            &&& mesh.paint_exclusive()
            &&& forall|j: int, k: int|
                0 <= j < cs.len() && 0 <= k < cs[j].mesh.verts().len() ==> mesh.verts()[
                    vert_sum_upto(cs, j) + k] == (#[trigger] cs[j].mesh.verts()[k])
            &&& forall|j: int, k: int|
                0 <= j < cs.len() && 0 <= k < cs[j].mesh.tris().len() ==> {
                    let t = mesh.tris()[tri_sum_upto(cs, j) + k];
                    let s = #[trigger] cs[j].mesh.tris()[k];
                    &&& t.v1 == s.v1 + vert_sum_upto(cs, j)
                    &&& t.v2 == s.v2 + vert_sum_upto(cs, j)
                    &&& t.v3 == s.v3 + vert_sum_upto(cs, j)
                    &&& t.mmu_orca is None
                    &&& t.mmu_ps == (if s.mmu_orca is Some {
                        s.mmu_orca
                    } else {
                        s.mmu_ps
                    })
                }
            &&& md.id == ro.object_id
            &&& md.instances_count == 1
            &&& (match ro.name {
                Option::Some(nm) => md.metadata@.len() == 1 && md.metadata@[0].ty@ == "object"@
                    && md.metadata@[0].key is Some && md.metadata@[0].key->0@ == "name"@
                    && md.metadata@[0].value is Some && md.metadata@[0].value->0@ == nm@,
                Option::None => md.metadata@.len() == 0,
            })
            &&& md.volume@.len() == cs.len()
            &&& forall|j: int|
                0 <= j < cs.len() ==> {
                    let vol = #[trigger] md.volume@[j];
                    &&& vol.firstid == tri_sum_upto(cs, j)
                    &&& vol.lastid == tri_sum_upto(cs, j + 1) - 1
                    &&& vol.mesh.edges_fixed == cs[j].stats.edges_fixed
                    &&& vol.mesh.degenerate_facets == cs[j].stats.degenerate_facets
                    &&& vol.mesh.facets_removed == cs[j].stats.facets_removed
                    &&& vol.mesh.facets_reversed == cs[j].stats.facets_reversed
                    &&& vol.mesh.backwards_edges == cs[j].stats.backwards_edges
                    &&& (match cs[j].name {
                        Option::Some(nm) => vol.metadata@.len() == 1 && vol.metadata@[0].ty@
                            == "volume"@ && vol.metadata@[0].key is Some && vol.metadata@[0
                        ].key->0@ == "name"@ && vol.metadata@[0].value is Some && vol.metadata@[0
                        ].value->0@ == nm@,
                        Option::None => vol.metadata@.len() == 0,
                    })
                }
        }),
{
    let ghost cs = ro.components@;
    let n = ro.components.len();
    let mut mesh = Mesh {
        vertices: Vertices { vertex: Vec::new() },
        triangles: Triangles { triangle: Vec::new() },
    };
    let mut volumes: Vec<ps::Volume> = Vec::new();
    let mut prev_id: usize = 0;
    let mut i: usize = 0;
    while i < n
        invariant
            n == cs.len(),
            cs == ro.components@,
            i <= n,
            vert_sum_upto(cs, cs.len() as int) <= usize::MAX,
            forall|j: int| 0 <= j < cs.len() ==> (#[trigger] cs[j]).mesh.wf(),
            forall|j: int| 0 <= j < cs.len() ==> (#[trigger] cs[j]).mesh.paint_exclusive(),
            cs.len() > 0 ==> cs[0].mesh.tris().len() >= 1,
            mesh.verts().len() == vert_sum_upto(cs, i as int),
            mesh.tris().len() == tri_sum_upto(cs, i as int),
            prev_id == tri_sum_upto(cs, i as int),
            mesh.wf(),
            forall|j: int, k: int|
                0 <= j < i && 0 <= k < cs[j].mesh.verts().len() ==> mesh.verts()[vert_sum_upto(
                    cs,
                    j,
                ) + k] == (#[trigger] cs[j].mesh.verts()[k]),
            forall|j: int, k: int|
                0 <= j < i && 0 <= k < cs[j].mesh.tris().len() ==> {
                    let t = mesh.tris()[tri_sum_upto(cs, j) + k];
                    let s = #[trigger] cs[j].mesh.tris()[k];
                    &&& t.v1 == s.v1 + vert_sum_upto(cs, j)
                    &&& t.v2 == s.v2 + vert_sum_upto(cs, j)
                    &&& t.v3 == s.v3 + vert_sum_upto(cs, j)
                    &&& t.mmu_orca == s.mmu_orca
                    &&& t.mmu_ps == s.mmu_ps
                },
            volumes@.len() == i,
            forall|j: int|
                0 <= j < i ==> {
                    let vol = #[trigger] volumes@[j];
                    &&& vol.firstid == tri_sum_upto(cs, j)
                    &&& vol.lastid == tri_sum_upto(cs, j + 1) - 1
                    &&& vol.mesh.edges_fixed == cs[j].stats.edges_fixed
                    &&& vol.mesh.degenerate_facets == cs[j].stats.degenerate_facets
                    &&& vol.mesh.facets_removed == cs[j].stats.facets_removed
                    &&& vol.mesh.facets_reversed == cs[j].stats.facets_reversed
                    &&& vol.mesh.backwards_edges == cs[j].stats.backwards_edges
                    &&& (match cs[j].name {
                        Option::Some(nm) => vol.metadata@.len() == 1 && vol.metadata@[0].ty@
                            == "volume"@ && vol.metadata@[0].key is Some && vol.metadata@[0
                        ].key->0@ == "name"@ && vol.metadata@[0].value is Some && vol.metadata@[0
                        ].value->0@ == nm@,
                        Option::None => vol.metadata@.len() == 0,
                    })
                },
        decreases n - i,
    {
        let ghost pre_verts = mesh.verts();
        let ghost pre_tris = mesh.tris();
        proof {
            lemma_sums_mono(cs, i as int, i + 1);
            lemma_sums_mono(cs, i + 1, cs.len() as int);
        }
        let comp = &ro.components[i];
        let offset = mesh.merge(&comp.mesh);
        proof {
            lemma_sums_mono(cs, 0, i + 1);
            assert(mesh.tris().len() == tri_sum_upto(cs, i + 1));
            lemma_sums_mono(cs, 1, i + 1);
            assert(tri_sum_upto(cs, 1) == cs[0].mesh.tris().len());
            assert(mesh.tris().len() >= 1);
        }
        let last = mesh.triangles.triangle.len() - 1;
        let mut vol_md: Vec<ps::Metadata> = Vec::new();
        match &comp.name {
            Option::Some(nm) => {
                vol_md.push(
                    ps::Metadata {
                        ty: string_of_str("volume"),
                        key: Option::Some(string_of_str("name")),
                        value: Option::Some(nm.clone()),
                    },
                );
            },
            Option::None => {},
        }
        volumes.push(
            ps::Volume {
                firstid: prev_id,
                lastid: last,
                metadata: vol_md,
                mesh: ps::Mesh {
                    edges_fixed: comp.stats.edges_fixed,
                    degenerate_facets: comp.stats.degenerate_facets,
                    facets_removed: comp.stats.facets_removed,
                    facets_reversed: comp.stats.facets_reversed,
                    backwards_edges: comp.stats.backwards_edges,
                },
            },
        );
        prev_id = mesh.triangles.triangle.len();
        proof {
            assert forall|j: int, k: int|
                0 <= j < i + 1 && 0 <= k < cs[j].mesh.tris().len() implies {
                    let t = mesh.tris()[tri_sum_upto(cs, j) + k];
                    let s = #[trigger] cs[j].mesh.tris()[k];
                    &&& t.v1 == s.v1 + vert_sum_upto(cs, j)
                    &&& t.v2 == s.v2 + vert_sum_upto(cs, j)
                    &&& t.v3 == s.v3 + vert_sum_upto(cs, j)
                    &&& t.mmu_orca == s.mmu_orca
                    &&& t.mmu_ps == s.mmu_ps
                } by {
                if j < i {
                    lemma_sums_mono(cs, j + 1, i as int);
                    lemma_sums_mono(cs, 0, j);
                    assert(tri_sum_upto(cs, j) + k < tri_sum_upto(cs, i as int));
                    assert(mesh.tris()[tri_sum_upto(cs, j) + k] == pre_tris[tri_sum_upto(cs, j)
                        + k]);
                } else {
                    assert(mesh.tris()[tri_sum_upto(cs, i as int) + k].v1 == cs[i as int
                    ].mesh.tris()[k].v1 + offset);
                }
            }
            assert forall|j: int, k: int|
                0 <= j < i + 1 && 0 <= k < cs[j].mesh.verts().len() implies mesh.verts()[
                vert_sum_upto(cs, j) + k] == (#[trigger] cs[j].mesh.verts()[k]) by {
                if j < i {
                    lemma_sums_mono(cs, j + 1, i as int);
                    lemma_sums_mono(cs, 0, j);
                    assert(mesh.verts()[vert_sum_upto(cs, j) + k] == pre_verts[vert_sum_upto(
                        cs,
                        j,
                    ) + k]);
                } else {
                    assert(mesh.verts() == pre_verts + cs[i as int].mesh.verts());
                    assert(mesh.verts()[vert_sum_upto(cs, i as int) + k] == cs[i as int
                    ].mesh.verts()[k]);
                }
            }
        }
        i = i + 1;
    }
    let ghost pre_ps = mesh.tris();
    mesh.to_ps();
    proof {
        assert forall|j: int, k: int|
            0 <= j < cs.len() && 0 <= k < cs[j].mesh.tris().len() implies {
                let t = mesh.tris()[tri_sum_upto(cs, j) + k];
                let s = #[trigger] cs[j].mesh.tris()[k];
                &&& t.v1 == s.v1 + vert_sum_upto(cs, j)
                &&& t.v2 == s.v2 + vert_sum_upto(cs, j)
                &&& t.v3 == s.v3 + vert_sum_upto(cs, j)
                &&& t.mmu_orca is None
                &&& t.mmu_ps == (if s.mmu_orca is Some {
                    s.mmu_orca
                } else {
                    s.mmu_ps
                })
            } by {
            lemma_sums_mono(cs, 0, j);
            lemma_sums_mono(cs, j + 1, cs.len() as int);
            assert(tri_sum_upto(cs, j) + k < tri_sum_upto(cs, cs.len() as int));
            assert(pre_ps[tri_sum_upto(cs, j) + k].v1 == cs[j].mesh.tris()[k].v1 + vert_sum_upto(
                cs,
                j,
            ));
        }
    }
    let mut obj_md: Vec<ps::Metadata> = Vec::new();
    match &ro.name {
        Option::Some(nm) => {
            obj_md.push(
                ps::Metadata {
                    ty: string_of_str("object"),
                    key: Option::Some(string_of_str("name")),
                    value: Option::Some(nm.clone()),
                },
            );
        },
        Option::None => {},
    }
    let md = ps::Object {
        id: ro.object_id,
        instances_count: 1,
        metadata: obj_md,
        volume: volumes,
    };
    (mesh, md)
}

/// Copies a string slice into an owned string.
fn string_of_str(s: &str) -> (r: String)
    ensures
        r@ == s@,
{
    String::from_str(s)
}

/// Finds the first object with the given id, by reference.
fn find_object_ref(objects: &Vec<Object>, id: usize) -> (r: Option<&Object>)
    ensures
        (match crate::model::find_object(objects@, id) {
            Option::Some(ob) => r matches Some(rr) && *rr == ob,
            Option::None => r is None,
        }),
{
    let n = objects.len();
    let mut i: usize = 0;
    proof {
        assert(objects@.skip(0) =~= objects@);
    }
    while i < n
        invariant
            n == objects@.len(),
            i <= n,
            crate::model::find_object(objects@, id) == crate::model::find_object(
                objects@.skip(i as int),
                id,
            ),
        decreases n - i,
    {
        let ghost tail = objects@.skip(i as int);
        proof {
            assert(tail[0] == objects@[i as int]);
            assert(tail.skip(1) =~= objects@.skip(i + 1));
        }
        if objects[i].id == id {
            return Option::Some(&objects[i]);
        }
        i = i + 1;
    }
    proof {
        assert(objects@.skip(n as int) =~= Seq::<Object>::empty());
    }
    Option::None
}

/// Finds the first part with the given id, by reference.
fn find_part_ref(parts: &Vec<orca::Part>, id: usize) -> (r: Option<&orca::Part>)
    ensures
        (match orca::find_part(parts@, id) {
            Option::Some(p) => r matches Some(rr) && *rr == p,
            Option::None => r is None,
        }),
{
    let n = parts.len();
    let mut i: usize = 0;
    proof {
        assert(parts@.skip(0) =~= parts@);
    }
    while i < n
        invariant
            n == parts@.len(),
            i <= n,
            orca::find_part(parts@, id) == orca::find_part(parts@.skip(i as int), id),
        decreases n - i,
    {
        let ghost tail = parts@.skip(i as int);
        proof {
            assert(tail[0] == parts@[i as int]);
            assert(tail.skip(1) =~= parts@.skip(i + 1));
        }
        if parts[i].id == id {
            return Option::Some(&parts[i]);
        }
        i = i + 1;
    }
    proof {
        assert(parts@.skip(n as int) =~= Seq::<orca::Part>::empty());
    }
    Option::None
}

} // verus!
