use unjosefizer::Error;
use unjosefizer::mesh::{Mesh, Triangle, Triangles, Vertex, Vertices};
use unjosefizer::metadata::orca_metadata as orca;
use unjosefizer::model::{Build, Component, Model, Object, ObjectData, Resources, Unit};
use unjosefizer::model_orca::{SubModel, SubModelCache};
use unjosefizer::resolve::{merge_components, resolve_object};

fn vx(x: u64, y: u64, z: u64) -> Vertex {
    Vertex { x, y, z }
}

fn painted_mesh() -> Mesh {
    Mesh {
        vertices: Vertices { vertex: vec![vx(0, 0, 0), vx(1, 0, 0), vx(0, 1, 0)] },
        triangles: Triangles {
            triangle: vec![Triangle {
                v1: 0,
                v2: 1,
                v3: 2,
                mmu_ps: None,
                mmu_orca: Some("4".to_string()),
            }],
        },
    }
}

fn sub_with_mesh() -> SubModel {
    SubModel {
        id: 1,
        model: Model {
            xmlns: String::new(),
            bambustudio: String::new(),
            p: String::new(),
            requiredextensions: String::new(),
            metadata: Vec::new(),
            resources: Resources {
                object: vec![Object {
                    id: 7,
                    partnumber: None,
                    name: None,
                    uuid: None,
                    pid: None,
                    ty: None,
                    object: ObjectData::Mesh(painted_mesh()),
                }],
            },
            build: Build { item: Vec::new() },
            unit: Unit::Millimeter,
        },
    }
}

fn meta(key: &str, value: &str) -> orca::Metadata {
    orca::Metadata { key: Some(key.to_string()), value: Some(value.to_string()) }
}

fn side_metadata() -> orca::OrcaMetadata {
    orca::OrcaMetadata {
        object: vec![orca::Object {
            id: 1,
            metadata: vec![meta("name", "leg")],
            part: vec![orca::Part {
                id: 7,
                subtype: "normal_part".to_string(),
                metadata: vec![
                    meta("matrix", "1 0 0 0 0 1 0 0 0 0 1 0 0 0 0 1"),
                    meta("name", "leg part"),
                ],
                mesh_stat: orca::MeshStat {
                    edges_fixed: 3,
                    degenerate_facets: 1,
                    facets_removed: 0,
                    facets_reversed: 2,
                    backwards_edges: 0,
                },
            }],
        }],
        assemble: Vec::new(),
    }
}

fn comp(path: &str) -> Component {
    Component {
        objectid: 7,
        transform: Some([1, 0, 0, 0, 0, 1, 0, 0, 0, 0, 1, 0]),
        uuid: None,
        path: Some(path.to_string()),
    }
}

fn root_object(components: Vec<Component>) -> Object {
    Object {
        id: 1,
        partnumber: None,
        name: None,
        uuid: None,
        pid: None,
        ty: None,
        object: ObjectData::Components { component: components },
    }
}

fn cache_with_sub() -> SubModelCache {
    let mut cache = SubModelCache::new();
    cache.insert("sub.model".to_string(), sub_with_mesh());
    cache
}

#[test]
fn resolves_every_component_in_order() {
    let object = root_object(vec![comp("/sub.model"), comp("/sub.model")]);
    let cache = cache_with_sub();
    let md = side_metadata();
    let ro = resolve_object(&object, &cache, &md).unwrap();
    assert_eq!(ro.object_id, 1);
    assert_eq!(ro.name.as_deref(), Some("leg"));
    assert_eq!(ro.components.len(), 2);
    let rc = &ro.components[0];
    assert_eq!(rc.objectid, 7);
    assert_eq!(rc.path, "sub.model");
    assert_eq!(rc.matrix, "1 0 0 0 0 1 0 0 0 0 1 0 0 0 0 1");
    assert_eq!(rc.name.as_deref(), Some("leg part"));
    assert_eq!(rc.stats.edges_fixed, 3);
    assert_eq!(rc.mesh.triangles.triangle.len(), 1);
}

#[test]
fn mesh_root_object_is_unsupported() {
    let object = Object {
        id: 1,
        partnumber: None,
        name: None,
        uuid: None,
        pid: None,
        ty: None,
        object: ObjectData::Mesh(painted_mesh()),
    };
    let cache = cache_with_sub();
    let md = side_metadata();
    assert!(matches!(
        resolve_object(&object, &cache, &md),
        Err(Error::UnsupportedShape)
    ));
}

#[test]
fn missing_metadata_entry_is_dangling() {
    let object = Object { id: 99, ..root_object(vec![comp("/sub.model")]) };
    let cache = cache_with_sub();
    let md = side_metadata();
    assert!(matches!(
        resolve_object(&object, &cache, &md),
        Err(Error::DanglingReference)
    ));
}

#[test]
fn missing_matrix_is_a_missing_transform() {
    let object = root_object(vec![comp("/sub.model")]);
    let cache = cache_with_sub();
    let mut md = side_metadata();
    md.object[0].part[0].metadata = vec![meta("name", "leg part")];
    assert!(matches!(
        resolve_object(&object, &cache, &md),
        Err(Error::MissingTransform)
    ));
}

#[test]
fn missing_component_transform_is_a_missing_transform() {
    let mut c = comp("/sub.model");
    c.transform = None;
    let object = root_object(vec![c]);
    let cache = cache_with_sub();
    let md = side_metadata();
    assert!(matches!(
        resolve_object(&object, &cache, &md),
        Err(Error::MissingTransform)
    ));
}

#[test]
fn unknown_target_object_is_dangling() {
    let mut c = comp("/sub.model");
    c.objectid = 12;
    let object = root_object(vec![c]);
    let cache = cache_with_sub();
    let md = side_metadata();
    assert!(matches!(
        resolve_object(&object, &cache, &md),
        Err(Error::DanglingReference)
    ));
}

#[test]
fn merge_sums_counts_and_rebases_indices() {
    // Two components merged: the triangle count is the sum of the
    // component counts and every index lies within the merged vertex
    // count.
    let object = root_object(vec![comp("/sub.model"), comp("/sub.model")]);
    let cache = cache_with_sub();
    let md = side_metadata();
    let ro = resolve_object(&object, &cache, &md).unwrap();
    let component_tris: usize = ro.components.iter().map(|c| c.mesh.triangles.triangle.len()).sum();
    let (mesh, ps) = merge_components(&ro);

    assert_eq!(mesh.triangles.triangle.len(), component_tris);
    assert_eq!(mesh.vertices.vertex.len(), 6);
    for t in &mesh.triangles.triangle {
        assert!(t.v1 < mesh.vertices.vertex.len());
        assert!(t.v2 < mesh.vertices.vertex.len());
        assert!(t.v3 < mesh.vertices.vertex.len());
    }
    assert_eq!(mesh.triangles.triangle[1].v1, 3);
    // The hierarchical-dialect paint travelled into the flat-dialect
    // attribute.
    assert_eq!(mesh.triangles.triangle[0].mmu_ps.as_deref(), Some("4"));
    assert!(mesh.triangles.triangle[0].mmu_orca.is_none());

    assert_eq!(ps.id, 1);
    assert_eq!(ps.instances_count, 1);
    assert_eq!(ps.volume.len(), 2);
    assert_eq!((ps.volume[0].firstid, ps.volume[0].lastid), (0, 0));
    assert_eq!((ps.volume[1].firstid, ps.volume[1].lastid), (1, 1));
    assert_eq!(ps.volume[0].mesh.edges_fixed, 3);
    assert_eq!(ps.volume[0].metadata[0].value.as_deref(), Some("leg part"));
    assert_eq!(ps.metadata[0].value.as_deref(), Some("leg"));
}
