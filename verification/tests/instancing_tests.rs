use unjosefizer::Error;
use unjosefizer::mesh::{Mesh, Triangle, Triangles, Vertex, Vertices};
use unjosefizer::metadata::orca_metadata::OrcaMetadata;
use unjosefizer::model::{Build, Component, Model, Object, ObjectData, Resources, Unit};
use unjosefizer::model_orca::{OrcaModel, SubModel, SubModelCache};

fn vx(x: u64, y: u64, z: u64) -> Vertex {
    Vertex { x, y, z }
}

fn small_mesh(paint: Option<&str>) -> Mesh {
    Mesh {
        vertices: Vertices { vertex: vec![vx(0, 0, 0), vx(1, 0, 0), vx(0, 1, 0)] },
        triangles: Triangles {
            triangle: vec![Triangle {
                v1: 0,
                v2: 1,
                v3: 2,
                mmu_ps: None,
                mmu_orca: paint.map(|s| s.to_string()),
            }],
        },
    }
}

fn sub_model(id: usize, paint: Option<&str>) -> SubModel {
    SubModel {
        id,
        model: Model {
            xmlns: String::new(),
            bambustudio: String::new(),
            p: String::new(),
            requiredextensions: String::new(),
            metadata: Vec::new(),
            resources: Resources {
                object: vec![Object {
                    id: 7,
                    partnumber: None,
                    name: None,
                    uuid: None,
                    pid: None,
                    ty: None,
                    object: ObjectData::Mesh(small_mesh(paint)),
                }],
            },
            build: Build { item: Vec::new() },
            unit: Unit::Millimeter,
        },
    }
}

fn comp(path: &str) -> Component {
    Component { objectid: 7, transform: None, uuid: None, path: Some(path.to_string()) }
}

fn comps_object(id: usize, component: Vec<Component>) -> Object {
    Object {
        id,
        partnumber: None,
        name: None,
        uuid: None,
        pid: None,
        ty: None,
        object: ObjectData::Components { component },
    }
}

fn orca_model(objects: Vec<Object>, cache: SubModelCache) -> OrcaModel {
    OrcaModel {
        model: Model {
            xmlns: String::new(),
            bambustudio: String::new(),
            p: String::new(),
            requiredextensions: String::new(),
            metadata: Vec::new(),
            resources: Resources { object: objects },
            build: Build { item: Vec::new() },
            unit: Unit::Millimeter,
        },
        slice_cfg: String::new(),
        md: OrcaMetadata { object: Vec::new(), assemble: Vec::new() },
        sub_models: cache,
        sub_model_ids: Vec::new(),
        empty_models: Vec::new(),
        sub_objects: Vec::new(),
        painted: Vec::new(),
        rels: String::new(),
    }
}

#[test]
fn copy_paint_copies_between_paired_components() {
    let mut cache = SubModelCache::new();
    cache.insert("from.model".to_string(), sub_model(1, Some("4")));
    cache.insert("to.model".to_string(), sub_model(2, None));
    let mut m = orca_model(
        vec![
            comps_object(1, vec![comp("/from.model")]),
            comps_object(2, vec![comp("/to.model")]),
        ],
        cache,
    );
    assert_eq!(m.copy_paint(0, 1), Ok(()));
    let idx = m.sub_models.find("to.model").unwrap();
    match &m.sub_models.models[idx].model.resources.object[0].object {
        ObjectData::Mesh(mm) => {
            assert_eq!(mm.triangles.triangle[0].mmu_orca.as_deref(), Some("4"));
        }
        ObjectData::Components { .. } => panic!("expected a mesh"),
    }
}

#[test]
fn component_count_mismatch_mutates_neither_object() {
    // Component counts 2 and 3 fail before anything is copied.
    let mut cache = SubModelCache::new();
    cache.insert("a.model".to_string(), sub_model(1, Some("4")));
    cache.insert("b.model".to_string(), sub_model(2, Some("8")));
    cache.insert("c.model".to_string(), sub_model(3, None));
    cache.insert("d.model".to_string(), sub_model(4, None));
    cache.insert("e.model".to_string(), sub_model(5, None));
    let mut m = orca_model(
        vec![
            comps_object(1, vec![comp("/a.model"), comp("/b.model")]),
            comps_object(2, vec![comp("/c.model"), comp("/d.model"), comp("/e.model")]),
        ],
        cache,
    );
    assert_eq!(m.copy_paint(0, 1), Err(Error::ComponentCountMismatch));
    for path in ["c.model", "d.model", "e.model"] {
        let idx = m.sub_models.find(path).unwrap();
        match &m.sub_models.models[idx].model.resources.object[0].object {
            ObjectData::Mesh(mm) => assert!(mm.triangles.triangle[0].mmu_orca.is_none()),
            ObjectData::Components { .. } => panic!("expected a mesh"),
        }
    }
}

#[test]
fn copy_onto_mesh_root_object_is_rejected() {
    let mut cache = SubModelCache::new();
    cache.insert("a.model".to_string(), sub_model(1, Some("4")));
    let mesh_object = Object {
        id: 2,
        partnumber: None,
        name: None,
        uuid: None,
        pid: None,
        ty: None,
        object: ObjectData::Mesh(small_mesh(None)),
    };
    let mut m = orca_model(
        vec![comps_object(1, vec![comp("/a.model")]), mesh_object],
        cache,
    );
    assert_eq!(m.copy_paint(0, 1), Err(Error::UnsupportedShape));
}

#[test]
fn test_main_copies_first_object_onto_third() {
    let mut cache = SubModelCache::new();
    cache.insert("a.model".to_string(), sub_model(1, Some("8")));
    cache.insert("b.model".to_string(), sub_model(2, None));
    cache.insert("c.model".to_string(), sub_model(3, None));
    let mut m = orca_model(
        vec![
            comps_object(1, vec![comp("/a.model")]),
            comps_object(2, vec![comp("/b.model")]),
            comps_object(3, vec![comp("/c.model")]),
        ],
        cache,
    );
    assert_eq!(unjosefizer::test_main(&mut m), Ok(()));
    let idx = m.sub_models.find("c.model").unwrap();
    match &m.sub_models.models[idx].model.resources.object[0].object {
        ObjectData::Mesh(mm) => {
            assert_eq!(mm.triangles.triangle[0].mmu_orca.as_deref(), Some("8"));
        }
        ObjectData::Components { .. } => panic!("expected a mesh"),
    }
    // The second object's sub-model is untouched.
    let idx = m.sub_models.find("b.model").unwrap();
    match &m.sub_models.models[idx].model.resources.object[0].object {
        ObjectData::Mesh(mm) => assert!(mm.triangles.triangle[0].mmu_orca.is_none()),
        ObjectData::Components { .. } => panic!("expected a mesh"),
    }
}
