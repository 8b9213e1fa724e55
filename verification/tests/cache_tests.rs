use unjosefizer::mesh::{Mesh, Triangle, Triangles, Vertex, Vertices};
use unjosefizer::model::{Build, Component, Model, Object, ObjectData, Resources, Unit};
use unjosefizer::model_orca::{SubModel, SubModelCache, compute_painted, paths_not_cached};

fn vx(x: u64, y: u64, z: u64) -> Vertex {
    Vertex { x, y, z }
}

fn small_mesh(paint: Option<&str>) -> Mesh {
    Mesh {
        vertices: Vertices { vertex: vec![vx(0, 0, 0), vx(1, 0, 0), vx(0, 1, 0)] },
        triangles: Triangles {
            triangle: vec![Triangle {
                v1: 0,
                v2: 1,
                v3: 2,
                mmu_ps: None,
                mmu_orca: paint.map(|s| s.to_string()),
            }],
        },
    }
}

fn sub_model(id: usize, object_id: usize, paint: Option<&str>) -> SubModel {
    SubModel {
        id,
        model: Model {
            xmlns: String::new(),
            bambustudio: String::new(),
            p: String::new(),
            requiredextensions: String::new(),
            metadata: Vec::new(),
            resources: Resources {
                object: vec![Object {
                    id: object_id,
                    partnumber: None,
                    name: None,
                    uuid: None,
                    pid: None,
                    ty: None,
                    object: ObjectData::Mesh(small_mesh(paint)),
                }],
            },
            build: Build { item: Vec::new() },
            unit: Unit::Millimeter,
        },
    }
}

fn comp(objectid: usize, path: &str) -> Component {
    Component { objectid, transform: None, uuid: None, path: Some(path.to_string()) }
}

fn root_model(components: Vec<Vec<Component>>) -> Model {
    let objects = components
        .into_iter()
        .enumerate()
        .map(|(i, component)| Object {
            id: i + 1,
            partnumber: None,
            name: None,
            uuid: None,
            pid: None,
            ty: None,
            object: ObjectData::Components { component },
        })
        .collect();
    Model {
        xmlns: String::new(),
        bambustudio: String::new(),
        p: String::new(),
        requiredextensions: String::new(),
        metadata: Vec::new(),
        resources: Resources { object: objects },
        build: Build { item: Vec::new() },
        unit: Unit::Millimeter,
    }
}

#[test]
fn load_runs_once_per_distinct_path() {
    // Drive the cache the way the loader does: a miss loads and
    // inserts, a hit reuses the cached instance. Three references to
    // two distinct paths make exactly two loads.
    let mut cache = SubModelCache::new();
    let mut load_calls = 0usize;
    for path in ["a.model", "b.model", "a.model"] {
        if cache.find(path).is_none() {
            load_calls += 1;
            cache.insert(path.to_string(), sub_model(1, 7, None));
        }
    }
    assert_eq!(load_calls, 2);
    assert_eq!(cache.loads, 2);
    assert_eq!(cache.paths.len(), 2);
}

#[test]
fn lookup_yields_the_same_cached_instance() {
    let mut cache = SubModelCache::new();
    cache.insert("a.model".to_string(), sub_model(1, 7, None));
    cache.insert("b.model".to_string(), sub_model(2, 7, None));
    let first = cache.find("a.model").unwrap();
    let second = cache.find("a.model").unwrap();
    assert_eq!(first, second);
    // Mutating through one lookup is visible through the next: there
    // is one instance, not a copy.
    cache.models[first].model.resources.object[0].id = 99;
    let again = cache.find("a.model").unwrap();
    assert_eq!(cache.models[again].model.resources.object[0].id, 99);
}

#[test]
fn shared_path_resolves_to_one_shared_sub_model() {
    // Two components of the same object name the same path; paint
    // written through the first reference is seen through the second.
    let model = root_model(vec![vec![comp(7, "/shared.model"), comp(7, "/shared.model")]]);
    let mut cache = SubModelCache::new();
    cache.insert("shared.model".to_string(), sub_model(1, 7, None));

    let flags = compute_painted(&model, &cache).unwrap();
    assert_eq!(flags, vec![(1, false)]);

    // Paint the shared instance through the path of the first
    // component.
    let idx = cache.find("shared.model").unwrap();
    match &mut cache.models[idx].model.resources.object[0].object {
        ObjectData::Mesh(m) => m.triangles.triangle[0].mmu_orca = Some("4".to_string()),
        ObjectData::Components { .. } => panic!("expected a mesh"),
    }

    // Both components now see the paint: the object scans as painted.
    let flags = compute_painted(&model, &cache).unwrap();
    assert_eq!(flags, vec![(1, true)]);
}

#[test]
fn painted_flag_is_per_object() {
    let model = root_model(vec![
        vec![comp(7, "/a.model")],
        vec![comp(7, "/b.model")],
    ]);
    let mut cache = SubModelCache::new();
    cache.insert("a.model".to_string(), sub_model(1, 7, Some("8")));
    cache.insert("b.model".to_string(), sub_model(2, 7, None));
    let flags = compute_painted(&model, &cache).unwrap();
    assert_eq!(flags, vec![(1, true), (2, false)]);
}

#[test]
fn missing_sub_model_is_a_dangling_reference() {
    let model = root_model(vec![vec![comp(7, "/missing.model")]]);
    let cache = SubModelCache::new();
    assert_eq!(
        compute_painted(&model, &cache),
        Err(unjosefizer::Error::DanglingReference)
    );
}

#[test]
fn uncached_paths_become_empty_models() {
    let mut cache = SubModelCache::new();
    cache.insert("a.model".to_string(), sub_model(1, 7, None));
    let all = vec![
        "a.model".to_string(),
        "stray.model".to_string(),
        "other.model".to_string(),
    ];
    let left = paths_not_cached(&cache, &all);
    assert_eq!(left, vec!["stray.model".to_string(), "other.model".to_string()]);
}
